//! The interactive wizard's choices: the period options and the author
//! options, and what a choice among them means.

use vstd::prelude::*;
use crate::text::{decimal, decimal_string, string_views, str_eq};
use crate::digest::AuthorSummary;
use crate::copy_clean::list_contains;

verus! {

/// The interactive wizard.
pub struct Prompt;

/// The label of the author at position `i`.
pub open spec fn author_label(i: nat, s: AuthorSummary) -> Seq<char> {
    "["@ + decimal(i) + "] "@ + s.name@ + " ("@ + decimal(s.commit_count as nat) + " commits, "@
        + decimal(s.repo_count as nat) + " repos)"@
}

/// The e-mails of the authors whose labels were chosen, in summary order.
pub open spec fn chosen_emails(ss: Seq<AuthorSummary>, labels: Seq<Seq<char>>, chosen: Seq<Seq<char>>) -> Seq<Seq<char>>
    decreases ss.len(),
{
    if ss.len() == 0 {
        Seq::empty()
    } else {
        let rest = chosen_emails(ss.drop_last(), labels, chosen);
        if chosen.contains(labels[ss.len() - 1]) {
            rest.push(ss.last().email@)
        } else {
            rest
        }
    }
}

/// The period options, in the order shown.
pub open spec fn period_options() -> Seq<Seq<char>> {
    seq!["Last 24 hours"@, "Last 7 days"@, "Last 30 days"@, "Custom range"@]
}

/// The period that a fixed option means, ending at `now`; none for the
/// custom range, which asks for dates.
pub open spec fn option_period(choice: Seq<char>, now: int) -> Option<(int, int)> {
    if choice == "Last 24 hours"@ {
        Some((now - 86_400, now))
    } else if choice == "Last 7 days"@ {
        Some((now - 604_800, now))
    } else if choice == "Last 30 days"@ {
        Some((now - 2_592_000, now))
    } else {
        None
    }
}

impl Prompt {
    /// The label of one author in the selection.
    pub fn author_label(i: usize, s: &AuthorSummary) -> (r: String)
        ensures
            r@ == author_label(i as nat, *s),
    {
        let mut r = String::from_str("[");
        let idx = decimal_string(i as u64);
        let cc = decimal_string(s.commit_count as u64);
        let rc = decimal_string(s.repo_count as u64);
        r.append(idx.as_str());
        r.append("] ");
        r.append(s.name.as_str());
        r.append(" (");
        r.append(cc.as_str());
        r.append(" commits, ");
        r.append(rc.as_str());
        r.append(" repos)");
        r
    }

    /// The labels of all authors, in order.
    pub fn author_options(ss: &Vec<AuthorSummary>) -> (out: Vec<String>)
        ensures
            out@.len() == ss@.len(),
            forall|i: int| 0 <= i < ss@.len() ==> (#[trigger] out@[i])@ == author_label(i as nat, ss@[i]),
    {
        let mut out: Vec<String> = Vec::new();
        for i in 0..ss.len()
            invariant
                out@.len() == i,
                forall|k: int| 0 <= k < i ==> (#[trigger] out@[k])@ == author_label(k as nat, ss@[k]),
        {
            out.push(Prompt::author_label(i, &ss[i]));
        }
        out
    }

    /// The e-mails of the authors whose labels are among `chosen`.
    pub fn selected_emails(ss: &Vec<AuthorSummary>, labels: &Vec<String>, chosen: &Vec<String>) -> (out: Vec<String>)
        requires
            labels@.len() == ss@.len(),
        ensures
            string_views(out@) == chosen_emails(ss@, string_views(labels@), string_views(chosen@)),
    {
        let mut out: Vec<String> = Vec::new();
        for i in 0..ss.len()
            invariant
                labels@.len() == ss@.len(),
                string_views(out@) == chosen_emails(ss@.take(i as int), string_views(labels@), string_views(chosen@)),
        {
            let ghost prev = out@;
            assert(ss@.take(i + 1).drop_last() =~= ss@.take(i as int));
            assert(string_views(labels@)[i as int] == labels@[i as int]@);
            if list_contains(chosen, labels[i].as_str()) {
                out.push(ss[i].email.clone());
                assert(string_views(out@) =~= string_views(prev).push(ss@[i as int].email@));
            }
        }
        assert(ss@.take(ss@.len() as int) =~= ss@);
        out
    }

    /// The period options, in the order shown.
    pub fn period_options() -> (out: Vec<String>)
        ensures
            string_views(out@) == period_options(),
    {
        let mut out: Vec<String> = Vec::new();
        out.push(String::from_str("Last 24 hours"));
        out.push(String::from_str("Last 7 days"));
        out.push(String::from_str("Last 30 days"));
        out.push(String::from_str("Custom range"));
        assert(string_views(out@) =~= period_options());
        out
    }

    /// The period that an option means, ending at `now`; `None` for the
    /// custom range.
    pub fn option_period(choice: &str, now: i64) -> (r: Option<(i64, i64)>)
        requires
            now >= i64::MIN + 2_592_000,
        ensures
            match r {
                Some((s, u)) => option_period(choice@, now as int) == Some((s as int, u as int)),
                None => option_period(choice@, now as int) is None,
            },
    {
        if str_eq(choice, "Last 24 hours") {
            Some((now - 86_400, now))
        } else if str_eq(choice, "Last 7 days") {
            Some((now - 604_800, now))
        } else if str_eq(choice, "Last 30 days") {
            Some((now - 2_592_000, now))
        } else {
            None
        }
    }
}

} // verus!

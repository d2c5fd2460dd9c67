//! The decisions of a git digest run: which period it covers, whether the
//! period is sound, how many repositories were active, and where the
//! report goes.

use vstd::prelude::*;
use crate::text::{string_views, concat2, concat3, chars_of, string_of};
use crate::time::{DateStamp, valid_stamp, date_text, format_date, period_seconds, invalid_period_message, resolve_last_at};
use crate::paths::{join_path, join_path_chars};
use crate::digest::{AuthorGroup, AuthorGroups, group_repos};
use crate::copy_clean::list_contains;

verus! {

/// The arguments of a digest run. Dates are instants (Unix seconds).
pub struct GitDigestArgs {
    pub dir: String,
    pub since: Option<i64>,
    pub until: Option<i64>,
    /// A relative period: `24h`, `7d` or `30d`.
    pub last: Option<String>,
    /// Where the report goes instead of `dir`.
    pub output: Option<String>,
}

/// Where the period of a run comes from.
pub enum PeriodSource {
    /// From the arguments: start and end instants.
    Given(i64, i64),
    /// From the interactive wizard.
    Ask,
}

pub open spec fn no_tty_message() -> Seq<char> {
    "no TTY detected and no date flags given \u{2014} use --last or --since/--until"@
}

/// How the period of a run is chosen: a relative period ends now; explicit
/// bounds default to 30 days ago and now; without flags the wizard asks,
/// which needs a terminal.
pub open spec fn period_choice(args: GitDigestArgs, now: int, is_tty: bool, r: Result<PeriodSource, String>) -> bool {
    match args.last {
        Some(l) => match period_seconds(l@) {
            Some(d) => r matches Ok(PeriodSource::Given(s, u)) && s == now - d && u == now,
            None => r is Err && r->Err_0@ == invalid_period_message(l@),
        },
        None => if args.since is Some || args.until is Some {
            r matches Ok(PeriodSource::Given(s, u))
                && s == (match args.since { Some(x) => x as int, None => now - 2_592_000 })
                && u == (match args.until { Some(x) => x as int, None => now })
        } else if !is_tty {
            r is Err && r->Err_0@ == no_tty_message()
        } else {
            r matches Ok(PeriodSource::Ask)
        },
    }
}

/// Chooses where the period of a run comes from.
pub fn choose_period(args: &GitDigestArgs, now: i64, is_tty: bool) -> (r: Result<PeriodSource, String>)
    requires
        now >= i64::MIN + 2_592_000,
    ensures
        period_choice(*args, now as int, is_tty, r),
{
    match &args.last {
        Some(l) => match resolve_last_at(l.as_str(), now) {
            Ok((s, u)) => Ok(PeriodSource::Given(s, u)),
            Err(e) => Err(e),
        },
        None => {
            if args.since.is_some() || args.until.is_some() {
                let s = match args.since {
                    Some(x) => x,
                    None => now - 2_592_000,
                };
                let u = match args.until {
                    Some(x) => x,
                    None => now,
                };
                Ok(PeriodSource::Given(s, u))
            } else if !is_tty {
                Err(String::from_str("no TTY detected and no date flags given \u{2014} use --last or --since/--until"))
            } else {
                Ok(PeriodSource::Ask)
            }
        },
    }
}

/// A period must not end before it starts.
pub fn check_period(since: i64, until: i64) -> (r: Result<(), String>)
    ensures
        r is Err <==> since > until,
        r is Err ==> r->Err_0@ == "--since must be before --until"@,
{
    if since > until {
        Err(String::from_str("--since must be before --until"))
    } else {
        Ok(())
    }
}

/// A run needs an existing directory.
pub fn check_dir(dir: &str, exists: bool) -> (r: Result<(), String>)
    ensures
        r is Err <==> !exists,
        r is Err ==> r->Err_0@ == "directory not found: "@ + dir@,
{
    if !exists {
        Err(concat2("directory not found: ", dir))
    } else {
        Ok(())
    }
}

/// How far a run has come: the repositories found, the commits collected
/// from them, or the chosen authors that have commits.
pub enum RunStage {
    Scanned(usize),
    Collected(usize),
    Grouped(usize),
}

/// The message with which a run stops, without a report, when a stage
/// leaves nothing to show.
pub open spec fn spec_stop_message(dir: Seq<char>, stage: RunStage) -> Option<Seq<char>> {
    match stage {
        RunStage::Scanned(n) => if n == 0 {
            Some("No git repositories found in "@ + dir)
        } else {
            None
        },
        RunStage::Collected(n) => if n == 0 {
            Some("No commits found in the selected period."@)
        } else {
            None
        },
        RunStage::Grouped(n) => if n == 0 {
            Some("No commits found for selected authors."@)
        } else {
            None
        },
    }
}

/// Whether a run over directory `dir` stops after `stage`, and with which
/// message.
pub fn stop_message(dir: &str, stage: RunStage) -> (r: Option<String>)
    ensures
        match r {
            Some(m) => spec_stop_message(dir@, stage) == Some(m@),
            None => spec_stop_message(dir@, stage) is None,
        },
{
    match stage {
        RunStage::Scanned(n) => if n == 0 {
            Some(concat2("No git repositories found in ", dir))
        } else {
            None
        },
        RunStage::Collected(n) => if n == 0 {
            Some(String::from_str("No commits found in the selected period."))
        } else {
            None
        },
        RunStage::Grouped(n) => if n == 0 {
            Some(String::from_str("No commits found for selected authors."))
        } else {
            None
        },
    }
}

/// A progress bar is shown while more than a hundred repositories are read.
pub fn shows_progress(repo_count: usize) -> (r: bool)
    ensures
        r == (repo_count > 100),
{
    repo_count > 100
}

/// The repositories of all authors, author by author.
pub open spec fn all_repos(g: Seq<AuthorGroup>) -> Seq<Seq<char>>
    decreases g.len(),
{
    if g.len() == 0 {
        Seq::empty()
    } else {
        all_repos(g.drop_last()) + group_repos(g.last().repos@)
    }
}

/// The values of a sequence, each once, in order of first appearance.
pub open spec fn distinct(s: Seq<Seq<char>>) -> Seq<Seq<char>>
    decreases s.len(),
{
    if s.len() == 0 {
        Seq::empty()
    } else {
        let rest = distinct(s.drop_last());
        if rest.contains(s.last()) {
            rest
        } else {
            rest.push(s.last())
        }
    }
}

/// The number of repositories that hold commits of some chosen author.
pub fn active_repo_count(g: &AuthorGroups) -> (n: usize)
    ensures
        n == distinct(all_repos(g.groups())).len(),
{
    let mut seen: Vec<String> = Vec::new();
    let ghost mut walked: Seq<Seq<char>> = Seq::empty();
    let authors = g.authors();
    for i in 0..authors.len()
        invariant
            walked == all_repos(authors@.take(i as int)),
            string_views(seen@) == distinct(walked),
    {
        let a = &authors[i];
        let ghost start = walked;
        for r in 0..a.repos.len()
            invariant
                walked == start + group_repos(a.repos@.take(r as int)),
                string_views(seen@) == distinct(walked),
        {
            let repo = a.repos[r].repo.as_str();
            let ghost prev = seen@;
            proof {
                let w2 = walked.push(a.repos@[r as int].repo@);
                assert(w2.drop_last() =~= walked);
                assert(group_repos(a.repos@.take(r + 1)) =~= group_repos(a.repos@.take(r as int)).push(a.repos@[r as int].repo@));
                walked = w2;
            }
            if !list_contains(&seen, repo) {
                seen.push(a.repos[r].repo.clone());
                assert(string_views(seen@) =~= string_views(prev).push(repo@));
            }
        }
        proof {
            assert(a.repos@.take(a.repos@.len() as int) =~= a.repos@);
            assert(authors@.take(i + 1).drop_last() =~= authors@.take(i as int));
        }
    }
    assert(authors@.take(authors@.len() as int) =~= authors@);
    proof {
        lemma_distinct_len(walked);
    }
    seen.len()
}

proof fn lemma_distinct_len(s: Seq<Seq<char>>)
    ensures
        distinct(s).len() <= s.len(),
    decreases s.len(),
{
    if s.len() > 0 {
        lemma_distinct_len(s.drop_last());
    }
}

/// The file name of the report of a day: `git-digest-YYYY-MM-DD.md`.
pub fn report_file_name(today: &DateStamp) -> (r: String)
    requires
        valid_stamp(*today),
    ensures
        r@ == "git-digest-"@ + date_text(*today) + ".md"@,
{
    let d = format_date(today);
    concat3("git-digest-", d.as_str(), ".md")
}

/// Where the report of a day goes: in the output directory if one was
/// given, else in the scanned directory.
pub fn report_path(args: &GitDigestArgs, today: &DateStamp) -> (r: String)
    requires
        valid_stamp(*today),
    ensures
        r@ == join_path(
            match args.output { Some(o) => o@, None => args.dir@ },
            "git-digest-"@ + date_text(*today) + ".md"@,
        ),
{
    let name = report_file_name(today);
    let dir = match &args.output {
        Some(o) => chars_of(o.as_str()),
        None => chars_of(args.dir.as_str()),
    };
    let n = chars_of(name.as_str());
    let p = join_path_chars(&dir, &n);
    string_of(p.as_slice())
}

} // verus!

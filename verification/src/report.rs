//! Renderings of a git digest: the Markdown report and the lines shown in
//! the terminal.

use vstd::prelude::*;
use crate::text::{chars_of, string_of, append_chars, decimal, decimal_chars};
use crate::time::{DateStamp, valid_stamp, date_text, minute_text, format_date, format_minutes};
use crate::git::Commit;
use crate::digest::{AuthorGroup, AuthorGroups, RepoCommits, well_ordered};

verus! {

// ---------------------------------------------------------------------
// Short hashes: the first seven bytes of a hash
// ---------------------------------------------------------------------

/// The number of bytes of a character in UTF-8.
pub open spec fn utf8_len(c: char) -> nat {
    if (c as u32) < 0x80 {
        1
    } else if (c as u32) < 0x800 {
        2
    } else if (c as u32) < 0x10000 {
        3
    } else {
        4
    }
}

/// The number of bytes of a text in UTF-8.
pub open spec fn byte_len(s: Seq<char>) -> nat
    decreases s.len(),
{
    if s.len() == 0 {
        0
    } else {
        byte_len(s.drop_last()) + utf8_len(s.last())
    }
}

pub open spec fn min_nat(a: nat, b: nat) -> nat {
    if a <= b { a } else { b }
}

/// Whether the first `min(7, bytes)` bytes of a hash end on a character
/// boundary (where they do not, slicing the hash there panics).
pub open spec fn short_hash_cut(h: Seq<char>, k: int) -> bool {
    0 <= k <= h.len() && byte_len(h.take(k)) == min_nat(7, byte_len(h))
}

pub open spec fn has_short_hash(h: Seq<char>) -> bool {
    exists|k: int| short_hash_cut(h, k)
}

/// The first seven bytes of a hash (all of a shorter one): `&hash[..7.min(len)]`.
pub open spec fn short_hash(h: Seq<char>) -> Seq<char> {
    h.take(choose|k: int| short_hash_cut(h, k))
}

proof fn lemma_byte_len_take_step(h: Seq<char>, k: int)
    requires
        0 <= k < h.len(),
    ensures
        byte_len(h.take(k + 1)) == byte_len(h.take(k)) + utf8_len(h[k]),
        utf8_len(h[k]) >= 1,
{
    assert(h.take(k + 1).drop_last() =~= h.take(k));
}

proof fn lemma_byte_len_take_monotonic(h: Seq<char>, j: int, k: int)
    requires
        0 <= j < k <= h.len(),
    ensures
        byte_len(h.take(j)) < byte_len(h.take(k)),
    decreases k - j,
{
    lemma_byte_len_take_step(h, k - 1);
    if j < k - 1 {
        lemma_byte_len_take_monotonic(h, j, k - 1);
    }
}

fn char_utf8_len(c: char) -> (n: usize)
    ensures
        n == utf8_len(c),
{
    let v = c as u32;
    if v < 0x80 {
        1
    } else if v < 0x800 {
        2
    } else if v < 0x10000 {
        3
    } else {
        4
    }
}

/// The first seven bytes of a hash.
pub fn short_hash_of(hash: &str) -> (r: String)
    requires
        has_short_hash(hash@),
    ensures
        r@ == short_hash(hash@),
{
    let h = chars_of(hash);
    let ghost cut = choose|k: int| short_hash_cut(hash@, k);
    // The byte length of the whole hash, capped at 8 to stay small.
    let mut total: usize = 0;
    let mut k: usize = 0;
    assert(h@.take(0) =~= Seq::<char>::empty());
    while k < h.len() && total < 8
        invariant
            h@ == hash@,
            k <= h.len(),
            total == byte_len(h@.take(k as int)),
            total < 12,
        decreases h.len() - k,
    {
        proof {
            lemma_byte_len_take_step(h@, k as int);
        }
        total = total + char_utf8_len(h[k]);
        k = k + 1;
    }
    proof {
        if k < h.len() {
            assert(total >= 8);
            lemma_byte_len_take_monotonic_all(h@, k as int);
        } else {
            assert(h@.take(k as int) =~= h@);
        }
    }
    let target: usize = if total < 7 { total } else { 7 };
    assert(target == min_nat(7, byte_len(h@)));
    let mut n: usize = 0;
    let mut k: usize = 0;
    while k < h.len() && n < target
        invariant
            h@ == hash@,
            k <= h.len(),
            n == byte_len(h@.take(k as int)),
            short_hash_cut(hash@, cut),
            target == min_nat(7, byte_len(h@)),
            k <= cut,
            target <= 7,
        decreases h.len() - k,
    {
        proof {
            lemma_byte_len_take_step(h@, k as int);
            if k == cut {
                assert(false);
            }
            if cut > k {
                lemma_byte_len_take_monotonic(h@, k as int, cut);
            }
        }
        n = n + char_utf8_len(h[k]);
        k = k + 1;
    }
    proof {
        if k < cut {
            lemma_byte_len_take_monotonic(h@, k as int, cut);
            if k < h.len() {
                assert(n >= target);
            } else {
                assert(false);
            }
        }
        assert(k == cut);
    }
    let s = crate::text::slice_chars(&h, 0, k);
    assert(s@ =~= hash@.take(cut));
    string_of(s.as_slice())
}

proof fn lemma_byte_len_take_monotonic_all(h: Seq<char>, k: int)
    requires
        0 <= k <= h.len(),
    ensures
        byte_len(h.take(k)) <= byte_len(h),
{
    assert(h.take(h.len() as int) =~= h);
    if k < h.len() {
        lemma_byte_len_take_monotonic(h, k, h.len() as int);
    }
}

// ---------------------------------------------------------------------
// The Markdown report
// ---------------------------------------------------------------------

/// Whether every commit of the groups has a valid date and a short hash.
pub open spec fn renderable(g: Seq<AuthorGroup>) -> bool {
    forall|a: int, r: int, c: int|
        0 <= a < g.len() && 0 <= r < g[a].repos@.len() && 0 <= c < g[a].repos@[r].commits@.len() ==> {
            let commit = #[trigger] g[a].repos@[r].commits@[c];
            valid_stamp(commit.date) && has_short_hash(commit.hash@)
        }
}

/// The table row of a commit.
pub open spec fn commit_row(c: Commit) -> Seq<char> {
    "| `"@ + short_hash(c.hash@) + "` | "@ + c.subject@ + " | "@ + minute_text(c.date) + " |\n"@
}

pub open spec fn commit_rows(cs: Seq<Commit>) -> Seq<char>
    decreases cs.len(),
{
    if cs.len() == 0 {
        Seq::empty()
    } else {
        commit_rows(cs.drop_last()) + commit_row(cs.last())
    }
}

/// Law: a repository's table holds one row per commit, in order: the rows
/// of a single commit are its row, and the rows of two runs of commits are
/// the rows of the first followed by the rows of the second.
pub proof fn law_rows_per_commit(a: Seq<Commit>, b: Seq<Commit>, c: Commit)
    ensures
        commit_rows(Seq::<Commit>::empty()) == Seq::<char>::empty(),
        commit_rows(seq![c]) == commit_row(c),
        commit_rows(a + b) == commit_rows(a) + commit_rows(b),
        commit_rows(a.push(c)) == commit_rows(a) + commit_row(c),
    decreases b.len(),
{
    assert(seq![c].drop_last() =~= Seq::<Commit>::empty());
    assert(commit_rows(Seq::<Commit>::empty()) == Seq::<char>::empty());
    assert(seq![c].last() == c);
    assert(commit_rows(seq![c]) == commit_rows(seq![c].drop_last()) + commit_row(c));
    assert(commit_rows(seq![c]) =~= commit_row(c));
    assert(a.push(c).drop_last() =~= a);
    if b.len() == 0 {
        assert(a + b =~= a);
        assert(commit_rows(a) + commit_rows(b) =~= commit_rows(a));
    } else {
        law_rows_per_commit(a, b.drop_last(), c);
        assert((a + b).drop_last() =~= a + b.drop_last());
        assert((a + b).last() == b.last());
        assert(commit_rows(a + b) =~= commit_rows(a) + commit_rows(b));
    }
}

/// The section of a repository: its path as a heading, then a table of its
/// commits.
pub open spec fn repo_section(r: RepoCommits) -> Seq<char> {
    "\n### `"@ + r.repo@ + "`\n"@ + "| hash | message | date |\n|------|---------|------|\n"@ + commit_rows(r.commits@)
}

pub open spec fn repo_sections(rs: Seq<RepoCommits>) -> Seq<char>
    decreases rs.len(),
{
    if rs.len() == 0 {
        Seq::empty()
    } else {
        repo_sections(rs.drop_last()) + repo_section(rs.last())
    }
}

/// The author name of the first commit of the first repository that has one.
pub open spec fn first_author_name(rs: Seq<RepoCommits>) -> Option<Seq<char>>
    decreases rs.len(),
{
    if rs.len() == 0 {
        None
    } else if rs[0].commits@.len() > 0 {
        Some(rs[0].commits@[0].author_name@)
    } else {
        first_author_name(rs.drop_first())
    }
}

/// The name shown for an author, or `fallback`.
pub open spec fn shown_name(a: AuthorGroup, fallback: Seq<char>) -> Seq<char> {
    match first_author_name(a.repos@) {
        Some(n) => n,
        None => fallback,
    }
}

/// The section of an author: the name as a heading, then the repositories.
pub open spec fn author_section(a: AuthorGroup) -> Seq<char> {
    "\n## "@ + shown_name(a, "unknown"@) + "\n"@ + repo_sections(a.repos@)
}

pub open spec fn author_sections(g: Seq<AuthorGroup>) -> Seq<char>
    decreases g.len(),
{
    if g.len() == 0 {
        Seq::empty()
    } else {
        author_sections(g.drop_last()) + author_section(g.last())
    }
}

/// The head of the report: title with the day of writing, the period, and
/// the number of repositories scanned and of those with activity.
pub open spec fn report_header(today: DateStamp, since: DateStamp, until: DateStamp, total: nat, active: nat) -> Seq<char> {
    "# Git Digest \u{2014} "@ + date_text(today) + "\n\n**Period:** "@ + date_text(since) + " \u{2192} "@
        + date_text(until) + "\n**Repos scanned:** "@ + decimal(total) + " | **With activity:** "@
        + decimal(active) + "\n\n---\n"@
}

/// The whole report.
pub open spec fn report(g: AuthorGroups, today: DateStamp, since: DateStamp, until: DateStamp, total: nat, active: nat) -> Seq<char> {
    report_header(today, since, until, total, active) + author_sections(g.groups())
}

/// Writes Markdown digests.
pub struct MarkdownWriter;

fn push_str(out: &mut Vec<char>, s: &str)
    ensures
        final(out)@ == old(out)@ + s@,
{
    let c = chars_of(s);
    append_chars(out, c.as_slice());
}

/// The table row of one commit.
fn row_of(c: &Commit) -> (r: Vec<char>)
    requires
        valid_stamp(c.date),
        has_short_hash(c.hash@),
    ensures
        r@ == commit_row(*c),
{
    let short = short_hash_of(c.hash.as_str());
    let date = format_minutes(&c.date);
    let mut out: Vec<char> = Vec::new();
    push_str(&mut out, "| `");
    push_str(&mut out, short.as_str());
    push_str(&mut out, "` | ");
    push_str(&mut out, c.subject.as_str());
    push_str(&mut out, " | ");
    push_str(&mut out, date.as_str());
    push_str(&mut out, " |\n");
    assert(out@ =~= commit_row(*c));
    out
}

fn render_rows(cs: &Vec<Commit>, out: &mut Vec<char>)
    requires
        forall|c: int| 0 <= c < cs@.len() ==> valid_stamp((#[trigger] cs@[c]).date) && has_short_hash(cs@[c].hash@),
    ensures
        final(out)@ == old(out)@ + commit_rows(cs@),
{
    let ghost start = out@;
    for i in 0..cs.len()
        invariant
            forall|c: int| 0 <= c < cs@.len() ==> valid_stamp((#[trigger] cs@[c]).date) && has_short_hash(cs@[c].hash@),
            out@ == start + commit_rows(cs@.take(i as int)),
    {
        assert(valid_stamp(cs@[i as int].date) && has_short_hash(cs@[i as int].hash@));
        let row = row_of(&cs[i]);
        let ghost before = out@;
        append_chars(out, row.as_slice());
        assert(cs@.take(i + 1).drop_last() =~= cs@.take(i as int));
        assert(commit_rows(cs@.take(i + 1)) == commit_rows(cs@.take(i as int)) + commit_row(cs@[i as int]));
        assert(out@ =~= start + commit_rows(cs@.take(i + 1)));
    }
    assert(cs@.take(cs@.len() as int) =~= cs@);
}

fn render_repos(rs: &Vec<RepoCommits>, out: &mut Vec<char>)
    requires
        forall|r: int, c: int| 0 <= r < rs@.len() && 0 <= c < rs@[r].commits@.len() ==>
            valid_stamp((#[trigger] rs@[r].commits@[c]).date) && has_short_hash(rs@[r].commits@[c].hash@),
    ensures
        final(out)@ == old(out)@ + repo_sections(rs@),
{
    let ghost start = out@;
    for i in 0..rs.len()
        invariant
            forall|r: int, c: int| 0 <= r < rs@.len() && 0 <= c < rs@[r].commits@.len() ==>
                valid_stamp((#[trigger] rs@[r].commits@[c]).date) && has_short_hash(rs@[r].commits@[c].hash@),
            out@ == start + repo_sections(rs@.take(i as int)),
    {
        let r = &rs[i];
        push_str(out, "\n### `");
        push_str(out, r.repo.as_str());
        push_str(out, "`\n");
        push_str(out, "| hash | message | date |\n|------|---------|------|\n");
        proof {
            assert forall|c: int| 0 <= c < r.commits@.len() implies valid_stamp((#[trigger] r.commits@[c]).date) && has_short_hash(r.commits@[c].hash@) by {
                assert(rs@[i as int].commits@[c] == r.commits@[c]);
            }
        }
        render_rows(&r.commits, out);
        assert(rs@.take(i + 1).drop_last() =~= rs@.take(i as int));
        assert(out@ =~= start + repo_sections(rs@.take(i + 1)));
    }
    assert(rs@.take(rs@.len() as int) =~= rs@);
}

/// The name shown for an author.
fn author_name_of(a: &AuthorGroup, fallback: &str) -> (r: String)
    ensures
        r@ == shown_name(*a, fallback@),
{
    let ghost rs = a.repos@;
    assert(rs.skip(0) =~= rs);
    for i in 0..a.repos.len()
        invariant
            rs == a.repos@,
            forall|k: int| 0 <= k < i ==> rs[k].commits@.len() == 0,
            first_author_name(rs) == first_author_name(rs.skip(i as int)),
    {
        assert(rs.skip(i as int)[0] == rs[i as int]);
        if a.repos[i].commits.len() > 0 {
            return a.repos[i].commits[0].author_name.clone();
        }
        assert(rs.skip(i as int).drop_first() =~= rs.skip(i + 1));
    }
    assert(rs.skip(rs.len() as int).len() == 0);
    String::from_str(fallback)
}

impl MarkdownWriter {
    /// The report of a digest: written on `today`, for the period from
    /// `since` to `until` (local dates), after scanning `total_repos`
    /// repositories of which `active_repos` had commits. Authors come in
    /// increasing order of e-mail, each author's repositories in increasing
    /// path order, as the groups always hold them.
    #[verifier::spinoff_prover]
    pub fn render(
        groups: &AuthorGroups,
        today: &DateStamp,
        since: &DateStamp,
        until: &DateStamp,
        total_repos: usize,
        active_repos: usize,
    ) -> (text: String)
        requires
            valid_stamp(*today),
            valid_stamp(*since),
            valid_stamp(*until),
            renderable(groups.groups()),
        ensures
            text@ == report(*groups, *today, *since, *until, total_repos as nat, active_repos as nat),
            well_ordered(groups.groups()),
    {
        let mut out: Vec<char> = Vec::new();
        let t = format_date(today);
        let s = format_date(since);
        let u = format_date(until);
        let total = decimal_chars(total_repos as u64);
        let active = decimal_chars(active_repos as u64);
        push_str(&mut out, "# Git Digest \u{2014} ");
        push_str(&mut out, t.as_str());
        push_str(&mut out, "\n\n**Period:** ");
        push_str(&mut out, s.as_str());
        push_str(&mut out, " \u{2192} ");
        push_str(&mut out, u.as_str());
        push_str(&mut out, "\n**Repos scanned:** ");
        append_chars(&mut out, total.as_slice());
        push_str(&mut out, " | **With activity:** ");
        append_chars(&mut out, active.as_slice());
        push_str(&mut out, "\n\n---\n");
        assert(out@ =~= report_header(*today, *since, *until, total_repos as nat, active_repos as nat));
        let ghost head = out@;
        let authors = groups.authors();
        for i in 0..authors.len()
            invariant
                renderable(authors@),
                out@ == head + author_sections(authors@.take(i as int)),
        {
            let a = &authors[i];
            let name = author_name_of(a, "unknown");
            push_str(&mut out, "\n## ");
            push_str(&mut out, name.as_str());
            push_str(&mut out, "\n");
            proof {
                assert forall|r: int, c: int| 0 <= r < a.repos@.len() && 0 <= c < a.repos@[r].commits@.len() implies
                    valid_stamp((#[trigger] a.repos@[r].commits@[c]).date) && has_short_hash(a.repos@[r].commits@[c].hash@) by {
                    assert(authors@[i as int].repos@[r].commits@[c] == a.repos@[r].commits@[c]);
                }
            }
            render_repos(&a.repos, &mut out);
            assert(authors@.take(i + 1).drop_last() =~= authors@.take(i as int));
            assert(out@ =~= head + author_sections(authors@.take(i + 1)));
        }
        assert(authors@.take(authors@.len() as int) =~= authors@);
        string_of(out.as_slice())
    }
}

// ---------------------------------------------------------------------
// The terminal digest
// ---------------------------------------------------------------------

/// A line of the terminal digest.
pub enum DigestLine {
    /// An author heading (shown after a blank line).
    Author(String),
    /// A repository path.
    Repo(String),
    /// A commit: short hash and subject.
    Commit { short: String, subject: String },
}

/// A line as a kind and its texts: 0 for an author, 1 for a repository, 2
/// for a commit.
pub open spec fn line_view(l: DigestLine) -> (int, Seq<char>, Seq<char>) {
    match l {
        DigestLine::Author(n) => (0, n@, Seq::empty()),
        DigestLine::Repo(r) => (1, r@, Seq::empty()),
        DigestLine::Commit { short, subject } => (2, short@, subject@),
    }
}

pub open spec fn line_views(ls: Seq<DigestLine>) -> Seq<(int, Seq<char>, Seq<char>)> {
    ls.map_values(|l: DigestLine| line_view(l))
}

pub open spec fn commit_lines(cs: Seq<Commit>) -> Seq<(int, Seq<char>, Seq<char>)>
    decreases cs.len(),
{
    if cs.len() == 0 {
        Seq::empty()
    } else {
        commit_lines(cs.drop_last()).push((2, short_hash(cs.last().hash@), cs.last().subject@))
    }
}

pub open spec fn repo_lines(rs: Seq<RepoCommits>) -> Seq<(int, Seq<char>, Seq<char>)>
    decreases rs.len(),
{
    if rs.len() == 0 {
        Seq::empty()
    } else {
        repo_lines(rs.drop_last()).push((1, rs.last().repo@, Seq::empty())) + commit_lines(rs.last().commits@)
    }
}

/// The lines of the digest: each author (named after a commit, else by
/// e-mail), then each repository and its commits.
pub open spec fn digest_lines(g: Seq<AuthorGroup>) -> Seq<(int, Seq<char>, Seq<char>)>
    decreases g.len(),
{
    if g.len() == 0 {
        Seq::empty()
    } else {
        digest_lines(g.drop_last()).push((0, shown_name(g.last(), g.last().email@), Seq::empty()))
            + repo_lines(g.last().repos@)
    }
}

/// Whether every commit of the groups has a short hash.
pub open spec fn hashes_cut(g: Seq<AuthorGroup>) -> bool {
    forall|a: int, r: int, c: int|
        0 <= a < g.len() && 0 <= r < g[a].repos@.len() && 0 <= c < g[a].repos@[r].commits@.len()
            ==> has_short_hash((#[trigger] g[a].repos@[r].commits@[c]).hash@)
}

/// Prints digests to the terminal.
pub struct TermOutput;

impl TermOutput {
    /// The lines of the terminal digest: authors in increasing order of
    /// e-mail, each author's repositories in increasing path order, as the
    /// groups always hold them.
    #[verifier::spinoff_prover]
    pub fn digest_lines(groups: &AuthorGroups) -> (out: Vec<DigestLine>)
        requires
            hashes_cut(groups.groups()),
        ensures
            line_views(out@) == digest_lines(groups.groups()),
            well_ordered(groups.groups()),
    {
        let authors = groups.authors();
        let mut out: Vec<DigestLine> = Vec::new();
        for i in 0..authors.len()
            invariant
                hashes_cut(authors@),
                line_views(out@) == digest_lines(authors@.take(i as int)),
        {
            let a = &authors[i];
            let ghost before_a = out@;
            let name = author_name_of(a, a.email.as_str());
            out.push(DigestLine::Author(name));
            let ghost after_head = out@;
            assert(line_views(out@) =~= line_views(before_a).push((0, shown_name(*a, a.email@), Seq::empty())));
            for r in 0..a.repos.len()
                invariant
                    hashes_cut(authors@),
                    i < authors@.len(),
                    a == authors@[i as int],
                    line_views(out@) == line_views(after_head) + repo_lines(a.repos@.take(r as int)),
            {
                let rc = &a.repos[r];
                let ghost before_r = out@;
                out.push(DigestLine::Repo(rc.repo.clone()));
                assert(line_views(out@) =~= line_views(before_r).push((1, rc.repo@, Seq::empty())));
                let ghost after_repo = out@;
                for c in 0..rc.commits.len()
                    invariant
                        hashes_cut(authors@),
                        i < authors@.len(),
                        r < a.repos@.len(),
                        a == authors@[i as int],
                        rc == a.repos@[r as int],
                        line_views(out@) == line_views(after_repo) + commit_lines(rc.commits@.take(c as int)),
                {
                    let cm = &rc.commits[c];
                    assert(has_short_hash(authors@[i as int].repos@[r as int].commits@[c as int].hash@));
                    let short = short_hash_of(cm.hash.as_str());
                    let ghost before_c = out@;
                    out.push(DigestLine::Commit { short, subject: cm.subject.clone() });
                    assert(line_views(out@) =~= line_views(before_c).push((2, short_hash(cm.hash@), cm.subject@)));
                    assert(rc.commits@.take(c + 1).drop_last() =~= rc.commits@.take(c as int));
                    assert(line_views(out@) =~= line_views(after_repo) + commit_lines(rc.commits@.take(c + 1)));
                }
                assert(rc.commits@.take(rc.commits@.len() as int) =~= rc.commits@);
                assert(a.repos@.take(r + 1).drop_last() =~= a.repos@.take(r as int));
                assert(line_views(out@) =~= line_views(after_head) + repo_lines(a.repos@.take(r + 1)));
            }
            assert(a.repos@.take(a.repos@.len() as int) =~= a.repos@);
            assert(authors@.take(i + 1).drop_last() =~= authors@.take(i as int));
            assert(line_views(out@) =~= digest_lines(authors@.take(i + 1)));
        }
        assert(authors@.take(authors@.len() as int) =~= authors@);
        out
    }
}

} // verus!

//! Reading `git log` output: the command's arguments, the record format of
//! each commit and the directories that a repository scan passes over.

use vstd::prelude::*;
use crate::text::{
    chars_of, string_of, split_n, splitn, split_lines, lines, char_views, string_views, str_eq,
    concat2,
};
use crate::time::{
    DateStamp, valid_stamp, chrono_datetime_parse, parse_datetime, local_mapping, LocalMapping,
    local_stamp, in_calendar, format_seconds, second_text, CALENDAR_MIN, CALENDAR_MAX,
    local_reading_of, stamp_seconds,
};

verus! {

/// One commit of one repository.
pub struct Commit {
    pub hash: String,
    pub email: String,
    pub author_name: String,
    pub subject: String,
    /// The author date, as local wall-clock time.
    pub date: DateStamp,
    pub repo: String,
}

/// The fields of a `git log` record: hash, author e-mail, author name and
/// subject, then the date text, separated by NUL characters; the date text
/// is the rest of the record.
pub open spec fn record_fields(line: Seq<char>) -> Seq<Seq<char>> {
    splitn(line, 5, '\0')
}

/// The fields of one `git log` record.
pub struct Record {
    pub hash: String,
    pub email: String,
    pub author_name: String,
    pub subject: String,
    /// The author date, as local wall-clock time.
    pub date: DateStamp,
}

/// Whether `r` holds the fields of record `line`.
pub open spec fn record_of(r: Record, line: Seq<char>) -> bool {
    let f = record_fields(line);
    &&& f.len() == 5
    &&& r.hash@ == f[0]
    &&& r.email@ == f[1]
    &&& r.author_name@ == f[2]
    &&& r.subject@ == f[3]
    &&& chrono_datetime_parse(f[4]) == Some(r.date)
}

/// Whether `line` holds a record: five fields and a date in the form
/// `%Y-%m-%dT%H:%M:%S`.
pub open spec fn is_record(line: Seq<char>) -> bool {
    record_fields(line).len() == 5 && chrono_datetime_parse(record_fields(line)[4]) is Some
}

/// Whether `c` is the commit that record `line` of repository `repo` holds.
pub open spec fn commit_of_record(c: Commit, line: Seq<char>, repo: Seq<char>) -> bool {
    let f = record_fields(line);
    &&& f.len() == 5
    &&& c.hash@ == f[0]
    &&& c.email@ == f[1]
    &&& c.author_name@ == f[2]
    &&& c.subject@ == f[3]
    &&& chrono_datetime_parse(f[4]) == Some(c.date)
    &&& c.repo@ == repo
}

/// Reads the fields of one `git log` record.
pub fn read_record(line: &str) -> (r: Option<Record>)
    ensures
        r is Some <==> is_record(line@),
        r matches Some(rec) ==> record_of(rec, line@) && valid_stamp(rec.date),
{
    let l = chars_of(line);
    let parts = split_n(&l, 5, '\0');
    proof {
        lemma_splitn_len(line@, 5, '\0');
    }
    if parts.len() < 5 {
        return None;
    }
    proof {
        assert(parts@[4]@ == char_views(parts@)[4]);
    }
    let date_text = string_of(parts[4].as_slice());
    let date = match parse_datetime(date_text.as_str()) {
        Some(d) => d,
        None => return None,
    };
    proof {
        assert(parts@[0]@ == char_views(parts@)[0]);
        assert(parts@[1]@ == char_views(parts@)[1]);
        assert(parts@[2]@ == char_views(parts@)[2]);
        assert(parts@[3]@ == char_views(parts@)[3]);
    }
    Some(Record {
        hash: string_of(parts[0].as_slice()),
        email: string_of(parts[1].as_slice()),
        author_name: string_of(parts[2].as_slice()),
        subject: string_of(parts[3].as_slice()),
        date,
    })
}

/// The commit of a record of repository `repo`, given how the local time
/// zone maps the record's date: there is none where the local clock never
/// shows that time.
pub fn commit_from_record(rec: Record, repo: &str, local: &LocalMapping) -> (r: Option<Commit>)
    ensures
        r is None <==> *local is Missing,
        r matches Some(c) ==> c.hash == rec.hash && c.email == rec.email && c.author_name == rec.author_name
            && c.subject == rec.subject && c.date == rec.date && c.repo@ == repo@,
{
    match local {
        LocalMapping::Missing => None,
        _ => Some(Commit {
            hash: rec.hash,
            email: rec.email,
            author_name: rec.author_name,
            subject: rec.subject,
            date: rec.date,
            repo: String::from_str(repo),
        }),
    }
}

/// Reads one `git log` record. There is no commit where the record has
/// fewer than five fields, where the date is not `%Y-%m-%dT%H:%M:%S`, or
/// where the local clock never shows that time.
pub fn parse_commit_line(line: &str, repo: &str) -> (r: Option<Commit>)
    ensures
        !is_record(line@) ==> r is None,
        r matches Some(c) ==> commit_of_record(c, line@, repo@) && valid_stamp(c.date),
{
    match read_record(line) {
        None => None,
        Some(rec) => {
            let local = local_mapping(&rec.date);
            commit_from_record(rec, repo, &local)
        },
    }
}

/// Law: a record written from fields without NUL characters reads back as
/// those fields (a subject may hold any other character, `|` included).
pub proof fn law_record_fields(h: Seq<char>, e: Seq<char>, n: Seq<char>, s: Seq<char>, d: Seq<char>)
    requires
        forall|k: int| 0 <= k < h.len() ==> h[k] != '\0',
        forall|k: int| 0 <= k < e.len() ==> e[k] != '\0',
        forall|k: int| 0 <= k < n.len() ==> n[k] != '\0',
        forall|k: int| 0 <= k < s.len() ==> s[k] != '\0',
    ensures
        record_fields(h + seq!['\0'] + e + seq!['\0'] + n + seq!['\0'] + s + seq!['\0'] + d)
            == seq![h, e, n, s, d],
{
    let t4 = s + seq!['\0'] + d;
    let t3 = n + seq!['\0'] + t4;
    let t2 = e + seq!['\0'] + t3;
    let t1 = h + seq!['\0'] + t2;
    assert(h + seq!['\0'] + e + seq!['\0'] + n + seq!['\0'] + s + seq!['\0'] + d =~= t1);
    lemma_split_piece(h, t2);
    lemma_split_piece(e, t3);
    lemma_split_piece(n, t4);
    lemma_split_piece(s, d);
    assert(splitn(d, 1, '\0') == seq![d]);
    assert(splitn(t4, 2, '\0') =~= seq![s, d]);
    assert(splitn(t3, 3, '\0') =~= seq![n, s, d]);
    assert(splitn(t2, 4, '\0') =~= seq![e, n, s, d]);
    assert(splitn(t1, 5, '\0') =~= seq![h, e, n, s, d]);
}

/// The first NUL of `a + NUL + b` follows `a` when `a` holds none.
proof fn lemma_split_piece(a: Seq<char>, b: Seq<char>)
    requires
        forall|k: int| 0 <= k < a.len() ==> a[k] != '\0',
    ensures
        crate::text::find_char(a + seq!['\0'] + b, '\0') == a.len(),
        (a + seq!['\0'] + b).take(a.len() as int) == a,
        (a + seq!['\0'] + b).skip(a.len() as int + 1) == b,
{
    let t = a + seq!['\0'] + b;
    crate::text::lemma_find_char_at(t, '\0', a.len() as int);
    assert(t.take(a.len() as int) =~= a);
    assert(t.skip(a.len() as int + 1) =~= b);
}

/// `splitn` gives at most `n` pieces.
pub proof fn lemma_splitn_len(s: Seq<char>, n: nat, c: char)
    ensures
        splitn(s, n, c).len() <= n,
    decreases n,
{
    if n > 1 {
        let i = crate::text::find_char(s, c);
        if i >= 0 {
            crate::text::lemma_find_char(s, c);
            lemma_splitn_len(s.skip(i + 1), (n - 1) as nat, c);
        }
    }
}

/// A commit as plain values: hash, e-mail, author name, subject, date and
/// repository.
pub open spec fn commit_view(c: Commit) -> (Seq<char>, Seq<char>, Seq<char>, Seq<char>, DateStamp, Seq<char>) {
    (c.hash@, c.email@, c.author_name@, c.subject@, c.date, c.repo@)
}

/// The commit that record `line` of repository `repo` holds, as plain values.
pub open spec fn record_view(line: Seq<char>, repo: Seq<char>) -> (Seq<char>, Seq<char>, Seq<char>, Seq<char>, DateStamp, Seq<char>) {
    let f = record_fields(line);
    (f[0], f[1], f[2], f[3], chrono_datetime_parse(f[4])->Some_0, repo)
}

/// Whether line `line`, whose date the local time zone maps as `m`, gives a
/// commit: it holds a record, and the local clock shows its date.
pub open spec fn keeps_line(line: Seq<char>, m: LocalMapping) -> bool {
    is_record(line) && !(m is Missing)
}

/// The commits of the first `k` lines of `ls`, in order, where `maps[i]` is
/// how the time zone maps the date of line `i`.
pub open spec fn commits_upto(ls: Seq<Seq<char>>, repo: Seq<char>, maps: Seq<LocalMapping>, k: int) -> Seq<
    (Seq<char>, Seq<char>, Seq<char>, Seq<char>, DateStamp, Seq<char>),
>
    decreases k,
{
    if k <= 0 {
        Seq::empty()
    } else {
        let rest = commits_upto(ls, repo, maps, k - 1);
        if keeps_line(ls[k - 1], maps[k - 1]) {
            rest.push(record_view(ls[k - 1], repo))
        } else {
            rest
        }
    }
}

/// The commits of the lines `ls` of `git log` output for repository `repo`:
/// in order, one for each line that holds a record whose date the local
/// clock shows (`maps`, one per line).
pub open spec fn spec_commits(ls: Seq<Seq<char>>, repo: Seq<char>, maps: Seq<LocalMapping>) -> Seq<
    (Seq<char>, Seq<char>, Seq<char>, Seq<char>, DateStamp, Seq<char>),
> {
    commits_upto(ls, repo, maps, ls.len() as int)
}

/// The commits of `git log` output for repository `repo`, given how the
/// local time zone maps the date of each line (`maps`, one per line; what
/// it holds for a line without a record does not matter).
pub fn commits_of_lines(stdout: &str, repo: &str, maps: &Vec<LocalMapping>) -> (r: Vec<Commit>)
    requires
        maps@.len() == lines(stdout@).len(),
    ensures
        r@.map_values(|c: Commit| commit_view(c)) == spec_commits(lines(stdout@), repo@, maps@),
        forall|i: int| 0 <= i < r@.len() ==> valid_stamp(#[trigger] r@[i].date),
{
    let text = chars_of(stdout);
    let ls = split_lines(&text);
    let ghost L = lines(stdout@);
    let mut out: Vec<Commit> = Vec::new();
    for k in 0..ls.len()
        invariant
            char_views(ls@) == L,
            L == lines(stdout@),
            maps@.len() == L.len(),
            out@.map_values(|c: Commit| commit_view(c)) == commits_upto(L, repo@, maps@, k as int),
            forall|i: int| 0 <= i < out@.len() ==> valid_stamp(#[trigger] out@[i].date),
    {
        proof {
            assert(ls@[k as int]@ == char_views(ls@)[k as int]);
        }
        let ghost before = out@;
        if ls[k].len() > 0 {
            let line = string_of(ls[k].as_slice());
            match read_record(line.as_str()) {
                Some(rec) => {
                    match commit_from_record(rec, repo, &maps[k]) {
                        Some(c) => {
                            out.push(c);
                            proof {
                                assert(out@.map_values(|c: Commit| commit_view(c)) =~= before.map_values(
                                    |c: Commit| commit_view(c),
                                ).push(record_view(L[k as int], repo@)));
                            }
                        },
                        None => {},
                    }
                },
                None => {},
            }
        } else {
            proof {
                assert(record_fields(L[k as int]) == seq![L[k as int]]);
            }
        }
    }
    proof {
        assert(ls@.len() == L.len());
    }
    out
}

/// Reads the output of `git log` for repository `repo`, line by line: in
/// order, a commit for each line that holds a record whose date the local
/// clock shows; a blank line or a line that is no record gives none.
pub fn parse_log(stdout: &str, repo: &str) -> (r: Vec<Commit>)
    ensures
        exists|maps: Seq<LocalMapping>|
            maps.len() == lines(stdout@).len() && r@.map_values(|c: Commit| commit_view(c))
                == spec_commits(lines(stdout@), repo@, maps),
        forall|i: int| 0 <= i < r@.len() ==> valid_stamp(#[trigger] r@[i].date),
{
    let text = chars_of(stdout);
    let ls = split_lines(&text);
    let mut maps: Vec<LocalMapping> = Vec::new();
    for k in 0..ls.len()
        invariant
            maps@.len() == k,
    {
        let line = string_of(ls[k].as_slice());
        let m = match read_record(line.as_str()) {
            Some(rec) => local_mapping(&rec.date),
            None => LocalMapping::Missing,
        };
        maps.push(m);
    }
    proof {
        assert(ls@.len() == char_views(ls@).len());
    }
    commits_of_lines(stdout, repo, &maps)
}

/// The instants that bound the `git log` call for a period: a second
/// before it and a second after it, as `--after` and `--before` exclude
/// their bounds. There are none where one lies outside the calendar.
pub fn log_bounds(since: i64, until: i64) -> (r: Option<(i64, i64)>)
    ensures
        r == (if in_calendar(since - 1) && in_calendar(until + 1) {
            Some(((since - 1) as i64, (until + 1) as i64))
        } else {
            None
        }),
{
    if since < CALENDAR_MIN + 1 || since > CALENDAR_MAX + 1 || until < CALENDAR_MIN - 1
        || until > CALENDAR_MAX - 1 {
        None
    } else {
        Some((since - 1, until + 1))
    }
}

/// The arguments of `git log` for repository `repo` with the bounds
/// `after` and `before` (local times, `%Y-%m-%dT%H:%M:%S`).
pub open spec fn log_arg_views(repo: Seq<char>, after: Seq<char>, before: Seq<char>) -> Seq<Seq<char>> {
    seq![
        "-C"@, repo, "log"@, "--format=%H%x00%ae%x00%an%x00%s%x00%ad"@,
        "--date=format:%Y-%m-%dT%H:%M:%S"@, "--after="@ + after, "--before="@ + before
    ]
}

/// The arguments of `git log` for a repository and the texts of its bounds.
pub fn log_args(repo: &str, after: &str, before: &str) -> (r: Vec<String>)
    ensures
        string_views(r@) == log_arg_views(repo@, after@, before@),
{
    let mut a: Vec<String> = Vec::new();
    a.push(String::from_str("-C"));
    a.push(String::from_str(repo));
    a.push(String::from_str("log"));
    a.push(String::from_str("--format=%H%x00%ae%x00%an%x00%s%x00%ad"));
    a.push(String::from_str("--date=format:%Y-%m-%dT%H:%M:%S"));
    a.push(concat2("--after=", after));
    a.push(concat2("--before=", before));
    assert(string_views(a@) =~= log_arg_views(repo@, after@, before@));
    a
}

/// The arguments of the `git log` call for a repository and a period: the
/// bounds of `log_bounds`, as local wall-clock times (`local_stamp`), in
/// the arguments of `log_args`. There are none where a bound lies outside
/// the calendar.
pub fn git_log_args(repo: &str, since: i64, until: i64) -> (r: Option<Vec<String>>)
    ensures
        r is None <==> !(in_calendar(since - 1) && in_calendar(until + 1)),
        r matches Some(a) ==> exists|s: DateStamp, u: DateStamp|
            string_views(a@) == log_arg_views(repo@, second_text(s), second_text(u))
                && local_reading_of(s, since - 1) && local_reading_of(u, until + 1),
{
    match log_bounds(since, until) {
        None => None,
        Some((after_ts, before_ts)) => {
            let s = local_stamp(after_ts);
            let u = local_stamp(before_ts);
            let after = format_seconds(&s);
            let before = format_seconds(&u);
            Some(log_args(repo, after.as_str(), before.as_str()))
        },
    }
}

/// Law: the bounds of the `git log` call keep the order of the period. The
/// `--after` stamp reads the instant a second before the period and the
/// `--before` stamp the one a second after it, so when the period spans two
/// days or more the `--after` stamp is the earlier one, whatever the zone.
pub proof fn law_log_bounds_in_order(since: int, until: int, s: DateStamp, u: DateStamp)
    requires
        local_reading_of(s, since - 1),
        local_reading_of(u, until + 1),
        since + 172_798 <= until,
    ensures
        stamp_seconds(s) < stamp_seconds(u),
{
}

/// The directories that a repository scan does not enter.
pub open spec fn scan_skipped(name: Seq<char>) -> bool {
    name == ".git"@ || name == "node_modules"@ || name == "target"@ || name == ".cargo"@
}

/// Whether a repository scan passes over a directory of this name.
pub fn is_scan_skipped(name: &str) -> (r: bool)
    ensures
        r == scan_skipped(name@),
{
    str_eq(name, ".git") || str_eq(name, "node_modules") || str_eq(name, "target") || str_eq(name, ".cargo")
}

} // verus!

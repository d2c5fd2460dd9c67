use ttk::git::{
    commits_of_lines, git_log_args, is_scan_skipped, log_args, log_bounds, parse_commit_line, parse_log,
    read_record,
};
use ttk::time::{format_seconds, LocalMapping};

#[test]
fn test_parse_commit_line_valid() {
    let line = "abc1234\x00user@example.com\x00User Name\x00feat: add thing\x002026-05-28T10:30:00";
    let repo = "/tmp/repo";
    let commit = parse_commit_line(line, repo).unwrap();

    assert_eq!(commit.hash, "abc1234");
    assert_eq!(commit.email, "user@example.com");
    assert_eq!(commit.author_name, "User Name");
    assert_eq!(commit.subject, "feat: add thing");
    assert_eq!(format_seconds(&commit.date), "2026-05-28T10:30:00");
}

#[test]
fn test_parse_commit_line_subject_with_pipe() {
    let line = "abc1234\x00user@example.com\x00User Name\x00fix: a|b edge case\x002026-05-28T10:30:00";
    let repo = "/tmp/repo";
    let commit = parse_commit_line(line, repo).unwrap();

    assert_eq!(commit.subject, "fix: a|b edge case");
}

#[test]
fn test_parse_commit_line_invalid() {
    let line = "bad\x00line";
    let repo = "/tmp/repo";
    assert!(parse_commit_line(line, repo).is_none());
}

#[test]
fn record_date_must_parse() {
    assert!(read_record("a\x00b\x00c\x00d\x002026-13-01T00:00:00").is_none());
    assert!(read_record("a\x00b\x00c\x00d\x00yesterday").is_none());
    let r = read_record("a\x00b\x00c\x00d\x002024-02-29T23:59:59").unwrap();
    assert_eq!((r.date.year, r.date.month, r.date.day), (2024, 2, 29));
    assert_eq!((r.date.hour, r.date.minute, r.date.second), (23, 59, 59));
}

#[test]
fn record_repository_is_kept() {
    let c = parse_commit_line("h\x00e\x00n\x00s\x002026-05-28T10:30:00", "/work/repo").unwrap();
    assert_eq!(c.repo, "/work/repo");
}

#[test]
fn log_output_skips_blank_and_broken_lines() {
    let out = "h1\x00a@x\x00A\x00one\x002026-05-01T08:00:00\n\nbroken\r\nh2\x00b@x\x00B\x00two\x002026-05-02T09:15:00\r\n";
    let cs = parse_log(out, "/r");
    assert_eq!(cs.len(), 2);
    assert_eq!(cs[0].subject, "one");
    assert_eq!(cs[1].hash, "h2");
    assert_eq!(cs[1].subject, "two");
}

#[test]
fn log_arguments() {
    let a = git_log_args("/r", 1_000_000, 2_000_000).unwrap();
    assert_eq!(a.len(), 7);
    assert_eq!(a[0], "-C");
    assert_eq!(a[1], "/r");
    assert_eq!(a[2], "log");
    assert_eq!(a[3], "--format=%H%x00%ae%x00%an%x00%s%x00%ad");
    assert_eq!(a[4], "--date=format:%Y-%m-%dT%H:%M:%S");
    assert!(a[5].starts_with("--after=1970-01-"));
    assert!(a[6].starts_with("--before=1970-01-"));
    assert_eq!(a[5].len(), "--after=".len() + 19);
    assert!(git_log_args("/r", i64::MIN, 0).is_none());
}

#[test]
fn scan_skips_build_and_vcs_dirs() {
    assert!(is_scan_skipped("node_modules"));
    assert!(is_scan_skipped(".git"));
    assert!(is_scan_skipped("target"));
    assert!(is_scan_skipped(".cargo"));
    assert!(!is_scan_skipped("my-repo"));
    assert!(!is_scan_skipped("Target"));
}

#[test]
fn log_bounds_widen_the_period_by_a_second() {
    assert_eq!(log_bounds(1_000_000, 2_000_000), Some((999_999, 2_000_001)));
    assert_eq!(log_bounds(0, 0), Some((-1, 1)));
    assert_eq!(log_bounds(i64::MIN, 0), None);
    assert_eq!(log_bounds(0, i64::MAX), None);
}

#[test]
fn log_arguments_from_bound_texts() {
    let a = log_args("/r", "2026-05-01T00:00:00", "2026-05-02T00:00:00");
    let expected = vec![
        "-C",
        "/r",
        "log",
        "--format=%H%x00%ae%x00%an%x00%s%x00%ad",
        "--date=format:%Y-%m-%dT%H:%M:%S",
        "--after=2026-05-01T00:00:00",
        "--before=2026-05-02T00:00:00",
    ];
    assert_eq!(a, expected);
}

#[test]
fn log_lines_with_given_time_zone_mappings() {
    let out = "h1\x00a@x\x00A\x00one\x002026-05-01T08:00:00\n\nh2\x00b@x\x00B\x00two\x002026-03-29T02:30:00\nh3\x00c@x\x00C\x00three\x002026-05-03T10:00:00\n";
    let maps = vec![
        LocalMapping::Single(10),
        LocalMapping::Missing,
        LocalMapping::Missing,
        LocalMapping::Ambiguous(1, 2),
    ];
    let cs = commits_of_lines(out, "/r", &maps);
    assert_eq!(cs.len(), 2);
    assert_eq!(cs[0].hash, "h1");
    assert_eq!(cs[0].email, "a@x");
    assert_eq!(cs[0].author_name, "A");
    assert_eq!(cs[0].subject, "one");
    assert_eq!(cs[0].repo, "/r");
    assert_eq!(cs[1].hash, "h3");
    assert_eq!(format_seconds(&cs[1].date), "2026-05-03T10:00:00");
}

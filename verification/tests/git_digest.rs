use ttk::digest::{group_commits, summarize, AuthorGroups};
use ttk::path_order::{path_le_of, path_parts_of, sorted_unique_paths};
use ttk::git::Commit;
use ttk::git_digest::{
    active_repo_count, check_dir, check_period, choose_period, report_file_name, report_path, shows_progress,
    stop_message, GitDigestArgs, PeriodSource, RunStage,
};
use ttk::prompt::Prompt;
use ttk::report::{short_hash_of, DigestLine, MarkdownWriter, TermOutput};
use ttk::time::DateStamp;

fn stamp(year: i32, month: u32, day: u32, hour: u32, minute: u32, second: u32) -> DateStamp {
    DateStamp { year, month, day, hour, minute, second }
}

fn commit(hash: &str, email: &str, name: &str, subject: &str, repo: &str, day: u32) -> Commit {
    Commit {
        hash: hash.to_string(),
        email: email.to_string(),
        author_name: name.to_string(),
        subject: subject.to_string(),
        date: stamp(2026, 5, day, 10, 30, 0),
        repo: repo.to_string(),
    }
}

fn make_groups() -> AuthorGroups {
    let cs = vec![commit("abc1234def", "user@test.com", "Test User", "feat: add thing", "/tmp/my-repo", 28)];
    group_commits(&cs, &vec!["user@test.com".to_string()])
}

#[test]
fn test_markdown_write_creates_file() {
    let groups = make_groups();
    let today = stamp(2026, 5, 28, 12, 0, 0);
    let since = stamp(2026, 5, 27, 0, 0, 0);
    let until = stamp(2026, 5, 28, 23, 59, 59);
    let content = MarkdownWriter::render(&groups, &today, &since, &until, 3, 1);
    assert!(content.contains("# Git Digest"));
    assert!(content.contains("Test User"));
    assert!(content.contains("abc1234"));
    assert!(content.contains("feat: add thing"));
}

#[test]
fn test_markdown_output_sorted_by_author() {
    let mut cs = Vec::new();
    for (email, name) in [("z@z.com", "Z Author"), ("a@a.com", "A Author")] {
        cs.push(commit("aaa1111", email, name, "test", &format!("/tmp/{}", name), 28));
    }
    let groups = group_commits(&cs, &vec!["z@z.com".to_string(), "a@a.com".to_string()]);
    let since = stamp(2026, 5, 27, 0, 0, 0);
    let until = stamp(2026, 5, 28, 23, 59, 59);
    let content = MarkdownWriter::render(&groups, &until, &since, &until, 2, 2);
    let a_pos = content.find("A Author").unwrap();
    let z_pos = content.find("Z Author").unwrap();
    assert!(a_pos < z_pos, "A Author should appear before Z Author");
}

#[test]
fn markdown_exact_text() {
    let groups = make_groups();
    let today = stamp(2026, 5, 28, 12, 0, 0);
    let since = stamp(2026, 5, 27, 0, 0, 0);
    let until = stamp(2026, 5, 28, 23, 59, 59);
    let content = MarkdownWriter::render(&groups, &today, &since, &until, 3, 1);
    let expected = "# Git Digest \u{2014} 2026-05-28\n\n**Period:** 2026-05-27 \u{2192} 2026-05-28\n**Repos scanned:** 3 | **With activity:** 1\n\n---\n\n## Test User\n\n### `/tmp/my-repo`\n| hash | message | date |\n|------|---------|------|\n| `abc1234` | feat: add thing | 2026-05-28 10:30 |\n";
    assert_eq!(content, expected);
}

#[test]
fn grouping_by_author_then_repository() {
    let cs = vec![
        commit("1", "b@x", "Bee", "b1", "/r2", 1),
        commit("2", "a@x", "Ay", "a1", "/r2", 2),
        commit("3", "b@x", "Bee", "b2", "/r1", 3),
        commit("4", "c@x", "Cee", "c1", "/r1", 4),
        commit("5", "b@x", "Bee", "b3", "/r2", 5),
    ];
    let g = group_commits(&cs, &vec!["b@x".to_string(), "a@x".to_string()]);
    assert_eq!(g.authors().len(), 2);
    assert_eq!(g.authors()[0].email, "a@x");
    assert_eq!(g.authors()[1].email, "b@x");
    let b = &g.authors()[1];
    assert_eq!(b.repos.len(), 2);
    assert_eq!(b.repos[0].repo, "/r1");
    assert_eq!(b.repos[1].repo, "/r2");
    let subjects: Vec<&str> = b.repos[1].commits.iter().map(|c| c.subject.as_str()).collect();
    assert_eq!(subjects, vec!["b1", "b3"]);
    assert_eq!(active_repo_count(&g), 2);
    let none = group_commits(&cs, &vec!["nobody".to_string()]);
    assert_eq!(none.authors().len(), 0);
    assert_eq!(active_repo_count(&none), 0);
}

#[test]
fn author_summaries() {
    let cs = vec![
        commit("1", "z@x", "Zed", "z1", "/r1", 1),
        commit("2", "a@x", "Amy", "a1", "/r1", 2),
        commit("3", "z@x", "Zed Z", "z2", "/r2", 3),
        commit("4", "z@x", "Zed", "z3", "/r1", 4),
    ];
    let ss = summarize(&cs);
    assert_eq!(ss.len(), 2);
    assert_eq!(ss[0].email, "a@x");
    assert_eq!((ss[0].commit_count, ss[0].repo_count), (1, 1));
    assert_eq!(ss[1].name, "Zed");
    assert_eq!((ss[1].commit_count, ss[1].repo_count), (3, 2));
    let total: usize = ss.iter().map(|s| s.commit_count).sum();
    assert_eq!(total, cs.len());

    let labels = Prompt::author_options(&ss);
    assert_eq!(labels[0], "[0] Amy (1 commits, 1 repos)");
    assert_eq!(labels[1], "[1] Zed (3 commits, 2 repos)");
    let chosen = vec![labels[1].clone()];
    assert_eq!(Prompt::selected_emails(&ss, &labels, &chosen), vec!["z@x".to_string()]);
}

#[test]
fn terminal_lines() {
    let g = make_groups();
    let lines = TermOutput::digest_lines(&g);
    assert_eq!(lines.len(), 3);
    match &lines[0] {
        DigestLine::Author(n) => assert_eq!(n, "Test User"),
        _ => panic!("author first"),
    }
    match &lines[1] {
        DigestLine::Repo(r) => assert_eq!(r, "/tmp/my-repo"),
        _ => panic!("repository second"),
    }
    match &lines[2] {
        DigestLine::Commit { short, subject } => {
            assert_eq!(short, "abc1234");
            assert_eq!(subject, "feat: add thing");
        }
        _ => panic!("commit third"),
    }
}

#[test]
fn short_hashes_are_seven_bytes() {
    assert_eq!(short_hash_of("0123456789abcdef"), "0123456");
    assert_eq!(short_hash_of("abc"), "abc");
    assert_eq!(short_hash_of(""), "");
    assert_eq!(short_hash_of("\u{e9}\u{e9}\u{e9}a"), "\u{e9}\u{e9}\u{e9}a");
}

fn digest_args(last: Option<&str>, since: Option<i64>, until: Option<i64>) -> GitDigestArgs {
    GitDigestArgs { dir: "/p".to_string(), since, until, last: last.map(|s| s.to_string()), output: None }
}

#[test]
fn period_sources() {
    let now = 10_000_000;
    match choose_period(&digest_args(Some("7d"), Some(1), None), now, false) {
        Ok(PeriodSource::Given(s, u)) => assert_eq!((s, u), (now - 604_800, now)),
        _ => panic!("relative period expected"),
    }
    match choose_period(&digest_args(None, None, Some(5)), now, false) {
        Ok(PeriodSource::Given(s, u)) => assert_eq!((s, u), (now - 2_592_000, 5)),
        _ => panic!("explicit period expected"),
    }
    match choose_period(&digest_args(None, None, None), now, true) {
        Ok(PeriodSource::Ask) => {}
        _ => panic!("wizard expected"),
    }
    match choose_period(&digest_args(None, None, None), now, false) {
        Err(e) => assert!(e.starts_with("no TTY detected")),
        _ => panic!("error expected"),
    }
    match choose_period(&digest_args(Some("1y"), None, None), now, true) {
        Err(e) => assert_eq!(e, "invalid duration '1y', use 24h|7d|30d"),
        _ => panic!("error expected"),
    }
    assert_eq!(check_period(5, 4).unwrap_err(), "--since must be before --until");
    assert!(check_period(4, 4).is_ok());
    assert_eq!(check_dir("/nope", false).unwrap_err(), "directory not found: /nope");
}

#[test]
fn wizard_periods() {
    let now = 5_000_000;
    assert_eq!(Prompt::period_options(), vec!["Last 24 hours", "Last 7 days", "Last 30 days", "Custom range"]);
    assert_eq!(Prompt::option_period("Last 24 hours", now), Some((now - 86_400, now)));
    assert_eq!(Prompt::option_period("Last 30 days", now), Some((now - 2_592_000, now)));
    assert_eq!(Prompt::option_period("Custom range", now), None);
}

#[test]
fn report_location() {
    let today = stamp(2026, 5, 28, 9, 0, 0);
    assert_eq!(report_file_name(&today), "git-digest-2026-05-28.md");
    assert_eq!(report_path(&digest_args(None, None, None), &today), "/p/git-digest-2026-05-28.md");
    let mut args = digest_args(None, None, None);
    args.output = Some("out/".to_string());
    assert_eq!(report_path(&args, &today), "out/git-digest-2026-05-28.md");
}

#[test]
fn repositories_in_path_order() {
    let cs = vec![
        commit("1", "a@x", "Ay", "one", "/t/a-b", 1),
        commit("2", "a@x", "Ay", "two", "/t/a/b", 2),
        commit("3", "a@x", "Ay", "three", "/t/a", 3),
    ];
    let g = group_commits(&cs, &vec!["a@x".to_string()]);
    let repos: Vec<&str> = g.authors()[0].repos.iter().map(|r| r.repo.as_str()).collect();
    assert_eq!(repos, vec!["/t/a", "/t/a/b", "/t/a-b"]);
}

#[test]
fn path_order_by_components() {
    assert!(path_le_of("/t/a/b", "/t/a-b"));
    assert!(!path_le_of("/t/a-b", "/t/a/b"));
    assert!(path_le_of("/t/a", "/t/a/b"));
    assert!(path_le_of("/z", "a"));
    assert!(path_le_of("./a", "../a"));
    assert!(path_le_of("../a", "a"));
    assert!(path_le_of("a/./b", "a/c"));
    assert!(path_le_of("a//b", "a/b"));
    assert!(!path_le_of("a/b", "a//b"));
    let parts: Vec<String> = path_parts_of(&"/t/./a//b/".chars().collect())
        .iter()
        .map(|p| p.iter().collect())
        .collect();
    assert_eq!(parts, vec!["/", "t", "a", "b"]);
    let rel: Vec<String> = path_parts_of(&"./x/../y".chars().collect())
        .iter()
        .map(|p| p.iter().collect())
        .collect();
    assert_eq!(rel, vec![".", "x", "..", "y"]);
    let sorted = sorted_unique_paths(&vec!["/t/a-b".to_string(), "/t/a/b".to_string(), "/t/a-b".to_string()]);
    assert_eq!(sorted, vec!["/t/a/b".to_string(), "/t/a-b".to_string()]);
}

#[test]
fn early_stops_of_a_run() {
    assert_eq!(stop_message("/w", RunStage::Scanned(0)), Some("No git repositories found in /w".to_string()));
    assert_eq!(stop_message("/w", RunStage::Scanned(3)), None);
    assert_eq!(stop_message("/w", RunStage::Collected(0)), Some("No commits found in the selected period.".to_string()));
    assert_eq!(stop_message("/w", RunStage::Collected(1)), None);
    assert_eq!(stop_message("/w", RunStage::Grouped(0)), Some("No commits found for selected authors.".to_string()));
    assert_eq!(stop_message("/w", RunStage::Grouped(2)), None);
    assert!(!shows_progress(100));
    assert!(shows_progress(101));
}

#[test]
fn groups_only_for_authors_with_commits() {
    let cs = vec![commit("1", "a@x", "Ay", "one", "/r", 1)];
    let g = group_commits(&cs, &vec!["ghost@x".to_string(), "a@x".to_string()]);
    assert_eq!(g.authors().len(), 1);
    assert_eq!(g.authors()[0].email, "a@x");
    assert_eq!(g.authors()[0].repos.len(), 1);
    assert_eq!(g.authors()[0].repos[0].commits.len(), 1);
}

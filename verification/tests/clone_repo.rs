use ttk::clone_repo::{dir_name_of_url, run, CloneArgs, CloneStep};

fn views(steps: &[CloneStep]) -> Vec<(bool, Vec<String>)> {
    steps
        .iter()
        .map(|s| match s {
            CloneStep::Git(a) => (true, a.clone()),
            CloneStep::RemoveDir(d) => (false, vec![d.clone()]),
        })
        .collect()
}

fn strs(v: &[&str]) -> Vec<String> {
    v.iter().map(|s| s.to_string()).collect()
}

#[test]
fn directory_named_by_the_url() {
    assert_eq!(dir_name_of_url("https://github.com/user/repo.git"), "repo");
    assert_eq!(dir_name_of_url("https://github.com/user/repo"), "repo");
    assert_eq!(dir_name_of_url("https://github.com/user/repo/"), "repo");
    assert_eq!(dir_name_of_url("git@github.com:repo.git"), "repo");
    assert_eq!(dir_name_of_url("git@github.com:user/tool.git"), "tool");
    assert_eq!(dir_name_of_url(".git"), "");
}

#[test]
fn clone_with_reset() {
    let steps = run(CloneArgs {
        url: "https://github.com/user/repo.git".to_string(),
        output: None,
        reset_history: true,
    })
    .unwrap();
    assert_eq!(
        views(&steps),
        vec![
            (true, strs(&["clone", "https://github.com/user/repo.git", "repo"])),
            (false, strs(&["repo/.git"])),
            (true, strs(&["-C", "repo", "init"])),
            (true, strs(&["-C", "repo", "add", "-A"])),
            (true, strs(&["-C", "repo", "commit", "-m", "Initial commit"])),
        ]
    );
}

#[test]
fn clone_keeping_history_into_output() {
    let steps = run(CloneArgs {
        url: "https://github.com/user/repo.git".to_string(),
        output: Some("my-project".to_string()),
        reset_history: false,
    })
    .unwrap();
    assert_eq!(views(&steps), vec![(true, strs(&["clone", "https://github.com/user/repo.git", "my-project"]))]);
}

#[test]
fn clone_without_a_directory() {
    let r = run(CloneArgs { url: "/".to_string(), output: None, reset_history: true });
    assert_eq!(r.err(), Some("cannot tell the directory to clone '/' into, use -o".to_string()));
}

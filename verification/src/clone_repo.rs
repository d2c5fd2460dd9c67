//! Cloning a repository, optionally with a fresh history: the clone goes
//! into the given directory or the one the URL names, and a reset replaces
//! the history with a single initial commit of the cloned files.

use vstd::prelude::*;
use crate::text::{chars_of, rfind, rfind_char, slice_chars, string_of, string_views, concat3};
use crate::paths::{last_component, last_component_chars, join_path, join_path_chars};

verus! {

/// The arguments of a clone.
pub struct CloneArgs {
    pub url: String,
    pub output: Option<String>,
    pub reset_history: bool,
}

/// The directory a URL names: its last component, after any `host:`
/// part, without a `.git` suffix.
pub open spec fn url_dir_name(url: Seq<char>) -> Seq<char> {
    let c = last_component(url);
    let n = c.skip(rfind_char(c, ':') + 1);
    if n.len() >= 4 && n.skip(n.len() - 4) == ".git"@ {
        n.take(n.len() - 4)
    } else {
        n
    }
}

/// The directory a clone goes into.
pub open spec fn clone_target(a: CloneArgs) -> Seq<char> {
    match a.output {
        Some(o) => o@,
        None => url_dir_name(a.url@),
    }
}

/// One step of a clone.
pub enum CloneStep {
    /// Run git with these arguments.
    Git(Vec<String>),
    /// Remove this directory and everything under it.
    RemoveDir(String),
}

/// A step as plain values: whether it runs git, and its arguments (the
/// directory, for a removal).
pub open spec fn step_view(s: CloneStep) -> (bool, Seq<Seq<char>>) {
    match s {
        CloneStep::Git(a) => (true, string_views(a@)),
        CloneStep::RemoveDir(d) => (false, seq![d@]),
    }
}

/// The steps of a clone of `url` into `dir`: `git clone`, then, for a
/// reset, removing the history and committing the files anew.
pub open spec fn clone_steps(url: Seq<char>, dir: Seq<char>, reset: bool) -> Seq<(bool, Seq<Seq<char>>)> {
    let clone = seq![(true, seq!["clone"@, url, dir])];
    if reset {
        clone + seq![
            (false, seq![join_path(dir, ".git"@)]),
            (true, seq!["-C"@, dir, "init"@]),
            (true, seq!["-C"@, dir, "add"@, "-A"@]),
            (true, seq!["-C"@, dir, "commit"@, "-m"@, "Initial commit"@])
        ]
    } else {
        clone
    }
}

pub open spec fn no_dir_message(url: Seq<char>) -> Seq<char> {
    "cannot tell the directory to clone '"@ + url + "' into, use -o"@
}

/// The directory a URL names.
pub fn dir_name_of_url(url: &str) -> (r: String)
    ensures
        r@ == url_dir_name(url@),
{
    let u = chars_of(url);
    let c = last_component_chars(&u);
    let start = match rfind(&c, ':') {
        Some(i) => i + 1,
        None => 0,
    };
    let n = slice_chars(&c, start, c.len());
    proof {
        reveal_strlit(".git");
        assert(n@ =~= c@.skip(rfind_char(c@, ':') + 1));
    }
    let k = n.len();
    if k >= 4 && n[k - 4] == '.' && n[k - 3] == 'g' && n[k - 2] == 'i' && n[k - 1] == 't' {
        assert(n@.skip(k - 4) =~= ".git"@);
        let m = slice_chars(&n, 0, k - 4);
        assert(m@ =~= n@.take(k - 4));
        string_of(m.as_slice())
    } else {
        proof {
            if k >= 4 && n@.skip(k - 4) == ".git"@ {
                assert(n@.skip(k - 4)[0] == n@[k - 4]);
                assert(n@.skip(k - 4)[1] == n@[k - 3]);
                assert(n@.skip(k - 4)[2] == n@[k - 2]);
                assert(n@.skip(k - 4)[3] == n@[k - 1]);
            }
        }
        string_of(n.as_slice())
    }
}

/// A list of arguments from its parts.
fn arg_list(parts: &Vec<&str>) -> (r: Vec<String>)
    ensures
        string_views(r@) == parts@.map_values(|p: &str| p@),
{
    let mut r: Vec<String> = Vec::new();
    for i in 0..parts.len()
        invariant
            string_views(r@) == parts@.take(i as int).map_values(|p: &str| p@),
    {
        let ghost prev = r@;
        r.push(String::from_str(parts[i]));
        assert(string_views(r@) =~= string_views(prev).push(parts@[i as int]@));
        assert(parts@.take(i + 1).map_values(|p: &str| p@) =~= parts@.take(i as int).map_values(|p: &str| p@).push(parts@[i as int]@));
    }
    assert(parts@.take(parts@.len() as int) =~= parts@);
    r
}

/// Plans a clone: the steps that clone `args.url` into the chosen
/// directory and, with `reset_history`, give it a fresh history. There is
/// no plan where no directory can be told.
pub fn run(args: CloneArgs) -> (r: Result<Vec<CloneStep>, String>)
    ensures
        clone_target(args).len() == 0 ==> r is Err && r->Err_0@ == no_dir_message(args.url@),
        clone_target(args).len() > 0 ==> (r matches Ok(steps) && steps@.map_values(|s: CloneStep| step_view(s))
            == clone_steps(args.url@, clone_target(args), args.reset_history)),
{
    let dir = match &args.output {
        Some(o) => o.clone(),
        None => dir_name_of_url(args.url.as_str()),
    };
    let dchars = chars_of(dir.as_str());
    if dchars.len() == 0 {
        return Err(concat3("cannot tell the directory to clone '", args.url.as_str(), "' into, use -o"));
    }
    let d = dir.as_str();
    let mut steps: Vec<CloneStep> = Vec::new();
    let first = vec!["clone", args.url.as_str(), d];
    assert(first@.map_values(|p: &str| p@) =~= seq!["clone"@, args.url@, dir@]);
    steps.push(CloneStep::Git(arg_list(&first)));
    assert(steps@.map_values(|s: CloneStep| step_view(s)) =~= seq![(true, seq!["clone"@, args.url@, dir@])]);
    if args.reset_history {
        let ghost before = steps@.map_values(|s: CloneStep| step_view(s));
        let git_dir = join_path_chars(&dchars, &chars_of(".git"));
        let init = vec!["-C", d, "init"];
        let add = vec!["-C", d, "add", "-A"];
        let commit = vec!["-C", d, "commit", "-m", "Initial commit"];
        assert(init@.map_values(|p: &str| p@) =~= seq!["-C"@, dir@, "init"@]);
        assert(add@.map_values(|p: &str| p@) =~= seq!["-C"@, dir@, "add"@, "-A"@]);
        assert(commit@.map_values(|p: &str| p@) =~= seq!["-C"@, dir@, "commit"@, "-m"@, "Initial commit"@]);
        steps.push(CloneStep::RemoveDir(string_of(git_dir.as_slice())));
        steps.push(CloneStep::Git(arg_list(&init)));
        steps.push(CloneStep::Git(arg_list(&add)));
        steps.push(CloneStep::Git(arg_list(&commit)));
        assert(steps@.map_values(|s: CloneStep| step_view(s)) =~= before + seq![
            (false, seq![join_path(dir@, ".git"@)]),
            (true, seq!["-C"@, dir@, "init"@]),
            (true, seq!["-C"@, dir@, "add"@, "-A"@]),
            (true, seq!["-C"@, dir@, "commit"@, "-m"@, "Initial commit"@])
        ]);
    }
    Ok(steps)
}

} // verus!

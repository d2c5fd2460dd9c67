//! Copying a project tree without its development artifacts: what becomes
//! of each entry met while walking the source tree.

use vstd::prelude::*;
use crate::text::{chars_of, string_of, string_views, find_char, lemma_find_char, find_from, slice_chars, str_eq, concat2};
use crate::paths::{extension, extension_chars, join_path, join_path_chars, parent, parent_chars};

verus! {

/// The lower-case form of a string as `str::to_lowercase` gives it
/// (Unicode's lower-case mapping).
pub uninterp spec fn unicode_lower(s: Seq<char>) -> Seq<char>;

/// `str::to_lowercase`. Trusted: the result is named, not computed here.
#[verifier::external_body]
fn to_lowercase(s: &str) -> (r: String)
    ensures
        r@ == unicode_lower(s@),
{
    s.to_lowercase()
}

/// The directories left out of a clean copy.
pub open spec fn default_skip_dirs() -> Seq<Seq<char>> {
    seq!["node_modules"@, ".git"@, ".github"@, "dist"@]
}

/// The file extensions left out of a clean copy.
pub open spec fn default_skip_exts() -> Seq<Seq<char>> {
    seq!["md5"@, "sha1"@, "zip"@]
}

pub fn skip_dirs() -> (v: Vec<String>)
    ensures
        string_views(v@) == default_skip_dirs(),
        forall|d: Seq<char>| #![trigger string_views(v@).contains(d)] string_views(v@).contains(d) <==> (
            d == "node_modules"@ || d == ".git"@ || d == ".github"@ || d == "dist"@),
{
    let mut v: Vec<String> = Vec::new();
    v.push(String::from_str("node_modules"));
    v.push(String::from_str(".git"));
    v.push(String::from_str(".github"));
    v.push(String::from_str("dist"));
    assert(string_views(v@) =~= default_skip_dirs());
    proof {
        law_clean_copy_skips();
    }
    v
}

pub fn skip_exts() -> (v: Vec<String>)
    ensures
        string_views(v@) == default_skip_exts(),
        forall|e: Seq<char>| #![trigger string_views(v@).contains(e)] string_views(v@).contains(e) <==> (
            e == "md5"@ || e == "sha1"@ || e == "zip"@),
{
    let mut v: Vec<String> = Vec::new();
    v.push(String::from_str("md5"));
    v.push(String::from_str("sha1"));
    v.push(String::from_str("zip"));
    assert(string_views(v@) =~= default_skip_exts());
    proof {
        law_clean_copy_skips();
    }
    v
}

/// Law: a clean copy leaves out exactly the dependency, version-control,
/// CI and build directories (`node_modules`, `.git`, `.github`, `dist`)
/// and exactly the checksum and archive files (`md5`, `sha1`, `zip`).
pub proof fn law_clean_copy_skips()
    ensures
        forall|d: Seq<char>| #![trigger default_skip_dirs().contains(d)] default_skip_dirs().contains(d) <==> (
            d == "node_modules"@ || d == ".git"@ || d == ".github"@ || d == "dist"@),
        forall|e: Seq<char>| #![trigger default_skip_exts().contains(e)] default_skip_exts().contains(e) <==> (
            e == "md5"@ || e == "sha1"@ || e == "zip"@),
{
    let ds = default_skip_dirs();
    assert forall|d: Seq<char>| ds.contains(d) <==> (
        d == "node_modules"@ || d == ".git"@ || d == ".github"@ || d == "dist"@) by {
        if d == "node_modules"@ { assert(ds[0] == d); }
        if d == ".git"@ { assert(ds[1] == d); }
        if d == ".github"@ { assert(ds[2] == d); }
        if d == "dist"@ { assert(ds[3] == d); }
    }
    let es = default_skip_exts();
    assert forall|e: Seq<char>| es.contains(e) <==> (e == "md5"@ || e == "sha1"@ || e == "zip"@) by {
        if e == "md5"@ { assert(es[0] == e); }
        if e == "sha1"@ { assert(es[1] == e); }
        if e == "zip"@ { assert(es[2] == e); }
    }
}

/// A piece of a path between separators, unless it is empty or `.`.
pub open spec fn keep_piece(x: Seq<char>) -> Seq<Seq<char>> {
    if x.len() == 0 || x == seq!['.'] {
        Seq::empty()
    } else {
        seq![x]
    }
}

/// The names that make up a relative path.
pub open spec fn components(p: Seq<char>) -> Seq<Seq<char>>
    decreases p.len(),
{
    let i = find_char(p, '/');
    if i < 0 {
        keep_piece(p)
    } else {
        proof {
            lemma_find_char(p, '/');
        }
        keep_piece(p.take(i)) + components(p.skip(i + 1))
    }
}

/// What becomes of an entry met while walking the source tree.
pub enum CopyAction {
    /// The walk's root: create the destination directory.
    CreateDest,
    /// Leave the entry out.
    Skip,
    /// Create this directory.
    CreateDir(String),
    /// Copy the file to `target`, after creating `parent` where there is one.
    CopyFile { target: String, parent: Option<String> },
}

/// Whether an entry lies in (or is) a left-out directory: one of the names
/// of its path relative to the root is in `skip_dirs`.
pub open spec fn in_skipped_dir(rel: Seq<char>, skip_dirs: Seq<Seq<char>>) -> bool {
    exists|k: int| 0 <= k < components(rel).len() && skip_dirs.contains(#[trigger] components(rel)[k])
}

/// Whether a file is left out for its extension, compared in lower case.
pub open spec fn skipped_extension(rel: Seq<char>, skip_exts: Seq<Seq<char>>) -> bool {
    match extension(rel) {
        Some(e) => skip_exts.contains(unicode_lower(e)),
        None => false,
    }
}

/// What becomes of an entry, by the rules of a clean copy.
pub open spec fn action_is(
    a: CopyAction,
    dest: Seq<char>,
    rel: Seq<char>,
    is_root: bool,
    is_symlink: bool,
    is_dir: bool,
    skip_dirs: Seq<Seq<char>>,
    skip_exts: Seq<Seq<char>>,
) -> bool {
    if is_root {
        a is CreateDest
    } else if in_skipped_dir(rel, skip_dirs) || is_symlink {
        a is Skip
    } else if is_dir {
        a matches CopyAction::CreateDir(t) && t@ == join_path(dest, rel)
    } else if skipped_extension(rel, skip_exts) {
        a is Skip
    } else {
        a matches CopyAction::CopyFile { target, parent: par } && target@ == join_path(dest, rel) && match par {
            Some(d) => parent(join_path(dest, rel)) == Some(d@),
            None => parent(join_path(dest, rel)) is None,
        }
    }
}

/// Whether `list` holds `s`.
pub fn list_contains(list: &Vec<String>, s: &str) -> (r: bool)
    ensures
        r == string_views(list@).contains(s@),
{
    for i in 0..list.len()
        invariant
            forall|k: int| 0 <= k < i ==> list@[k]@ != s@,
    {
        if str_eq(list[i].as_str(), s) {
            assert(string_views(list@)[i as int] == s@);
            return true;
        }
    }
    assert forall|k: int| 0 <= k < string_views(list@).len() implies string_views(list@)[k] != s@ by {
        assert(string_views(list@)[k] == list@[k]@);
    }
    false
}

/// Whether any name of the relative path `rel` is in `skip_dirs`.
pub fn any_component_skipped(rel: &Vec<char>, skip_dirs: &Vec<String>) -> (r: bool)
    ensures
        r == in_skipped_dir(rel@, string_views(skip_dirs@)),
{
    let mut start: usize = 0;
    let ghost mut seen: Seq<Seq<char>> = Seq::empty();
    assert(rel@.skip(0) =~= rel@);
    loop
        invariant
            start <= rel.len(),
            components(rel@) == seen + components(rel@.skip(start as int)),
            forall|k: int| 0 <= k < seen.len() ==> !string_views(skip_dirs@).contains(#[trigger] seen[k]),
        decreases rel.len() - start,
    {
        let ghost t = rel@.skip(start as int);
        let j = find_from(rel, start, '/');
        let piece = slice_chars(rel, start, j);
        assert(piece@ =~= if j == rel.len() { t } else { t.take(j - start) });
        let piece_str = string_of(piece.as_slice());
        let is_dot = piece.len() == 1 && piece[0] == '.';
        assert(is_dot <==> piece@ =~= seq!['.']);
        if piece.len() > 0 && !is_dot && list_contains(skip_dirs, piece_str.as_str()) {
            proof {
                let c = components(rel@);
                if j == rel.len() {
                    assert(components(t) == keep_piece(t));
                } else {
                    assert(t.skip(j - start + 1) =~= rel@.skip(j + 1));
                }
                assert(c[seen.len() as int] == piece@);
            }
            return true;
        }
        if j == rel.len() {
            proof {
                assert(components(t) == keep_piece(t));
                seen = seen + keep_piece(piece@);
                assert(components(rel@) == seen);
            }
            return false;
        }
        proof {
            assert(t.skip(j - start + 1) =~= rel@.skip(j + 1));
            seen = seen + keep_piece(piece@);
            assert(components(rel@) =~= seen + components(rel@.skip(j + 1)));
        }
        start = j + 1;
    }
}

/// Decides what becomes of one entry of the source tree: `rel` is its path
/// relative to the root, `dest` the destination directory.
pub fn entry_action(
    dest: &str,
    rel: &str,
    is_root: bool,
    is_symlink: bool,
    is_dir: bool,
    skip_dirs: &Vec<String>,
    skip_exts: &Vec<String>,
) -> (a: CopyAction)
    ensures
        action_is(a, dest@, rel@, is_root, is_symlink, is_dir, string_views(skip_dirs@), string_views(skip_exts@)),
{
    if is_root {
        return CopyAction::CreateDest;
    }
    let r = chars_of(rel);
    if any_component_skipped(&r, skip_dirs) {
        return CopyAction::Skip;
    }
    if is_symlink {
        return CopyAction::Skip;
    }
    let d = chars_of(dest);
    let t = join_path_chars(&d, &r);
    if is_dir {
        return CopyAction::CreateDir(string_of(t.as_slice()));
    }
    match extension_chars(&r) {
        Some(e) => {
            let es = string_of(e.as_slice());
            let lower = to_lowercase(es.as_str());
            if list_contains(skip_exts, lower.as_str()) {
                return CopyAction::Skip;
            }
        },
        None => {},
    }
    let par = match parent_chars(&t) {
        Some(p) => Some(string_of(p.as_slice())),
        None => None,
    };
    CopyAction::CopyFile { target: string_of(t.as_slice()), parent: par }
}

/// The arguments of a clean copy.
pub struct CopyCleanArgs {
    pub source: String,
    pub dest: String,
}

/// A clean copy needs an existing source and a destination not yet there.
pub fn check_paths(args: &CopyCleanArgs, source_exists: bool, dest_exists: bool) -> (r: Result<(), String>)
    ensures
        !source_exists ==> r is Err && r->Err_0@ == "source not found: "@ + args.source@,
        source_exists && dest_exists ==> r is Err && r->Err_0@ == "destination already exists: "@ + args.dest@,
        source_exists && !dest_exists ==> r is Ok,
{
    if !source_exists {
        return Err(concat2("source not found: ", args.source.as_str()));
    }
    if dest_exists {
        return Err(concat2("destination already exists: ", args.dest.as_str()));
    }
    Ok(())
}

} // verus!

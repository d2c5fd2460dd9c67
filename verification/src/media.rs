//! What the media converters share: the facts gathered about an input path,
//! the choice of the files to convert and the conversions to run.

use vstd::prelude::*;
use crate::text::{chars_of, chars_eq_ignore_ascii_case, eq_ignore_ascii_case, string_views, string_of};
use crate::paths::{extension, extension_chars, parent, parent_chars};

verus! {

/// One entry of a directory: its path (the directory joined with the
/// entry's name) and whether it is a regular file.
pub struct DirEntry {
    pub path: String,
    pub is_file: bool,
}

/// What the file system says about the input of a conversion run, gathered
/// before any decision is made.
pub struct InputProbe {
    /// Whether `ffmpeg -version` could be started.
    pub ffmpeg_found: bool,
    /// Whether the input path exists.
    pub exists: bool,
    /// Whether the input path is a regular file.
    pub is_file: bool,
    /// For a directory input, its entries in the order the directory lists
    /// them, or the reason it could not be read. Not consulted for a file.
    pub listing: Result<Vec<DirEntry>, String>,
}

/// One call of ffmpeg: the file read, the file written and the arguments.
pub struct Conversion {
    pub input: String,
    pub output: String,
    pub args: Vec<String>,
}

/// What a run converts: a single file, or each matching file of a directory.
pub enum Plan {
    File(Conversion),
    Dir(Vec<Conversion>),
}

/// Whether a path's extension is `ext`, ignoring ASCII case.
pub open spec fn has_extension(path: Seq<char>, ext: Seq<char>) -> bool {
    match extension(path) {
        Some(e) => eq_ignore_ascii_case(e, ext),
        None => false,
    }
}

/// The paths of the regular files of a listing whose extension is `ext`
/// (ASCII case ignored), in listing order.
pub open spec fn matching_files(listing: Seq<DirEntry>, ext: Seq<char>) -> Seq<Seq<char>>
    decreases listing.len(),
{
    if listing.len() == 0 {
        Seq::empty()
    } else {
        let rest = matching_files(listing.drop_last(), ext);
        let e = listing.last();
        if e.is_file && has_extension(e.path@, ext) {
            rest.push(e.path@)
        } else {
            rest
        }
    }
}

/// The directory a single-file conversion writes to: the one asked for,
/// else the input's parent, else the current directory.
pub open spec fn file_mode_out_dir(input: Seq<char>, output_dir: Option<Seq<char>>) -> Seq<char> {
    match output_dir {
        Some(d) => d,
        None => match parent(input) {
            Some(p) => p,
            None => "."@,
        },
    }
}

/// The directory a directory conversion writes to: the one asked for, else
/// the input directory itself.
pub open spec fn dir_mode_out_dir(input: Seq<char>, output_dir: Option<Seq<char>>) -> Seq<char> {
    match output_dir {
        Some(d) => d,
        None => input,
    }
}

pub open spec fn opt_view(o: Option<String>) -> Option<Seq<char>> {
    match o {
        Some(s) => Some(s@),
        None => None,
    }
}

/// Whether the path's extension is `ext`, ignoring ASCII case.
pub fn path_has_extension(path: &str, ext: &str) -> (r: bool)
    ensures
        r == has_extension(path@, ext@),
{
    let p = chars_of(path);
    let e = chars_of(ext);
    match extension_chars(&p) {
        Some(x) => chars_eq_ignore_ascii_case(&x, &e),
        None => false,
    }
}

/// The paths of the regular files of `listing` with extension `ext`.
pub fn select_matching(listing: &Vec<DirEntry>, ext: &str) -> (out: Vec<String>)
    ensures
        string_views(out@) == matching_files(listing@, ext@),
{
    let mut out: Vec<String> = Vec::new();
    for i in 0..listing.len()
        invariant
            string_views(out@) == matching_files(listing@.take(i as int), ext@),
    {
        let e = &listing[i];
        let ghost prev = out@;
        if e.is_file && path_has_extension(e.path.as_str(), ext) {
            out.push(e.path.clone());
            assert(string_views(out@) =~= string_views(prev).push(e.path@));
        }
        assert(listing@.take(i + 1).drop_last() =~= listing@.take(i as int));
    }
    assert(listing@.take(listing@.len() as int) =~= listing@);
    out
}

/// The output directory of a single-file conversion.
pub fn file_out_dir(input: &str, output_dir: &Option<String>) -> (r: String)
    ensures
        r@ == file_mode_out_dir(input@, opt_view(*output_dir)),
{
    match output_dir {
        Some(d) => d.clone(),
        None => {
            let p = chars_of(input);
            match parent_chars(&p) {
                Some(d) => string_of(d.as_slice()),
                None => String::from_str("."),
            }
        },
    }
}

/// The output directory of a directory conversion.
pub fn dir_out_dir(input: &str, output_dir: &Option<String>) -> (r: String)
    ensures
        r@ == dir_mode_out_dir(input@, opt_view(*output_dir)),
{
    match output_dir {
        Some(d) => d.clone(),
        None => String::from_str(input),
    }
}

/// Appends a string to a list of arguments.
pub fn push_arg(args: &mut Vec<String>, a: &str)
    ensures
        string_views(final(args)@) == string_views(old(args)@).push(a@),
{
    let ghost prev = args@;
    args.push(String::from_str(a));
    assert(string_views(args@) =~= string_views(prev).push(a@));
}

} // verus!

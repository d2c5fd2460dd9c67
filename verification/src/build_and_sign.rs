//! Building a signed release archive: a clean copy of the source, checksum
//! listings of it and a ZIP archive of it, named after a common prefix.

use vstd::prelude::*;
use crate::text::{concat2, chars_of};

verus! {

/// The arguments of a build.
pub struct BuildAndSignArgs {
    pub source: String,
    pub prefix: String,
}

/// The temporary clean copy: `{prefix}-clean`.
pub fn clean_dir_name(prefix: &str) -> (r: String)
    ensures
        r@ == prefix@ + "-clean"@,
{
    concat2(prefix, "-clean")
}

/// The archive: `{prefix}.zip`.
pub fn zip_path(prefix: &str) -> (r: String)
    ensures
        r@ == prefix@ + ".zip"@,
{
    concat2(prefix, ".zip")
}

/// A build needs an existing source, and the clean copy's directory must
/// not exist yet.
pub fn check_paths(args: &BuildAndSignArgs, source_exists: bool, clean_exists: bool) -> (r: Result<(), String>)
    ensures
        !source_exists ==> r is Err && r->Err_0@ == "source not found: "@ + args.source@,
        source_exists && clean_exists ==> r is Err && r->Err_0@ == args.prefix@ + "-clean"@ + " already exists"@,
        source_exists && !clean_exists ==> r is Ok,
{
    if !source_exists {
        return Err(concat2("source not found: ", args.source.as_str()));
    }
    if clean_exists {
        let clean = clean_dir_name(args.prefix.as_str());
        return Err(concat2(clean.as_str(), " already exists"));
    }
    Ok(())
}

/// The archive entry of a walked path, from its path relative to the
/// archived directory: directories end in `/`, and the root has none.
pub open spec fn zip_entry_name(rel: Seq<char>, is_dir: bool) -> Option<Seq<char>> {
    if is_dir {
        if rel.len() == 0 {
            None
        } else {
            Some(rel + "/"@)
        }
    } else {
        Some(rel)
    }
}

/// The name under which a walked path goes into the archive, if any.
pub fn zip_entry(rel: &str, is_dir: bool) -> (r: Option<String>)
    ensures
        match r {
            Some(n) => zip_entry_name(rel@, is_dir) == Some(n@),
            None => zip_entry_name(rel@, is_dir) is None,
        },
{
    if is_dir {
        let c = chars_of(rel);
        if c.len() == 0 {
            None
        } else {
            Some(concat2(rel, "/"))
        }
    } else {
        Some(String::from_str(rel))
    }
}

/// The report of a finished build.
pub fn created_report(prefix: &str) -> (r: String)
    ensures
        r@ == "created "@ + prefix@ + ".zip, "@ + prefix@ + ".md5, "@ + prefix@ + ".sha1"@,
{
    let mut r = String::from_str("created ");
    r.append(prefix);
    r.append(".zip, ");
    r.append(prefix);
    r.append(".md5, ");
    r.append(prefix);
    r.append(".sha1");
    r
}

} // verus!

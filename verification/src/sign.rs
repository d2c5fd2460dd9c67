//! Checksum listings in the format of `md5sum` and `sha1sum`: one line
//! `{hex digest}  {path}` per file, each line ending in a line break.

use vstd::prelude::*;
use sha1::Digest;
use crate::text::{to_hex_lower, hex_lower, lemma_hex_lower_shape, is_lower_hex, string_of, chars_of, join, join_chars, char_views, append_chars, concat2, lines, strip_cr, find_char, lemma_find_char_at, string_views};

verus! {

/// The MD5 digest of some bytes (the 16 bytes that `md5::compute` gives).
pub uninterp spec fn md5_digest(data: Seq<u8>) -> Seq<u8>;

/// The SHA-1 digest of some bytes (the 20 bytes that `sha1::Sha1` gives).
pub uninterp spec fn sha1_digest(data: Seq<u8>) -> Seq<u8>;

/// `md5::compute`: the MD5 digest of `data`. Trusted: the digest is named,
/// not computed here; the crate's `Digest` type holds exactly 16 bytes.
#[verifier::external_body]
fn md5_compute(data: &[u8]) -> (d: Vec<u8>)
    ensures
        d@ == md5_digest(data@),
        d@.len() == 16,
{
    md5::compute(data).0.to_vec()
}

/// `<sha1::Sha1 as Digest>::digest`: the SHA-1 digest of `data`. Trusted:
/// the digest is named, not computed here; its output size is 20 bytes.
#[verifier::external_body]
fn sha1_compute(data: &[u8]) -> (d: Vec<u8>)
    ensures
        d@ == sha1_digest(data@),
        d@.len() == 20,
{
    sha1::Sha1::digest(data).to_vec()
}

/// The arguments of a signing run.
pub struct SignArgs {
    pub folder: String,
    pub prefix: String,
}

/// A line of a checksum listing.
pub open spec fn checksum_line(hex: Seq<char>, path: Seq<char>) -> Seq<char> {
    hex + "  "@ + path
}

/// A checksum listing: its lines, each followed by a line break.
pub open spec fn listing_text(ls: Seq<Seq<char>>) -> Seq<char> {
    join(ls, "\n"@) + "\n"@
}

/// The lower-case hexadecimal MD5 digest of `data` (`format!("{:x}", md5::compute(data))`).
pub fn md5_hex(data: &[u8]) -> (h: String)
    ensures
        h@ == hex_lower(md5_digest(data@)),
        h@.len() == 32,
{
    let d = md5_compute(data);
    let h = to_hex_lower(d.as_slice());
    proof {
        lemma_hex_lower_shape(d@);
    }
    string_of(h.as_slice())
}

/// The lower-case hexadecimal SHA-1 digest of `data`.
pub fn sha1_hex(data: &[u8]) -> (h: String)
    ensures
        h@ == hex_lower(sha1_digest(data@)),
        h@.len() == 40,
{
    let d = sha1_compute(data);
    let h = to_hex_lower(d.as_slice());
    proof {
        lemma_hex_lower_shape(d@);
    }
    string_of(h.as_slice())
}

/// The MD5 line and the SHA-1 line of one file, shown as `path`.
pub fn file_lines(path: &str, data: &[u8]) -> (r: (String, String))
    ensures
        r.0@ == checksum_line(hex_lower(md5_digest(data@)), path@),
        r.1@ == checksum_line(hex_lower(sha1_digest(data@)), path@),
{
    let m = md5_hex(data);
    let s = sha1_hex(data);
    let mut ml = m;
    ml.append("  ");
    ml.append(path);
    let mut sl = s;
    sl.append("  ");
    sl.append(path);
    (ml, sl)
}

/// The text of a checksum file: the lines joined by line breaks, with a
/// final line break.
pub fn listing(lines_: &Vec<String>) -> (text: String)
    ensures
        text@ == listing_text(string_views(lines_@)),
{
    let mut parts: Vec<Vec<char>> = Vec::new();
    for i in 0..lines_.len()
        invariant
            char_views(parts@) == string_views(lines_@).take(i as int),
    {
        let ghost prev = parts@;
        parts.push(chars_of(lines_[i].as_str()));
        assert(char_views(parts@) =~= char_views(prev).push(lines_@[i as int]@));
        assert(string_views(lines_@).take(i + 1) =~= string_views(lines_@).take(i as int).push(lines_@[i as int]@));
    }
    assert(string_views(lines_@).take(lines_@.len() as int) =~= string_views(lines_@));
    let nl = chars_of("\n");
    let mut text = join_chars(&parts, &nl);
    append_chars(&mut text, nl.as_slice());
    string_of(text.as_slice())
}

/// The path of the MD5 listing: `{prefix}.md5`.
pub fn md5_listing_path(prefix: &str) -> (p: String)
    ensures
        p@ == prefix@ + ".md5"@,
{
    concat2(prefix, ".md5")
}

/// The path of the SHA-1 listing: `{prefix}.sha1`.
pub fn sha1_listing_path(prefix: &str) -> (p: String)
    ensures
        p@ == prefix@ + ".sha1"@,
{
    concat2(prefix, ".sha1")
}

/// A run needs an existing folder.
pub fn check_folder(folder: &str, exists: bool) -> (r: Result<(), String>)
    ensures
        r is Err <==> !exists,
        r is Err ==> r->Err_0@ == "folder not found: "@ + folder@,
{
    if !exists {
        Err(concat2("folder not found: ", folder))
    } else {
        Ok(())
    }
}

/// Law: a checksum line starts with the digest in hexadecimal, and the
/// first two-space gap ends it (as `md5sum -c` and `sha1sum -c` read it).
pub proof fn law_line_starts_with_digest(digest: Seq<u8>, path: Seq<char>)
    ensures
        find_char(checksum_line(hex_lower(digest), path), ' ') == 2 * digest.len(),
        checksum_line(hex_lower(digest), path).take(2 * digest.len() as int) == hex_lower(digest),
        checksum_line(hex_lower(digest), path).skip(2 * digest.len() as int + 2) == path,
{
    reveal_strlit("  ");
    let h = hex_lower(digest);
    let l = checksum_line(h, path);
    lemma_hex_lower_shape(digest);
    assert forall|k: int| 0 <= k < l.len() && (2 * digest.len() < 0 || k < 2 * digest.len()) implies l[k] != ' ' by {
        assert(l[k] == h[k]);
        assert(is_lower_hex(h[k]));
    }
    assert(l[2 * digest.len() as int] == ' ');
    lemma_find_char_at(l, ' ', 2 * digest.len() as int);
    assert(l.take(2 * digest.len() as int) =~= h);
    assert(l.skip(2 * digest.len() as int + 2) =~= path);
}

/// Law: reading a listing line by line gives back its lines, provided that
/// none of them holds a line break or ends in a carriage return.
pub proof fn law_listing_lines(ls: Seq<Seq<char>>)
    requires
        ls.len() > 0,
        forall|i: int, k: int| 0 <= i < ls.len() && 0 <= k < ls[i].len() ==> #[trigger] ls[i][k] != '\n',
        forall|i: int| 0 <= i < ls.len() && ls[i].len() > 0 ==> (#[trigger] ls[i]).last() != '\r',
    ensures
        lines(listing_text(ls)) == ls,
    decreases ls.len(),
{
    reveal_strlit("\n");
    let first = ls[0];
    let rest = ls.drop_first();
    assert forall|k: int| 0 <= k < first.len() implies first[k] != '\n' by {
        assert(ls[0][k] != '\n');
    }
    if ls.len() == 1 {
        assert(join(ls, "\n"@) == first);
        let t = listing_text(ls);
        assert(t =~= first.push('\n'));
        lemma_find_char_at(t, '\n', first.len() as int);
        assert(t.take(first.len() as int) =~= first);
        assert(strip_cr(first) == first);
        assert(t.skip(first.len() as int + 1) =~= Seq::<char>::empty());
        assert(lines(t.skip(first.len() as int + 1)) =~= Seq::<Seq<char>>::empty());
        assert(lines(t) =~= ls);
    } else {
        lemma_join_first(ls, "\n"@);
        law_listing_lines(rest);
        let t = listing_text(ls);
        assert(t =~= first + "\n"@ + listing_text(rest));
        lemma_find_char_at(t, '\n', first.len() as int);
        assert(t.take(first.len() as int) =~= first);
        assert(t.skip(first.len() as int + 1) =~= listing_text(rest));
        assert(strip_cr(first) == first);
        assert(lines(t) =~= seq![first] + rest);
        assert(seq![first] + rest =~= ls);
    }
}

/// Joining splits into the first piece and the join of the rest.
proof fn lemma_join_first(ls: Seq<Seq<char>>, sep: Seq<char>)
    requires
        ls.len() >= 2,
    ensures
        join(ls, sep) == ls[0] + sep + join(ls.drop_first(), sep),
    decreases ls.len(),
{
    if ls.len() == 2 {
        assert(ls.drop_last().len() == 1);
        assert(ls.drop_first().len() == 1);
        assert(join(ls.drop_first(), sep) == ls[1]);
        assert(join(ls.drop_last(), sep) == ls[0]);
        assert(join(ls, sep) == join(ls.drop_last(), sep) + sep + ls.last());
    } else {
        lemma_join_first(ls.drop_last(), sep);
        assert(ls.drop_last().drop_first() =~= ls.drop_first().drop_last());
        assert(ls.drop_first().last() == ls.last());
        assert(join(ls.drop_first(), sep) == join(ls.drop_first().drop_last(), sep) + sep + ls.drop_first().last());
        assert(ls.drop_last()[0] == ls[0]);
        assert(join(ls, sep) == join(ls.drop_last(), sep) + sep + ls.last());
        assert(join(ls, sep) =~= ls[0] + sep + join(ls.drop_first(), sep));
    }
}

} // verus!

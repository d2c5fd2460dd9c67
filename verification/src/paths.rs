//! Unix path text: the final component, its extension and stem, the parent,
//! and joining, with the meaning that `std::path::Path` gives them.

use vstd::prelude::*;
use crate::text::{rfind, rfind_char, lemma_rfind_char, slice_chars, append_chars};

verus! {

/// The path with trailing separators and trailing `/.` components removed
/// (a lone `/` or `.` stays).
pub open spec fn strip_trailing(p: Seq<char>) -> Seq<char>
    decreases p.len(),
{
    if p.len() > 1 && (p.last() == '/' || (p.last() == '.' && p[p.len() - 2] == '/')) {
        strip_trailing(p.drop_last())
    } else {
        p
    }
}

/// The text after the last separator of the stripped path.
pub open spec fn last_component(p: Seq<char>) -> Seq<char> {
    let q = strip_trailing(p);
    q.skip(rfind_char(q, '/') + 1)
}

/// `Path::file_name`: the final component, unless it is empty, `.` or `..`.
pub open spec fn file_name(p: Seq<char>) -> Option<Seq<char>> {
    let c = last_component(p);
    if c.len() == 0 || c == seq!['.'] || c == seq!['.', '.'] {
        None
    } else {
        Some(c)
    }
}

/// The extension of a file name: the text after the last `.`, provided
/// that the dot is not the first character of the name.
pub open spec fn name_extension(name: Seq<char>) -> Option<Seq<char>> {
    let d = rfind_char(name, '.');
    if d <= 0 {
        None
    } else {
        Some(name.skip(d + 1))
    }
}

/// The stem of a file name: the text before the last `.`, or the whole
/// name where it has no extension.
pub open spec fn name_stem(name: Seq<char>) -> Seq<char> {
    let d = rfind_char(name, '.');
    if d <= 0 {
        name
    } else {
        name.take(d)
    }
}

/// `Path::extension`.
pub open spec fn extension(p: Seq<char>) -> Option<Seq<char>> {
    match file_name(p) {
        Some(n) => name_extension(n),
        None => None,
    }
}

/// `Path::file_stem`.
pub open spec fn file_stem(p: Seq<char>) -> Option<Seq<char>> {
    match file_name(p) {
        Some(n) => Some(name_stem(n)),
        None => None,
    }
}

/// `Path::parent`: the path without its final component; `None` for an
/// empty path and for the root.
pub open spec fn parent(p: Seq<char>) -> Option<Seq<char>> {
    let q = strip_trailing(p);
    if q.len() == 0 || q == seq!['/'] {
        None
    } else {
        let i = rfind_char(q, '/');
        if i < 0 {
            Some(Seq::empty())
        } else if i == 0 {
            Some(seq!['/'])
        } else {
            Some(strip_trailing(q.take(i)))
        }
    }
}

/// `Path::join` with a relative name: a separator goes between the two
/// unless the directory is empty or already ends in one.
pub open spec fn join_path(dir: Seq<char>, name: Seq<char>) -> Seq<char> {
    if dir.len() == 0 || dir.last() == '/' {
        dir + name
    } else {
        dir + seq!['/'] + name
    }
}

/// The length of `strip_trailing(p)`.
fn stripped_len(p: &Vec<char>) -> (r: usize)
    ensures
        r <= p.len(),
        p@.take(r as int) == strip_trailing(p@),
{
    let mut r = p.len();
    assert(p@.take(r as int) =~= p@);
    while r > 1 && (p[r - 1] == '/' || (p[r - 1] == '.' && p[r - 2] == '/'))
        invariant
            r <= p.len(),
            strip_trailing(p@) == strip_trailing(p@.take(r as int)),
        decreases r,
    {
        assert(p@.take(r as int).drop_last() =~= p@.take(r - 1));
        r = r - 1;
    }
    r
}

fn strip_trailing_chars(p: &Vec<char>) -> (q: Vec<char>)
    ensures
        q@ == strip_trailing(p@),
{
    let r = stripped_len(p);
    let q = slice_chars(p, 0, r);
    assert(q@ =~= p@.take(r as int));
    q
}

pub fn last_component_chars(p: &Vec<char>) -> (c: Vec<char>)
    ensures
        c@ == last_component(p@),
{
    let q = strip_trailing_chars(p);
    proof {
        lemma_rfind_char(q@, '/');
    }
    let start = match rfind(&q, '/') {
        Some(i) => i + 1,
        None => 0,
    };
    let c = slice_chars(&q, start, q.len());
    assert(c@ =~= q@.skip(start as int));
    c
}

fn is_dot_name(c: &Vec<char>) -> (r: bool)
    ensures
        r == (c@ == seq!['.'] || c@ == seq!['.', '.']),
{
    if c.len() == 1 {
        let r = c[0] == '.';
        assert(r ==> c@ =~= seq!['.']);
        r
    } else if c.len() == 2 {
        let r = c[0] == '.' && c[1] == '.';
        assert(r ==> c@ =~= seq!['.', '.']);
        r
    } else {
        false
    }
}

/// The final component of a path, as `Path::file_name` gives it.
pub fn file_name_chars(p: &Vec<char>) -> (r: Option<Vec<char>>)
    ensures
        match r {
            Some(n) => file_name(p@) == Some(n@),
            None => file_name(p@) is None,
        },
{
    let c = last_component_chars(p);
    if c.len() == 0 || is_dot_name(&c) {
        None
    } else {
        Some(c)
    }
}

/// The extension of a file name.
pub fn name_extension_chars(name: &Vec<char>) -> (r: Option<Vec<char>>)
    ensures
        match r {
            Some(e) => name_extension(name@) == Some(e@),
            None => name_extension(name@) is None,
        },
{
    proof {
        lemma_rfind_char(name@, '.');
    }
    match rfind(name, '.') {
        Some(d) => {
            if d == 0 {
                None
            } else {
                let e = slice_chars(name, d + 1, name.len());
                assert(e@ =~= name@.skip(d + 1));
                Some(e)
            }
        },
        None => None,
    }
}

/// The stem of a file name.
pub fn name_stem_chars(name: &Vec<char>) -> (r: Vec<char>)
    ensures
        r@ == name_stem(name@),
{
    proof {
        lemma_rfind_char(name@, '.');
    }
    match rfind(name, '.') {
        Some(d) => {
            if d == 0 {
                slice_chars(name, 0, name.len())
            } else {
                slice_chars(name, 0, d)
            }
        },
        None => slice_chars(name, 0, name.len()),
    }
}

/// `Path::extension` of a path.
pub fn extension_chars(p: &Vec<char>) -> (r: Option<Vec<char>>)
    ensures
        match r {
            Some(e) => extension(p@) == Some(e@),
            None => extension(p@) is None,
        },
{
    match file_name_chars(p) {
        Some(n) => name_extension_chars(&n),
        None => None,
    }
}

/// `Path::file_stem` of a path.
pub fn file_stem_chars(p: &Vec<char>) -> (r: Option<Vec<char>>)
    ensures
        match r {
            Some(s) => file_stem(p@) == Some(s@),
            None => file_stem(p@) is None,
        },
{
    match file_name_chars(p) {
        Some(n) => Some(name_stem_chars(&n)),
        None => None,
    }
}

/// `Path::parent` of a path.
pub fn parent_chars(p: &Vec<char>) -> (r: Option<Vec<char>>)
    ensures
        match r {
            Some(d) => parent(p@) == Some(d@),
            None => parent(p@) is None,
        },
{
    let q = strip_trailing_chars(p);
    if q.len() == 0 || (q.len() == 1 && q[0] == '/') {
        assert(q.len() == 1 ==> (q@ =~= seq!['/'] <==> q[0] == '/'));
        return None;
    }
    assert(q@ != seq!['/']);
    proof {
        lemma_rfind_char(q@, '/');
    }
    match rfind(&q, '/') {
        None => Some(Vec::new()),
        Some(i) => {
            if i == 0 {
                let mut root: Vec<char> = Vec::new();
                root.push('/');
                assert(root@ =~= seq!['/']);
                Some(root)
            } else {
                let head = slice_chars(&q, 0, i);
                assert(head@ =~= q@.take(i as int));
                Some(strip_trailing_chars(&head))
            }
        },
    }
}

/// `Path::join` of a directory and a relative name.
pub fn join_path_chars(dir: &Vec<char>, name: &Vec<char>) -> (r: Vec<char>)
    ensures
        r@ == join_path(dir@, name@),
{
    let mut r: Vec<char> = Vec::new();
    append_chars(&mut r, dir.as_slice());
    if dir.len() > 0 && dir[dir.len() - 1] != '/' {
        r.push('/');
    }
    append_chars(&mut r, name.as_slice());
    r
}

} // verus!

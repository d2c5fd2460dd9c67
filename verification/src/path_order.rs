//! The order of paths by their components, as `Path`'s `Ord` compares them
//! on Unix: component by component, the root before a leading `.`, before
//! `..`, before names, and names by their characters. Empty components and
//! inner `.` are passed over, so `/t/a/b` comes before `/t/a-b`.

use vstd::prelude::*;
use crate::text::{
    lex_le, chars_le, chars_of, find_char, find_from, slice_chars, char_views, lemma_lex_total,
    lemma_lex_transitive, lemma_lex_antisymmetric, lemma_lex_reflexive, lemma_find_char, string_views,
};
use crate::copy_clean::list_contains;

verus! {

/// A piece between slashes, as a component: none where it is empty or `.`.
pub open spec fn kept_part(x: Seq<char>) -> Seq<Seq<char>> {
    if x.len() == 0 || x == "."@ {
        Seq::empty()
    } else {
        seq![x]
    }
}

/// The components of the text after a path's root or leading `.`: the
/// pieces between slashes, without empty ones and `.`.
pub open spec fn tail_parts(p: Seq<char>) -> Seq<Seq<char>>
    decreases p.len(),
{
    if p.len() == 0 {
        Seq::empty()
    } else {
        let i = find_char(p, '/');
        if i < 0 {
            kept_part(p)
        } else {
            proof {
                lemma_find_char(p, '/');
            }
            kept_part(p.take(i)) + tail_parts(p.skip(i + 1))
        }
    }
}

/// The components of a path, as `Path::components` gives them on Unix: `/`
/// for the root, `.` for a leading current directory, then `..` and names.
pub open spec fn path_parts(p: Seq<char>) -> Seq<Seq<char>> {
    if p.len() > 0 && p[0] == '/' {
        seq!["/"@] + tail_parts(p.skip(1))
    } else if p.len() > 0 && p[0] == '.' && (p.len() == 1 || p[1] == '/') {
        seq!["."@] + tail_parts(p.skip(1))
    } else {
        tail_parts(p)
    }
}

/// The kind of a component: root, current directory, parent directory, name.
pub open spec fn part_rank(x: Seq<char>) -> int {
    if x == "/"@ {
        0
    } else if x == "."@ {
        1
    } else if x == ".."@ {
        2
    } else {
        3
    }
}

/// Components by kind, then names by their characters.
pub open spec fn part_le(a: Seq<char>, b: Seq<char>) -> bool {
    part_rank(a) < part_rank(b) || (part_rank(a) == part_rank(b) && lex_le(a, b))
}

/// Component lists in lexicographic order.
pub open spec fn parts_le(a: Seq<Seq<char>>, b: Seq<Seq<char>>) -> bool
    decreases a.len(),
{
    if a.len() == 0 {
        true
    } else if b.len() == 0 {
        false
    } else if a[0] != b[0] {
        part_le(a[0], b[0])
    } else {
        parts_le(a.drop_first(), b.drop_first())
    }
}

/// Paths by their components; two texts of the same components (such as
/// `a/b` and `a//b`) by their characters.
pub open spec fn path_le(a: Seq<char>, b: Seq<char>) -> bool {
    if path_parts(a) != path_parts(b) {
        parts_le(path_parts(a), path_parts(b))
    } else {
        lex_le(a, b)
    }
}

/// `a` comes strictly before `b` in path order.
pub open spec fn path_lt(a: Seq<char>, b: Seq<char>) -> bool {
    path_le(a, b) && a != b
}

/// The paths are in strictly increasing path order.
pub open spec fn paths_sorted(s: Seq<Seq<char>>) -> bool {
    forall|a: int, b: int| 0 <= a < b < s.len() ==> path_lt(#[trigger] s[a], #[trigger] s[b])
}

proof fn lemma_part_facts(a: Seq<char>, b: Seq<char>, c: Seq<char>)
    ensures
        part_le(a, b) || part_le(b, a),
        part_le(a, b) && part_le(b, a) ==> a == b,
        part_le(a, b) && part_le(b, c) ==> part_le(a, c),
        part_le(a, a),
{
    lemma_lex_total(a, b);
    lemma_lex_reflexive(a);
    if part_le(a, b) && part_le(b, a) {
        lemma_lex_antisymmetric(a, b);
    }
    if part_le(a, b) && part_le(b, c) && part_rank(a) == part_rank(b) && part_rank(b) == part_rank(c) {
        lemma_lex_transitive(a, b, c);
    }
}

proof fn lemma_parts_total(a: Seq<Seq<char>>, b: Seq<Seq<char>>)
    ensures
        parts_le(a, b) || parts_le(b, a),
    decreases a.len(),
{
    if a.len() > 0 && b.len() > 0 {
        if a[0] != b[0] {
            lemma_part_facts(a[0], b[0], b[0]);
        } else {
            lemma_parts_total(a.drop_first(), b.drop_first());
        }
    }
}

proof fn lemma_parts_antisymmetric(a: Seq<Seq<char>>, b: Seq<Seq<char>>)
    requires
        parts_le(a, b),
        parts_le(b, a),
    ensures
        a == b,
    decreases a.len(),
{
    if a.len() == 0 {
        assert(a =~= b);
    } else {
        if a[0] != b[0] {
            lemma_part_facts(a[0], b[0], b[0]);
        }
        lemma_parts_antisymmetric(a.drop_first(), b.drop_first());
        assert(a =~= seq![a[0]] + a.drop_first());
        assert(b =~= seq![b[0]] + b.drop_first());
    }
}

proof fn lemma_parts_transitive(a: Seq<Seq<char>>, b: Seq<Seq<char>>, c: Seq<Seq<char>>)
    requires
        parts_le(a, b),
        parts_le(b, c),
    ensures
        parts_le(a, c),
    decreases a.len(),
{
    if a.len() > 0 && b.len() > 0 && c.len() > 0 {
        lemma_part_facts(a[0], b[0], c[0]);
        if a[0] == b[0] && b[0] == c[0] {
            lemma_parts_transitive(a.drop_first(), b.drop_first(), c.drop_first());
        } else if a[0] == c[0] {
            lemma_part_facts(a[0], b[0], a[0]);
        }
    }
}

proof fn lemma_parts_reflexive(a: Seq<Seq<char>>)
    ensures
        parts_le(a, a),
    decreases a.len(),
{
    if a.len() > 0 {
        lemma_parts_reflexive(a.drop_first());
    }
}

/// Path order is total.
pub proof fn lemma_path_total(a: Seq<char>, b: Seq<char>)
    ensures
        path_le(a, b) || path_le(b, a),
{
    lemma_parts_total(path_parts(a), path_parts(b));
    lemma_lex_total(a, b);
}

/// Path order is antisymmetric.
pub proof fn lemma_path_antisymmetric(a: Seq<char>, b: Seq<char>)
    requires
        path_le(a, b),
        path_le(b, a),
    ensures
        a == b,
{
    if path_parts(a) != path_parts(b) {
        lemma_parts_antisymmetric(path_parts(a), path_parts(b));
    } else {
        lemma_lex_antisymmetric(a, b);
    }
}

/// Path order is transitive.
pub proof fn lemma_path_transitive(a: Seq<char>, b: Seq<char>, c: Seq<char>)
    requires
        path_le(a, b),
        path_le(b, c),
    ensures
        path_le(a, c),
{
    let (pa, pb, pc) = (path_parts(a), path_parts(b), path_parts(c));
    if pa == pb && pb == pc {
        lemma_lex_transitive(a, b, c);
    } else if pa == pb {
    } else if pb == pc {
    } else {
        lemma_parts_transitive(pa, pb, pc);
        if pa == pc {
            lemma_parts_antisymmetric(pa, pb);
        }
    }
}

/// Path order is reflexive.
pub proof fn lemma_path_reflexive(a: Seq<char>)
    ensures
        path_le(a, a),
{
    lemma_lex_reflexive(a);
}

/// Appends the components of the text of `p` from `start` on, as
/// `tail_parts` gives them.
fn push_tail_parts(p: &Vec<char>, start: usize, out: &mut Vec<Vec<char>>)
    requires
        start <= p.len(),
    ensures
        char_views(final(out)@) == char_views(old(out)@) + tail_parts(p@.skip(start as int)),
{
    let ghost first = char_views(out@);
    let mut pos = start;
    proof {
        assert(char_views(out@) + tail_parts(p@.skip(pos as int)) =~= first + tail_parts(p@.skip(start as int)));
    }
    while pos < p.len()
        invariant
            start <= pos <= p.len(),
            char_views(out@) + tail_parts(p@.skip(pos as int)) == first + tail_parts(p@.skip(start as int)),
        decreases p.len() - pos,
    {
        let ghost t = p@.skip(pos as int);
        let ghost before = char_views(out@);
        let i = find_from(p, pos, '/');
        let piece = slice_chars(p, pos, i);
        proof {
            reveal_strlit(".");
            lemma_find_char(t, '/');
            if i < p.len() {
                assert(t.take(i - pos) =~= piece@);
                assert(t.skip(i - pos + 1) =~= p@.skip(i + 1));
            } else {
                assert(t =~= piece@);
            }
        }
        let dot = piece.len() == 1 && piece[0] == '.';
        proof {
            if dot {
                assert(piece@ =~= "."@);
            }
            if piece@ == "."@ {
                assert(piece@.len() == 1 && piece@[0] == '.');
            }
        }
        if !(piece.len() == 0 || dot) {
            out.push(piece);
            proof {
                assert(char_views(out@) =~= before + kept_part(piece@));
            }
        } else {
            proof {
                assert(before + kept_part(piece@) =~= before);
            }
        }
        if i == p.len() {
            pos = p.len();
            proof {
                assert(p@.skip(pos as int).len() == 0);
                assert(tail_parts(t) == kept_part(piece@));
                assert(char_views(out@) + tail_parts(p@.skip(pos as int)) =~= char_views(out@));
            }
        } else {
            pos = i + 1;
            proof {
                assert(tail_parts(t) == kept_part(piece@) + tail_parts(p@.skip(pos as int)));
                assert(char_views(out@) + tail_parts(p@.skip(pos as int)) =~= before + tail_parts(t));
            }
        }
    }
    proof {
        assert(p@.skip(pos as int).len() == 0);
        assert(char_views(out@) + tail_parts(p@.skip(pos as int)) =~= char_views(out@));
    }
}

/// The components of a path.
pub fn path_parts_of(p: &Vec<char>) -> (r: Vec<Vec<char>>)
    ensures
        char_views(r@) == path_parts(p@),
{
    let mut out: Vec<Vec<char>> = Vec::new();
    proof {
        reveal_strlit("/");
        reveal_strlit(".");
    }
    if p.len() > 0 && p[0] == '/' {
        let mut root: Vec<char> = Vec::new();
        root.push('/');
        assert(root@ =~= "/"@);
        out.push(root);
        assert(char_views(out@) =~= seq!["/"@]);
        push_tail_parts(p, 1, &mut out);
    } else if p.len() > 0 && p[0] == '.' && (p.len() == 1 || p[1] == '/') {
        let mut cur: Vec<char> = Vec::new();
        cur.push('.');
        assert(cur@ =~= "."@);
        out.push(cur);
        assert(char_views(out@) =~= seq!["."@]);
        push_tail_parts(p, 1, &mut out);
    } else {
        assert(char_views(out@) =~= Seq::<Seq<char>>::empty());
        assert(p@.skip(0) =~= p@);
        push_tail_parts(p, 0, &mut out);
        assert(Seq::<Seq<char>>::empty() + tail_parts(p@) =~= tail_parts(p@));
    }
    out
}

/// The kind of a component.
fn part_rank_of(x: &Vec<char>) -> (r: u8)
    ensures
        r == part_rank(x@),
{
    proof {
        reveal_strlit("/");
        reveal_strlit(".");
        reveal_strlit("..");
    }
    if x.len() == 1 && x[0] == '/' {
        assert(x@ =~= "/"@);
        0
    } else if x.len() == 1 && x[0] == '.' {
        assert(x@ =~= "."@);
        1
    } else if x.len() == 2 && x[0] == '.' && x[1] == '.' {
        assert(x@ =~= ".."@);
        2
    } else {
        3
    }
}

/// Compares two components.
fn part_le_of(a: &Vec<char>, b: &Vec<char>) -> (r: bool)
    ensures
        r == part_le(a@, b@),
{
    let ra = part_rank_of(a);
    let rb = part_rank_of(b);
    ra < rb || (ra == rb && chars_le(a, b))
}

/// Compares two component lists.
fn parts_le_of(a: &Vec<Vec<char>>, b: &Vec<Vec<char>>) -> (r: bool)
    ensures
        r == parts_le(char_views(a@), char_views(b@)),
{
    let ghost va = char_views(a@);
    let ghost vb = char_views(b@);
    let mut i: usize = 0;
    assert(va.skip(0) =~= va);
    assert(vb.skip(0) =~= vb);
    loop
        invariant
            i <= a.len(),
            i <= b.len(),
            va == char_views(a@),
            vb == char_views(b@),
            parts_le(va, vb) == parts_le(va.skip(i as int), vb.skip(i as int)),
        decreases a.len() - i,
    {
        if i == a.len() {
            return true;
        }
        if i == b.len() {
            return false;
        }
        assert(va[i as int] == a@[i as int]@);
        assert(vb[i as int] == b@[i as int]@);
        let le = chars_le(&a[i], &b[i]);
        let ge = chars_le(&b[i], &a[i]);
        proof {
            lemma_lex_reflexive(a@[i as int]@);
            if le && ge {
                lemma_lex_antisymmetric(a@[i as int]@, b@[i as int]@);
            }
        }
        if !(le && ge) {
            return part_le_of(&a[i], &b[i]);
        }
        assert(va.skip(i as int).drop_first() =~= va.skip(i + 1));
        assert(vb.skip(i as int).drop_first() =~= vb.skip(i + 1));
        i = i + 1;
    }
}

/// Compares two paths in path order.
pub fn path_le_of(a: &str, b: &str) -> (r: bool)
    ensures
        r == path_le(a@, b@),
{
    let ca = chars_of(a);
    let cb = chars_of(b);
    let pa = path_parts_of(&ca);
    let pb = path_parts_of(&cb);
    let le = parts_le_of(&pa, &pb);
    let ge = parts_le_of(&pb, &pa);
    proof {
        lemma_parts_reflexive(path_parts(a@));
        if le && ge {
            lemma_parts_antisymmetric(path_parts(a@), path_parts(b@));
        }
    }
    if le && ge {
        chars_le(&ca, &cb)
    } else {
        le
    }
}

/// The distinct paths of a list, in increasing path order.
pub fn sorted_unique_paths(v: &Vec<String>) -> (out: Vec<String>)
    ensures
        paths_sorted(string_views(out@)),
        forall|x: Seq<char>| string_views(out@).contains(x) <==> string_views(v@).contains(x),
{
    let mut out: Vec<String> = Vec::new();
    for i in 0..v.len()
        invariant
            paths_sorted(string_views(out@)),
            forall|x: Seq<char>| string_views(out@).contains(x) <==> string_views(v@.take(i as int)).contains(x),
    {
        let ghost prev = string_views(out@);
        let ghost x = v@[i as int]@;
        proof {
            assert(string_views(v@.take(i + 1)) =~= string_views(v@.take(i as int)).push(x));
        }
        if !list_contains(&out, v[i].as_str()) {
            let mut p: usize = 0;
            while p < out.len() && path_le_of(out[p].as_str(), v[i].as_str())
                invariant
                    p <= out.len(),
                    i < v.len(),
                    x == v@[i as int]@,
                    prev == string_views(out@),
                    forall|k: int| 0 <= k < p ==> path_le(#[trigger] prev[k], x),
                decreases out.len() - p,
            {
                assert(prev[p as int] == out@[p as int]@);
                p = p + 1;
            }
            proof {
                if p < out@.len() {
                    assert(prev[p as int] == out@[p as int]@);
                    lemma_path_total(prev[p as int], x);
                    lemma_path_reflexive(x);
                }
            }
            out.insert(p, v[i].clone());
            let ghost now = string_views(out@);
            proof {
                assert(now =~= prev.insert(p as int, x));
                assert forall|a: int, b: int| 0 <= a < b < now.len() implies path_lt(#[trigger] now[a], #[trigger] now[b]) by {
                    assert(!prev.contains(x));
                    if a < p && b == p {
                        assert(prev[a] != x);
                    } else if a == p {
                        assert(now[b] == prev[b - 1]);
                        assert(prev[b - 1] != x);
                        if b - 1 > p {
                            lemma_path_transitive(x, prev[p as int], prev[b - 1]);
                        }
                    } else if b < p {
                        assert(now[a] == prev[a] && now[b] == prev[b]);
                    } else if a < p && b > p {
                        assert(now[a] == prev[a] && now[b] == prev[b - 1]);
                    } else {
                        assert(now[a] == prev[a - 1] && now[b] == prev[b - 1]);
                    }
                }
                assert forall|y: Seq<char>| now.contains(y) <==> (prev.contains(y) || y == x) by {
                    if now.contains(y) {
                        let k = choose|k: int| 0 <= k < now.len() && now[k] == y;
                        if k < p {
                            assert(prev[k] == y);
                        } else if k > p {
                            assert(prev[k - 1] == y);
                        }
                    }
                    if prev.contains(y) {
                        let k = choose|k: int| 0 <= k < prev.len() && prev[k] == y;
                        if k < p {
                            assert(now[k] == y);
                        } else {
                            assert(now[k + 1] == y);
                        }
                    }
                    if y == x {
                        assert(now[p as int] == x);
                    }
                }
            }
        }
        proof {
            let old_t = string_views(v@.take(i as int));
            let t = string_views(v@.take(i + 1));
            assert forall|y: Seq<char>| t.contains(y) <==> (old_t.contains(y) || y == x) by {
                if t.contains(y) {
                    let k = choose|k: int| 0 <= k < t.len() && t[k] == y;
                    if k < i {
                        assert(old_t[k] == y);
                    }
                }
                if old_t.contains(y) {
                    let k = choose|k: int| 0 <= k < old_t.len() && old_t[k] == y;
                    assert(t[k] == y);
                }
                if y == x {
                    assert(t[i as int] == x);
                }
            }
        }
    }
    assert(v@.take(v@.len() as int) =~= v@);
    out
}

} // verus!

//! Renaming the files of a directory to a numbered sequence: sorted, then
//! `{base}{index}{.ext}` with the index zero-padded to a common width.

use vstd::prelude::*;
use crate::text::{
    decimal, pad_zeros, padded_decimal, chars_of, string_of, append_chars, rfind_char,
    lemma_rfind_char, digits_value, lemma_pad_value, lemma_decimal_value,
    lemma_decimal_len_monotonic, lemma_decimal_digits, str_eq, concat3,
};
use crate::paths::{extension, extension_chars, join_path, join_path_chars, strip_trailing, file_name, last_component};
use crate::sort::{sort_names, sorted_names};

verus! {

/// The width of the index field for `n` files: the number of digits of `n`.
pub open spec fn pad_width(n: nat) -> nat {
    decimal(n).len()
}

/// `.ext` for a path with an extension, nothing otherwise.
pub open spec fn ext_suffix(path: Seq<char>) -> Seq<char> {
    match extension(path) {
        Some(e) => "."@ + e,
        None => Seq::empty(),
    }
}

/// The new name of the file at position `i`.
pub open spec fn new_name(base: Seq<char>, i: nat, width: nat, old: Seq<char>) -> Seq<char> {
    base + pad_zeros(decimal(i), width) + ext_suffix(old)
}

/// The new path of the file at position `i` of a directory of `n` files.
pub open spec fn target(dir: Seq<char>, base: Seq<char>, i: nat, n: nat, old: Seq<char>) -> Seq<char> {
    join_path(dir, new_name(base, i, pad_width(n), old))
}

/// One file and the path it moves to.
pub struct Renaming {
    pub from: String,
    pub to: String,
}

pub open spec fn renaming_sources(r: Seq<Renaming>) -> Seq<String> {
    r.map_values(|x: Renaming| x.from)
}

/// The number of digits of `n`.
pub fn pad_len(n: usize) -> (r: usize)
    ensures
        r == pad_width(n as nat),
{
    let d = crate::text::decimal_chars(n as u64);
    d.len()
}

/// The new name of the file `old` at position `i`.
pub fn new_file_name(base: &str, i: usize, width: usize, old: &str) -> (r: Vec<char>)
    ensures
        r@ == new_name(base@, i as nat, width as nat, old@),
{
    let mut r = chars_of(base);
    let idx = padded_decimal(i as u64, width);
    append_chars(&mut r, idx.as_slice());
    let o = chars_of(old);
    match extension_chars(&o) {
        Some(e) => {
            proof {
                reveal_strlit(".");
            }
            r.push('.');
            append_chars(&mut r, e.as_slice());
            assert(r@ =~= new_name(base@, i as nat, width as nat, old@));
        },
        None => {
            assert(r@ =~= new_name(base@, i as nat, width as nat, old@));
        },
    }
    r
}

/// Sorts the entries of directory `dir` and gives each its new path.
pub fn plan(dir: &str, base: &str, entries: &Vec<String>) -> (out: Vec<Renaming>)
    ensures
        out@.len() == entries@.len(),
        sorted_names(renaming_sources(out@)),
        renaming_sources(out@).to_multiset() == entries@.to_multiset(),
        forall|i: int| 0 <= i < out@.len() ==> (#[trigger] out@[i]).to@ == target(
            dir@,
            base@,
            i as nat,
            entries@.len(),
            out@[i].from@,
        ),
{
    let sorted = sort_names(entries);
    proof {
        sorted@.to_multiset_ensures();
        entries@.to_multiset_ensures();
    }
    let width = pad_len(sorted.len());
    let d = chars_of(dir);
    let mut out: Vec<Renaming> = Vec::new();
    for i in 0..sorted.len()
        invariant
            sorted@.len() == entries@.len(),
            width == pad_width(entries@.len()),
            d@ == dir@,
            renaming_sources(out@) == sorted@.take(i as int),
            forall|k: int| 0 <= k < i ==> (#[trigger] out@[k]).to@ == target(
                dir@,
                base@,
                k as nat,
                entries@.len(),
                out@[k].from@,
            ),
    {
        let name = new_file_name(base, i, width, sorted[i].as_str());
        let to = join_path_chars(&d, &name);
        let ghost prev = out@;
        out.push(Renaming { from: sorted[i].clone(), to: string_of(to.as_slice()) });
        assert(renaming_sources(out@) =~= renaming_sources(prev).push(sorted@[i as int]));
        assert(sorted@.take(i + 1) =~= sorted@.take(i as int).push(sorted@[i as int]));
    }
    assert(sorted@.take(sorted@.len() as int) =~= sorted@);
    out
}

/// Decides a renaming run over directory `dir` from its listing (the
/// paths of its entries, or the reason it could not be read).
pub fn run(dir: &str, base_name: &str, listing: &Result<Vec<String>, String>) -> (r: Result<Vec<Renaming>, String>)
    ensures
        match listing {
            Err(e) => r is Err && r->Err_0@ == "error reading directory "@ + dir@ + ": "@ + e@,
            Ok(entries) => r matches Ok(out) && out@.len() == entries@.len()
                && sorted_names(renaming_sources(out@))
                && renaming_sources(out@).to_multiset() == entries@.to_multiset()
                && forall|i: int| 0 <= i < out@.len() ==> (#[trigger] out@[i]).to@ == target(
                    dir@,
                    base_name@,
                    i as nat,
                    entries@.len(),
                    out@[i].from@,
                ),
        },
{
    match listing {
        Err(e) => {
            let mut m = String::from_str("error reading directory ");
            m.append(dir);
            m.append(": ");
            m.append(e.as_str());
            Err(m)
        },
        Ok(entries) => Ok(plan(dir, base_name, entries)),
    }
}

/// Whether a rename may go ahead: the target must not already exist as
/// another file.
pub fn check_target(from: &str, to: &str, target_exists: bool) -> (r: Result<(), String>)
    ensures
        r is Err <==> (target_exists && to@ != from@),
        r is Err ==> r->Err_0@ == "collision: "@ + to@ + " already exists"@,
{
    if target_exists && !str_eq(to, from) {
        Err(concat3("collision: ", to, " already exists"))
    } else {
        Ok(())
    }
}

/// The index field of position `i` below `n` is exactly `pad_width(n)` wide
/// and denotes `i`.
pub proof fn lemma_index_field(i: nat, n: nat)
    requires
        i < n,
    ensures
        pad_zeros(decimal(i), pad_width(n)).len() == pad_width(n),
        digits_value(pad_zeros(decimal(i), pad_width(n))) == i,
{
    lemma_decimal_len_monotonic(i, n);
    lemma_pad_value(decimal(i), pad_width(n));
    lemma_decimal_value(i);
}

/// Law: the files of a directory get pairwise different new paths.
pub proof fn law_targets_distinct(
    dir: Seq<char>,
    base: Seq<char>,
    n: nat,
    i: nat,
    j: nat,
    old_i: Seq<char>,
    old_j: Seq<char>,
)
    requires
        i < n,
        j < n,
        i != j,
    ensures
        target(dir, base, i, n, old_i) != target(dir, base, j, n, old_j),
{
    let w = pad_width(n);
    let pi = pad_zeros(decimal(i), w);
    let pj = pad_zeros(decimal(j), w);
    lemma_index_field(i, n);
    lemma_index_field(j, n);
    let pre = if dir.len() == 0 || dir.last() == '/' { dir + base } else { dir + seq!['/'] + base };
    let ti = target(dir, base, i, n, old_i);
    let tj = target(dir, base, j, n, old_j);
    assert(ti =~= pre + pi + ext_suffix(old_i));
    assert(tj =~= pre + pj + ext_suffix(old_j));
    if ti == tj {
        assert(ti.subrange(pre.len() as int, (pre.len() + w) as int) =~= pi);
        assert(tj.subrange(pre.len() as int, (pre.len() + w) as int) =~= pj);
    }
}

proof fn lemma_rfind_append_without(a: Seq<char>, b: Seq<char>, c: char)
    requires
        forall|k: int| 0 <= k < b.len() ==> b[k] != c,
    ensures
        rfind_char(a + b, c) == rfind_char(a, c),
    decreases b.len(),
{
    if b.len() == 0 {
        assert(a + b =~= a);
    } else {
        assert((a + b).drop_last() =~= a + b.drop_last());
        lemma_rfind_append_without(a, b.drop_last(), c);
    }
}

/// Law: a file with an extension keeps it under its new name.
#[verifier::rlimit(40)]
pub proof fn law_extension_kept(dir: Seq<char>, base: Seq<char>, i: nat, n: nat, old: Seq<char>, e: Seq<char>)
    requires
        i < n,
        extension(old) == Some(e),
    ensures
        extension(target(dir, base, i, n, old)) == Some(e),
{
    reveal_strlit(".");
    let w = pad_width(n);
    let p = pad_zeros(decimal(i), w);
    lemma_index_field(i, n);
    lemma_decimal_len_monotonic(i, n);
    lemma_decimal_digits(i);
    // The extension holds no dot and no separator.
    let fname = file_name(old).unwrap();
    let q = strip_trailing(old);
    lemma_rfind_char(fname, '.');
    lemma_rfind_char(q, '/');
    assert forall|k: int| 0 <= k < e.len() implies e[k] != '.' && e[k] != '/' by {
        assert(e[k] == fname[rfind_char(fname, '.') + 1 + k]);
        assert(fname[rfind_char(fname, '.') + 1 + k] == q[rfind_char(q, '/') + 1 + rfind_char(fname, '.') + 1 + k]);
    }
    // Every character of the index field is a digit.
    assert forall|k: int| 0 <= k < p.len() implies '0' <= #[trigger] p[k] <= '9' by {
        if decimal(i).len() < w {
            let z = (w - decimal(i).len()) as int;
            if k >= z {
                assert(p[k] == decimal(i)[k - z]);
            }
        }
    }
    let pre = if dir.len() == 0 || dir.last() == '/' { dir + base } else { dir + seq!['/'] + base };
    let t = target(dir, base, i, n, old);
    let x = pre + p;
    assert(t =~= x.push('.') + e);
    assert(p.len() >= 1);
    // Nothing is stripped from the end of the path.
    if e.len() > 0 {
        assert(t.last() == e.last());
    } else {
        assert(t.last() == '.');
        assert(t[t.len() - 2] == p.last());
    }
    assert(strip_trailing(t) == t);
    // The final component starts after the last separator, before the field.
    let tail = p.push('.') + e;
    assert(t =~= pre + tail);
    assert forall|k: int| 0 <= k < tail.len() implies tail[k] != '/' by {
        if k < p.len() {
            assert(tail[k] == p[k]);
        } else if k > p.len() {
            assert(tail[k] == e[k - p.len() - 1]);
        }
    }
    lemma_rfind_append_without(pre, tail, '/');
    lemma_rfind_char(pre, '/');
    let r = rfind_char(pre, '/');
    let c = t.skip(r + 1);
    assert(last_component(t) == c);
    assert(c =~= (pre.skip(r + 1) + p).push('.') + e);
    assert(c.len() > e.len() + 1);
    let cp = c[c.len() - e.len() - 2];
    assert(cp == p.last());
    assert(c != seq!['.'] && c != seq!['.', '.']);
    assert(file_name(t) == Some(c));
    lemma_rfind_append_without((pre.skip(r + 1) + p).push('.'), e, '.');
    assert(rfind_char((pre.skip(r + 1) + p).push('.'), '.') == c.len() - e.len() - 1);
    assert(c.skip(c.len() - e.len()) =~= e);
}

} // verus!

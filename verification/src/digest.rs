//! The git digest: per-author summaries of the commits found, the grouping
//! of the chosen authors' commits by author and repository, and the
//! renderings of that grouping for the terminal and as Markdown.

use vstd::prelude::*;
use crate::text::{lex_le, str_le, str_eq, string_views, lemma_lex_total, lemma_lex_transitive, lemma_lex_antisymmetric};
use crate::git::Commit;
use crate::sort::{sort_names, sorted_names};
use crate::copy_clean::list_contains;
use crate::path_order::{paths_sorted, sorted_unique_paths};

verus! {

broadcast use vstd::multiset::group_multiset_axioms, vstd::seq_lib::group_to_multiset_ensures;

/// A copy of a commit.
pub fn copy_commit(c: &Commit) -> (r: Commit)
    ensures
        r == *c,
{
    Commit {
        hash: c.hash.clone(),
        email: c.email.clone(),
        author_name: c.author_name.clone(),
        subject: c.subject.clone(),
        date: c.date,
        repo: c.repo.clone(),
    }
}

/// The commits of one author, in order.
pub open spec fn commits_by(cs: Seq<Commit>, email: Seq<char>) -> Seq<Commit>
    decreases cs.len(),
{
    if cs.len() == 0 {
        Seq::empty()
    } else {
        let rest = commits_by(cs.drop_last(), email);
        if cs.last().email@ == email {
            rest.push(cs.last())
        } else {
            rest
        }
    }
}

/// The repositories of some commits, each once, in order of first appearance.
pub open spec fn distinct_repos(cs: Seq<Commit>) -> Seq<Seq<char>>
    decreases cs.len(),
{
    if cs.len() == 0 {
        Seq::empty()
    } else {
        let rest = distinct_repos(cs.drop_last());
        if rest.contains(cs.last().repo@) {
            rest
        } else {
            rest.push(cs.last().repo@)
        }
    }
}

/// What the author selection shows of one author.
pub struct AuthorSummary {
    pub email: String,
    pub name: String,
    pub commit_count: usize,
    pub repo_count: usize,
}

/// Whether `s` summarizes the commits of its author among `cs`: the name of
/// the author's first commit, the number of commits and of repositories.
pub open spec fn summarizes(s: AuthorSummary, cs: Seq<Commit>) -> bool {
    let mine = commits_by(cs, s.email@);
    &&& mine.len() > 0
    &&& s.name@ == mine[0].author_name@
    &&& s.commit_count == mine.len()
    &&& s.repo_count == distinct_repos(mine).len()
}

/// The summaries of all authors of `cs`: one per author e-mail.
pub open spec fn summaries_of(ss: Seq<AuthorSummary>, cs: Seq<Commit>) -> bool {
    &&& forall|j: int| 0 <= j < ss.len() ==> summarizes(#[trigger] ss[j], cs)
    &&& forall|j: int, k: int| 0 <= j < k < ss.len() ==> (#[trigger] ss[j]).email@ != (#[trigger] ss[k]).email@
    &&& forall|i: int| 0 <= i < cs.len() ==> exists|j: int| 0 <= j < ss.len() && (#[trigger] ss[j]).email@ == (#[trigger] cs[i]).email@
}

proof fn lemma_commits_by_push(cs: Seq<Commit>, c: Commit, email: Seq<char>)
    ensures
        commits_by(cs.push(c), email) == if c.email@ == email { commits_by(cs, email).push(c) } else { commits_by(cs, email) },
{
    assert(cs.push(c).drop_last() =~= cs);
}

proof fn lemma_distinct_repos_push(cs: Seq<Commit>, c: Commit)
    ensures
        distinct_repos(cs.push(c)) == if distinct_repos(cs).contains(c.repo@) { distinct_repos(cs) } else { distinct_repos(cs).push(c.repo@) },
{
    assert(cs.push(c).drop_last() =~= cs);
}

/// The position of the summary of `email`, if there is one.
fn find_summary(ss: &Vec<AuthorSummary>, email: &str) -> (r: Option<usize>)
    ensures
        match r {
            Some(j) => j < ss@.len() && ss@[j as int].email@ == email@,
            None => forall|j: int| 0 <= j < ss@.len() ==> (#[trigger] ss@[j]).email@ != email@,
        },
{
    for j in 0..ss.len()
        invariant
            forall|k: int| 0 <= k < j ==> (#[trigger] ss@[k]).email@ != email@,
    {
        if str_eq(ss[j].email.as_str(), email) {
            return Some(j);
        }
    }
    None
}

/// Summarizes the commits by author, in order of first appearance.
#[verifier::spinoff_prover]
fn summarize_in_order(cs: &Vec<Commit>) -> (out: Vec<AuthorSummary>)
    ensures
        summaries_of(out@, cs@),
{
    let mut ss: Vec<AuthorSummary> = Vec::new();
    let mut repos: Vec<Vec<String>> = Vec::new();
    for i in 0..cs.len()
        invariant
            repos@.len() == ss@.len(),
            summaries_of(ss@, cs@.take(i as int)),
            forall|j: int| 0 <= j < ss@.len() ==> string_views(#[trigger] repos@[j]@) == distinct_repos(commits_by(cs@.take(i as int), ss@[j].email@)),
    {
        let c = &cs[i];
        let ghost before = cs@.take(i as int);
        assert(cs@.take(i + 1) =~= before.push(*c));
        proof {
            assert forall|e: Seq<char>| true implies commits_by(cs@.take(i + 1), e) == if c.email@ == e { commits_by(before, e).push(*c) } else { commits_by(before, e) } by {
                lemma_commits_by_push(before, *c, e);
            }
        }
        match find_summary(&ss, c.email.as_str()) {
            Some(j) => {
                let ghost old_ss = ss@;
                let ghost old_repos = repos@;
                let mut rl = repos[j].clone();
                let present = list_contains(&rl, c.repo.as_str());
                proof {
                    lemma_distinct_repos_push(commits_by(before, c.email@), *c);
                }
                if !present {
                    let ghost prev = rl@;
                    rl.push(c.repo.clone());
                    assert(string_views(rl@) =~= string_views(prev).push(c.repo@));
                }
                proof {
                    assert(summarizes(old_ss[j as int], before));
                    lemma_commits_by_len(before, c.email@);
                }
                let count = ss[j].commit_count;
                let rc = rl.len();
                let s = AuthorSummary {
                    email: ss[j].email.clone(),
                    name: ss[j].name.clone(),
                    commit_count: count + 1,
                    repo_count: rc,
                };
                ss.set(j, s);
                repos.set(j, rl);
                proof {
                    let now = cs@.take(i + 1);
                    assert forall|k: int| 0 <= k < ss@.len() implies summarizes(#[trigger] ss@[k], now) by {
                        if k != j {
                            assert(ss@[k] == old_ss[k]);
                            assert(summarizes(old_ss[k], before));
                            assert(old_ss[k].email@ != c.email@);
                        } else {
                            assert(summarizes(old_ss[k], before));
                        }
                    }
                    assert forall|k: int| 0 <= k < ss@.len() implies string_views(#[trigger] repos@[k]@) == distinct_repos(commits_by(now, ss@[k].email@)) by {
                        if k != j {
                            assert(repos@[k] == old_repos[k]);
                            assert(old_ss[k].email@ != c.email@);
                        }
                    }
                    assert forall|a: int, b: int| 0 <= a < b < ss@.len() implies (#[trigger] ss@[a]).email@ != (#[trigger] ss@[b]).email@ by {
                        assert(ss@[a].email@ == old_ss[a].email@);
                        assert(ss@[b].email@ == old_ss[b].email@);
                    }
                    assert forall|x: int| 0 <= x < now.len() implies exists|y: int| 0 <= y < ss@.len() && (#[trigger] ss@[y]).email@ == (#[trigger] now[x]).email@ by {
                        if x < before.len() {
                            assert(now[x] == before[x]);
                            let y = choose|y: int| 0 <= y < old_ss.len() && (#[trigger] old_ss[y]).email@ == (#[trigger] before[x]).email@;
                            assert(ss@[y].email@ == old_ss[y].email@);
                        } else {
                            assert(ss@[j as int].email@ == now[x].email@);
                        }
                    }
                }
            },
            None => {
                let ghost old_ss = ss@;
                let ghost old_repos = repos@;
                let mut rl: Vec<String> = Vec::new();
                rl.push(c.repo.clone());
                ss.push(AuthorSummary {
                    email: c.email.clone(),
                    name: c.author_name.clone(),
                    commit_count: 1,
                    repo_count: 1,
                });
                repos.push(rl);
                proof {
                    let now = cs@.take(i + 1);
                    let e = c.email@;
                    assert forall|x: int| 0 <= x < before.len() implies (#[trigger] before[x]).email@ != e by {
                        let y = choose|y: int| 0 <= y < old_ss.len() && (#[trigger] old_ss[y]).email@ == (#[trigger] before[x]).email@;
                    }
                    lemma_commits_by_absent(before, e);
                    assert(commits_by(now, e) =~= seq![*c]);
                    lemma_distinct_repos_push(Seq::<Commit>::empty(), *c);
                    assert(Seq::<Commit>::empty().push(*c) =~= seq![*c]);
                    assert(distinct_repos(Seq::<Commit>::empty()) =~= Seq::<Seq<char>>::empty());
                    assert forall|k: int| 0 <= k < ss@.len() implies summarizes(#[trigger] ss@[k], now) by {
                        if k < old_ss.len() {
                            assert(ss@[k] == old_ss[k]);
                            assert(summarizes(old_ss[k], before));
                            assert(old_ss[k].email@ != e);
                        }
                    }
                    assert forall|k: int| 0 <= k < ss@.len() implies string_views(#[trigger] repos@[k]@) == distinct_repos(commits_by(now, ss@[k].email@)) by {
                        if k < old_ss.len() {
                            assert(repos@[k] == old_repos[k]);
                            assert(old_ss[k].email@ != e);
                        } else {
                            assert(string_views(repos@[k]@) =~= seq![c.repo@]);
                        }
                    }
                    assert forall|x: int| 0 <= x < now.len() implies exists|y: int| 0 <= y < ss@.len() && (#[trigger] ss@[y]).email@ == (#[trigger] now[x]).email@ by {
                        if x < before.len() {
                            assert(now[x] == before[x]);
                            let y = choose|y: int| 0 <= y < old_ss.len() && (#[trigger] old_ss[y]).email@ == (#[trigger] before[x]).email@;
                            assert(ss@[y] == old_ss[y]);
                        } else {
                            assert(ss@[old_ss.len() as int].email@ == now[x].email@);
                        }
                    }
                }
            },
        }
    }
    assert(cs@.take(cs@.len() as int) =~= cs@);
    ss
}

/// The summaries are in non-decreasing order of author name.
pub open spec fn sorted_by_name(ss: Seq<AuthorSummary>) -> bool {
    forall|a: int, b: int| 0 <= a < b < ss.len() ==> lex_le((#[trigger] ss[a]).name@, (#[trigger] ss[b]).name@)
}

/// Summarizes the commits by author: one summary per author e-mail, with
/// the name of the author's first commit and the number of the author's
/// commits and repositories, sorted by name.
#[verifier::spinoff_prover]
pub fn summarize(cs: &Vec<Commit>) -> (out: Vec<AuthorSummary>)
    ensures
        summaries_of(out@, cs@),
        sorted_by_name(out@),
{
    let ss = summarize_in_order(cs);
    let mut out: Vec<AuthorSummary> = Vec::new();
    for i in 0..ss.len()
        invariant
            summaries_of(ss@, cs@),
            sorted_by_name(out@),
            out@.len() == i,
            forall|a: int, b: int| 0 <= a < b < out@.len() ==> (#[trigger] out@[a]).email@ != (#[trigger] out@[b]).email@,
            forall|a: int| 0 <= a < out@.len() ==> ss@.take(i as int).contains(#[trigger] out@[a]),
            forall|k: int| 0 <= k < i ==> out@.contains(#[trigger] ss@[k]),
    {
        let x = AuthorSummary {
            email: ss[i].email.clone(),
            name: ss[i].name.clone(),
            commit_count: ss[i].commit_count,
            repo_count: ss[i].repo_count,
        };
        assert(x == ss@[i as int]);
        let mut p: usize = 0;
        while p < out.len() && str_le(out[p].name.as_str(), x.name.as_str())
            invariant
                p <= out.len(),
                forall|k: int| 0 <= k < p ==> lex_le((#[trigger] out@[k]).name@, x.name@),
            decreases out.len() - p,
        {
            p = p + 1;
        }
        let ghost old_out = out@;
        proof {
            if p < old_out.len() {
                lemma_lex_total(old_out[p as int].name@, x.name@);
            }
            assert forall|a: int| 0 <= a < old_out.len() implies (#[trigger] old_out[a]).email@ != x.email@ by {
                assert(ss@.take(i as int).contains(old_out[a]));
                let k = choose|k: int| 0 <= k < i && ss@.take(i as int)[k] == old_out[a];
                assert(ss@[k] == old_out[a]);
            }
        }
        out.insert(p, x);
        proof {
            assert forall|a: int, b: int| 0 <= a < b < out@.len() implies lex_le((#[trigger] out@[a]).name@, (#[trigger] out@[b]).name@) by {
                if a < p && b == p {
                } else if a == p {
                    if b - 1 > p {
                        lemma_lex_transitive(x.name@, old_out[p as int].name@, old_out[b - 1].name@);
                    }
                } else if a < p && b > p {
                    lemma_lex_total(old_out[p as int].name@, x.name@);
                    lemma_lex_transitive(old_out[a].name@, x.name@, old_out[p as int].name@);
                    if b - 1 > p {
                        lemma_lex_transitive(old_out[a].name@, old_out[p as int].name@, old_out[b - 1].name@);
                    }
                }
            }
            assert forall|a: int, b: int| 0 <= a < b < out@.len() implies (#[trigger] out@[a]).email@ != (#[trigger] out@[b]).email@ by {
                if a < p && b == p {
                } else if a == p {
                    assert(out@[b] == old_out[b - 1]);
                } else if a < p && b > p {
                    assert(out@[b] == old_out[b - 1]);
                } else if a > p {
                    assert(out@[a] == old_out[a - 1]);
                    assert(out@[b] == old_out[b - 1]);
                }
            }
            let t = ss@.take(i + 1);
            assert forall|a: int| 0 <= a < out@.len() implies t.contains(#[trigger] out@[a]) by {
                if a == p {
                    assert(out@[a] == t[i as int]);
                } else {
                    let o = if a < p { a } else { a - 1 };
                    assert(out@[a] == old_out[o]);
                    assert(ss@.take(i as int).contains(old_out[o]));
                    let k = choose|k: int| 0 <= k < i && ss@.take(i as int)[k] == old_out[o];
                    assert(t[k] == out@[a]);
                }
            }
            assert forall|k: int| 0 <= k < i + 1 implies out@.contains(#[trigger] ss@[k]) by {
                if k == i {
                    assert(out@[p as int] == ss@[k]);
                } else {
                    assert(old_out.contains(ss@[k]));
                    let a = choose|a: int| 0 <= a < old_out.len() && old_out[a] == ss@[k];
                    if a < p {
                        assert(out@[a] == ss@[k]);
                    } else {
                        assert(out@[a + 1] == ss@[k]);
                    }
                }
            }
        }
    }
    proof {
        assert(ss@.take(ss@.len() as int) =~= ss@);
        assert forall|j: int| 0 <= j < out@.len() implies summarizes(#[trigger] out@[j], cs@) by {
            assert(ss@.contains(out@[j]));
            let k = choose|k: int| 0 <= k < ss@.len() && ss@[k] == out@[j];
            assert(summarizes(ss@[k], cs@));
        }
        assert forall|x: int| 0 <= x < cs@.len() implies exists|j: int| 0 <= j < out@.len() && (#[trigger] out@[j]).email@ == (#[trigger] cs@[x]).email@ by {
            let k = choose|k: int| 0 <= k < ss@.len() && (#[trigger] ss@[k]).email@ == (#[trigger] cs@[x]).email@;
            assert(out@.contains(ss@[k]));
            let a = choose|a: int| 0 <= a < out@.len() && out@[a] == ss@[k];
            assert(out@[a].email@ == cs@[x].email@);
        }
    }
    out
}

/// `a` comes strictly before `b`.
pub open spec fn lex_lt(a: Seq<char>, b: Seq<char>) -> bool {
    lex_le(a, b) && a != b
}

/// The names are in strictly increasing order.
pub open spec fn strictly_sorted(s: Seq<Seq<char>>) -> bool {
    forall|a: int, b: int| 0 <= a < b < s.len() ==> lex_lt(#[trigger] s[a], #[trigger] s[b])
}

/// The distinct values of a list of strings, in increasing order.
#[verifier::spinoff_prover]
pub fn sorted_unique(v: &Vec<String>) -> (out: Vec<String>)
    ensures
        strictly_sorted(string_views(out@)),
        forall|x: Seq<char>| string_views(out@).contains(x) <==> string_views(v@).contains(x),
{
    let sorted = sort_names(v);
    let mut out: Vec<String> = Vec::new();
    proof {
        assert forall|x: String| sorted@.contains(x) <==> v@.contains(x) by {
            assert(sorted@.to_multiset().count(x) == v@.to_multiset().count(x));
        }
    }
    for i in 0..sorted.len()
        invariant
            sorted_names(sorted@),
            forall|x: String| sorted@.contains(x) <==> v@.contains(x),
            strictly_sorted(string_views(out@)),
            out@.len() > 0 ==> out@.last()@ == sorted@[i - 1]@,
            i > 0 ==> out@.len() > 0,
            i == 0 ==> out@.len() == 0,
            forall|x: Seq<char>| string_views(out@).contains(x) <==> string_views(sorted@.take(i as int)).contains(x),
    {
        let ghost prev = out@;
        let n = out.len();
        if n == 0 || !str_eq(out[n - 1].as_str(), sorted[i].as_str()) {
            proof {
                if n > 0 {
                    assert(lex_le(sorted@[i - 1]@, sorted@[i as int]@));
                    assert forall|a: int| 0 <= a < n implies lex_lt(#[trigger] string_views(prev)[a], sorted@[i as int]@) by {
                        if a < n - 1 {
                            assert(lex_lt(string_views(prev)[a], string_views(prev)[n - 1]));
                            lemma_lex_transitive(string_views(prev)[a], string_views(prev)[n - 1], sorted@[i as int]@);
                            if string_views(prev)[a] == sorted@[i as int]@ {
                                lemma_lex_antisymmetric(string_views(prev)[a], string_views(prev)[n - 1]);
                            }
                        }
                    }
                }
            }
            out.push(sorted[i].clone());
            proof {
                assert(string_views(out@) =~= string_views(prev).push(sorted@[i as int]@));
            }
        }
        proof {
            let now = string_views(sorted@.take(i + 1));
            assert(now =~= string_views(sorted@.take(i as int)).push(sorted@[i as int]@));
            assert forall|x: Seq<char>| string_views(out@).contains(x) <==> now.contains(x) by {
                if now.contains(x) {
                    let k = choose|k: int| 0 <= k < now.len() && now[k] == x;
                    if k < i {
                        assert(string_views(sorted@.take(i as int))[k] == x);
                        assert(string_views(sorted@.take(i as int)).contains(x));
                        if !string_views(prev).contains(x) {
                            assert(false);
                        }
                        let j = choose|j: int| 0 <= j < prev.len() && string_views(prev)[j] == x;
                        assert(string_views(out@)[j] == x);
                    } else {
                        assert(out@.last()@ == sorted@[i as int]@);
                        assert(string_views(out@)[out@.len() - 1] == out@[out@.len() - 1]@);
                        assert(string_views(out@)[out@.len() - 1] == x);
                    }
                }
                if string_views(out@).contains(x) {
                    let k = choose|k: int| 0 <= k < out@.len() && string_views(out@)[k] == x;
                    if k < prev.len() {
                        assert(string_views(prev)[k] == x);
                        assert(string_views(prev).contains(x));
                        assert(string_views(sorted@.take(i as int)).contains(x));
                        let j = choose|j: int| 0 <= j < i && string_views(sorted@.take(i as int))[j] == x;
                        assert(now[j] == x);
                    } else {
                        assert(out@[k] == sorted@[i as int]);
                        assert(now[i as int] == x);
                    }
                    assert(now.contains(x));
                }
            }
        }
    }
    proof {
        assert(sorted@.take(sorted@.len() as int) =~= sorted@);
        assert forall|x: Seq<char>| string_views(sorted@).contains(x) <==> string_views(v@).contains(x) by {
            if string_views(sorted@).contains(x) {
                let k = choose|k: int| 0 <= k < sorted@.len() && string_views(sorted@)[k] == x;
                assert(sorted@.contains(sorted@[k]));
                assert(v@.contains(sorted@[k]));
                let j = choose|j: int| 0 <= j < v@.len() && v@[j] == sorted@[k];
                assert(string_views(v@)[j] == x);
            }
            if string_views(v@).contains(x) {
                let k = choose|k: int| 0 <= k < v@.len() && string_views(v@)[k] == x;
                assert(v@.contains(v@[k]));
                assert(sorted@.contains(v@[k]));
                let j = choose|j: int| 0 <= j < sorted@.len() && sorted@[j] == v@[k];
                assert(string_views(sorted@)[j] == x);
            }
        }
    }
    out
}

/// The commits of one author in one repository, in order.
pub open spec fn commits_in(cs: Seq<Commit>, email: Seq<char>, repo: Seq<char>) -> Seq<Commit>
    decreases cs.len(),
{
    if cs.len() == 0 {
        Seq::empty()
    } else {
        let rest = commits_in(cs.drop_last(), email, repo);
        if cs.last().email@ == email && cs.last().repo@ == repo {
            rest.push(cs.last())
        } else {
            rest
        }
    }
}

/// The commits of one repository.
pub struct RepoCommits {
    pub repo: String,
    pub commits: Vec<Commit>,
}

/// The commits of one author, by repository.
pub struct AuthorGroup {
    pub email: String,
    pub repos: Vec<RepoCommits>,
}

/// The commits of the chosen authors, by author and repository.
///
/// Built only by `group_commits`: the authors come in strictly increasing
/// order of e-mail, each author's repositories in strictly increasing path
/// order, and every repository holds commits.
pub struct AuthorGroups {
    pub(crate) authors: Vec<AuthorGroup>,
}

/// Authors in strictly increasing e-mail order, each author's repositories
/// in strictly increasing path order, each repository with commits.
pub open spec fn well_ordered(a: Seq<AuthorGroup>) -> bool {
    &&& strictly_sorted(group_emails(a))
    &&& forall|i: int| 0 <= i < a.len() ==> paths_sorted(group_repos((#[trigger] a[i]).repos@))
    &&& forall|i: int, r: int| 0 <= i < a.len() && 0 <= r < a[i].repos@.len()
        ==> (#[trigger] a[i].repos@[r]).commits@.len() > 0
}

impl AuthorGroups {
    #[verifier::type_invariant]
    spec fn ordered(self) -> bool {
        well_ordered(self.authors@)
    }

    /// The groups as plain values: author by author.
    pub closed spec fn groups(self) -> Seq<AuthorGroup> {
        self.authors@
    }

    /// The groups, author by author.
    pub fn authors(&self) -> (r: &Vec<AuthorGroup>)
        ensures
            r@ == self.groups(),
            well_ordered(r@),
    {
        proof {
            use_type_invariant(self);
        }
        &self.authors
    }
}

pub open spec fn group_emails(g: Seq<AuthorGroup>) -> Seq<Seq<char>> {
    g.map_values(|a: AuthorGroup| a.email@)
}

pub open spec fn group_repos(r: Seq<RepoCommits>) -> Seq<Seq<char>> {
    r.map_values(|x: RepoCommits| x.repo@)
}

/// Whether `a` holds, repository by repository in increasing path order,
/// the non-empty lists of its author's commits among `cs`.
pub open spec fn author_group_of(a: AuthorGroup, cs: Seq<Commit>) -> bool {
    &&& paths_sorted(group_repos(a.repos@))
    &&& forall|r: int| 0 <= r < a.repos@.len() ==> (#[trigger] a.repos@[r]).commits@ == commits_in(cs, a.email@, a.repos@[r].repo@)
        && a.repos@[r].commits@.len() > 0
    &&& forall|i: int| 0 <= i < cs.len() && (#[trigger] cs[i]).email@ == a.email@ ==> group_repos(a.repos@).contains(cs[i].repo@)
}

/// Whether some commit of `cs` has the author e-mail `e`.
pub open spec fn authored_in(cs: Seq<Commit>, e: Seq<char>) -> bool {
    exists|i: int| 0 <= i < cs.len() && (#[trigger] cs[i]).email@ == e
}

/// Whether `g` groups the commits of `cs` whose author is selected: authors
/// in increasing order of e-mail, each author once, each of them the author
/// of some commit of `cs`.
pub open spec fn groups_of(g: AuthorGroups, cs: Seq<Commit>, selected: Seq<Seq<char>>) -> bool {
    &&& strictly_sorted(group_emails(g.groups()))
    &&& forall|a: int| 0 <= a < g.groups().len() ==> selected.contains((#[trigger] g.groups()[a]).email@)
        && author_group_of(g.groups()[a], cs)
    &&& forall|i: int| 0 <= i < cs.len() && selected.contains((#[trigger] cs[i]).email@) ==> group_emails(g.groups()).contains(cs[i].email@)
    &&& forall|a: int| 0 <= a < g.groups().len() ==> authored_in(cs, (#[trigger] g.groups()[a]).email@)
}

proof fn lemma_commits_in_nonempty(cs: Seq<Commit>, e: Seq<char>, r: Seq<char>, i: int)
    requires
        0 <= i < cs.len(),
        cs[i].email@ == e,
        cs[i].repo@ == r,
    ensures
        commits_in(cs, e, r).len() > 0,
    decreases cs.len(),
{
    if i < cs.len() - 1 {
        lemma_commits_in_nonempty(cs.drop_last(), e, r, i);
    }
}

/// The commits of `email` in `repo`.
pub fn select_commits(cs: &Vec<Commit>, email: &str, repo: &str) -> (out: Vec<Commit>)
    ensures
        out@ == commits_in(cs@, email@, repo@),
{
    let mut out: Vec<Commit> = Vec::new();
    for i in 0..cs.len()
        invariant
            out@ == commits_in(cs@.take(i as int), email@, repo@),
    {
        assert(cs@.take(i + 1).drop_last() =~= cs@.take(i as int));
        if str_eq(cs[i].email.as_str(), email) && str_eq(cs[i].repo.as_str(), repo) {
            out.push(copy_commit(&cs[i]));
        }
    }
    assert(cs@.take(cs@.len() as int) =~= cs@);
    out
}

/// Groups the commits of one author by repository.
#[verifier::spinoff_prover]
pub fn group_author(cs: &Vec<Commit>, email: &str) -> (g: AuthorGroup)
    ensures
        g.email@ == email@,
        author_group_of(g, cs@),
{
    let mut repos: Vec<String> = Vec::new();
    for i in 0..cs.len()
        invariant
            forall|x: Seq<char>| string_views(repos@).contains(x) <==> exists|k: int| 0 <= k < i && (#[trigger] cs@[k]).email@ == email@ && cs@[k].repo@ == x,
    {
        let ghost prev = repos@;
        if str_eq(cs[i].email.as_str(), email) {
            repos.push(cs[i].repo.clone());
            assert(string_views(repos@) =~= string_views(prev).push(cs@[i as int].repo@));
        } else {
            assert(repos@ == prev);
        }
        proof {
            assert forall|x: Seq<char>| string_views(repos@).contains(x) <==> exists|k: int| 0 <= k < i + 1 && (#[trigger] cs@[k]).email@ == email@ && cs@[k].repo@ == x by {
                if string_views(repos@).contains(x) {
                    let j = choose|j: int| 0 <= j < repos@.len() && string_views(repos@)[j] == x;
                    if j < prev.len() {
                        assert(string_views(prev)[j] == x);
                        assert(string_views(prev).contains(x));
                    }
                }
                if exists|k: int| 0 <= k < i + 1 && (#[trigger] cs@[k]).email@ == email@ && cs@[k].repo@ == x {
                    let k = choose|k: int| 0 <= k < i + 1 && (#[trigger] cs@[k]).email@ == email@ && cs@[k].repo@ == x;
                    if k < i {
                        assert(string_views(prev).contains(x));
                        let j = choose|j: int| 0 <= j < prev.len() && string_views(prev)[j] == x;
                        assert(string_views(repos@)[j] == x);
                    } else {
                        assert(string_views(repos@)[repos@.len() - 1] == x);
                    }
                }
            }
        }
    }
    let keys = sorted_unique_paths(&repos);
    let mut out: Vec<RepoCommits> = Vec::new();
    for j in 0..keys.len()
        invariant
            forall|x: Seq<char>| string_views(keys@).contains(x) <==> string_views(repos@).contains(x),
            forall|x: Seq<char>| string_views(repos@).contains(x) <==> exists|k: int| 0 <= k < cs@.len() && (#[trigger] cs@[k]).email@ == email@ && cs@[k].repo@ == x,
            out@.len() == j,
            forall|r: int| 0 <= r < j ==> (#[trigger] out@[r]).repo@ == keys@[r]@,
            forall|r: int| 0 <= r < out@.len() ==> (#[trigger] out@[r]).commits@ == commits_in(cs@, email@, out@[r].repo@)
                && out@[r].commits@.len() > 0,
    {
        let r = keys[j].clone();
        proof {
            assert(string_views(keys@)[j as int] == keys@[j as int]@);
            assert(string_views(keys@).contains(r@));
            let k = choose|k: int| 0 <= k < cs@.len() && (#[trigger] cs@[k]).email@ == email@ && cs@[k].repo@ == r@;
            lemma_commits_in_nonempty(cs@, email@, r@, k);
        }
        let commits = select_commits(cs, email, r.as_str());
        out.push(RepoCommits { repo: r, commits });
    }
    proof {
        assert(group_repos(out@) =~= string_views(keys@));
        assert forall|i: int| 0 <= i < cs@.len() && (#[trigger] cs@[i]).email@ == email@ implies group_repos(out@).contains(cs@[i].repo@) by {
            assert(string_views(repos@).contains(cs@[i].repo@));
        }
    }
    AuthorGroup { email: String::from_str(email), repos: out }
}

/// Groups the commits whose author is in `selected` by author and
/// repository.
#[verifier::spinoff_prover]
pub fn group_commits(cs: &Vec<Commit>, selected: &Vec<String>) -> (g: AuthorGroups)
    ensures
        groups_of(g, cs@, string_views(selected@)),
        well_ordered(g.groups()),
{
    let mut emails: Vec<String> = Vec::new();
    for i in 0..cs.len()
        invariant
            forall|x: Seq<char>| string_views(emails@).contains(x) <==> exists|k: int| 0 <= k < i
                && string_views(selected@).contains((#[trigger] cs@[k]).email@) && cs@[k].email@ == x,
    {
        let ghost prev = emails@;
        if list_contains(selected, cs[i].email.as_str()) {
            emails.push(cs[i].email.clone());
            assert(string_views(emails@) =~= string_views(prev).push(cs@[i as int].email@));
        } else {
            assert(emails@ == prev);
        }
        proof {
            assert forall|x: Seq<char>| string_views(emails@).contains(x) <==> exists|k: int| 0 <= k < i + 1
                && string_views(selected@).contains((#[trigger] cs@[k]).email@) && cs@[k].email@ == x by {
                if string_views(emails@).contains(x) {
                    let j = choose|j: int| 0 <= j < emails@.len() && string_views(emails@)[j] == x;
                    if j < prev.len() {
                        assert(string_views(prev)[j] == x);
                        assert(string_views(prev).contains(x));
                    }
                }
                if exists|k: int| 0 <= k < i + 1 && string_views(selected@).contains((#[trigger] cs@[k]).email@) && cs@[k].email@ == x {
                    let k = choose|k: int| 0 <= k < i + 1 && string_views(selected@).contains((#[trigger] cs@[k]).email@) && cs@[k].email@ == x;
                    if k < i {
                        assert(string_views(prev).contains(x));
                        let j = choose|j: int| 0 <= j < prev.len() && string_views(prev)[j] == x;
                        assert(string_views(emails@)[j] == x);
                    } else {
                        assert(string_views(emails@)[emails@.len() - 1] == x);
                    }
                }
            }
        }
    }
    let keys = sorted_unique(&emails);
    let mut authors: Vec<AuthorGroup> = Vec::new();
    for j in 0..keys.len()
        invariant
            forall|x: Seq<char>| string_views(keys@).contains(x) <==> string_views(emails@).contains(x),
            forall|x: Seq<char>| string_views(emails@).contains(x) <==> exists|k: int| 0 <= k < cs@.len()
                && string_views(selected@).contains((#[trigger] cs@[k]).email@) && cs@[k].email@ == x,
            authors@.len() == j,
            forall|a: int| 0 <= a < j ==> (#[trigger] authors@[a]).email@ == keys@[a]@,
            forall|a: int| 0 <= a < authors@.len() ==> string_views(selected@).contains((#[trigger] authors@[a]).email@)
                && author_group_of(authors@[a], cs@),
            forall|a: int| 0 <= a < authors@.len() ==> authored_in(cs@, (#[trigger] authors@[a]).email@),
    {
        proof {
            assert(string_views(keys@)[j as int] == keys@[j as int]@);
            assert(string_views(keys@).contains(keys@[j as int]@));
            let k = choose|k: int| 0 <= k < cs@.len() && string_views(selected@).contains((#[trigger] cs@[k]).email@) && cs@[k].email@ == keys@[j as int]@;
        }
        let a = group_author(cs, keys[j].as_str());
        authors.push(a);
    }
    proof {
        assert(group_emails(authors@) =~= string_views(keys@));
        assert forall|i: int| 0 <= i < cs@.len() && string_views(selected@).contains((#[trigger] cs@[i]).email@) implies group_emails(authors@).contains(cs@[i].email@) by {
            assert(string_views(emails@).contains(cs@[i].email@));
        }
        assert forall|i: int| 0 <= i < authors@.len() implies paths_sorted(group_repos((#[trigger] authors@[i]).repos@)) by {
            assert(author_group_of(authors@[i], cs@));
        }
        assert forall|i: int, r: int| 0 <= i < authors@.len() && 0 <= r < authors@[i].repos@.len()
            implies (#[trigger] authors@[i].repos@[r]).commits@.len() > 0 by {
            assert(author_group_of(authors@[i], cs@));
        }
    }
    let ghost av = authors@;
    let out = AuthorGroups { authors };
    assert(out.groups() == av);
    out
}

/// The number of commits the summaries count, in all.
pub open spec fn counted(ss: Seq<AuthorSummary>) -> int
    decreases ss.len(),
{
    if ss.len() == 0 {
        0
    } else {
        counted(ss.drop_last()) + ss.last().commit_count
    }
}

/// The number of commits of the authors `es`, in all.
spec fn commits_of_all(es: Seq<Seq<char>>, cs: Seq<Commit>) -> int
    decreases es.len(),
{
    if es.len() == 0 {
        0
    } else {
        commits_of_all(es.drop_last(), cs) + commits_by(cs, es.last()).len()
    }
}

/// How many of `es` are `e`.
spec fn occurrences(es: Seq<Seq<char>>, e: Seq<char>) -> int
    decreases es.len(),
{
    if es.len() == 0 {
        0
    } else {
        occurrences(es.drop_last(), e) + if es.last() == e { 1int } else { 0int }
    }
}

proof fn lemma_commits_of_all_push(es: Seq<Seq<char>>, cs: Seq<Commit>, c: Commit)
    ensures
        commits_of_all(es, cs.push(c)) == commits_of_all(es, cs) + occurrences(es, c.email@),
    decreases es.len(),
{
    if es.len() > 0 {
        lemma_commits_of_all_push(es.drop_last(), cs, c);
        lemma_commits_by_push(cs, c, es.last());
    }
}

proof fn lemma_occurrences_distinct(es: Seq<Seq<char>>, e: Seq<char>)
    requires
        forall|a: int, b: int| 0 <= a < b < es.len() ==> es[a] != es[b],
    ensures
        es.contains(e) ==> occurrences(es, e) == 1,
        !es.contains(e) ==> occurrences(es, e) == 0,
    decreases es.len(),
{
    if es.len() > 0 {
        let init = es.drop_last();
        lemma_occurrences_distinct(init, e);
        if es.last() == e {
            if init.contains(e) {
                let k = choose|k: int| 0 <= k < init.len() && init[k] == e;
                assert(es[k] == es[es.len() - 1]);
            }
        } else {
            if es.contains(e) {
                let k = choose|k: int| 0 <= k < es.len() && es[k] == e;
                assert(init[k] == e);
            }
            if init.contains(e) {
                let k = choose|k: int| 0 <= k < init.len() && init[k] == e;
                assert(es[k] == e);
            }
        }
    }
}

proof fn lemma_commits_of_all_total(es: Seq<Seq<char>>, cs: Seq<Commit>)
    requires
        forall|a: int, b: int| 0 <= a < b < es.len() ==> es[a] != es[b],
        forall|i: int| 0 <= i < cs.len() ==> es.contains((#[trigger] cs[i]).email@),
    ensures
        commits_of_all(es, cs) == cs.len(),
    decreases cs.len(),
{
    if cs.len() == 0 {
        lemma_commits_of_all_empty(es);
        assert(cs =~= Seq::<Commit>::empty());
    } else {
        let init = cs.drop_last();
        assert forall|i: int| 0 <= i < init.len() implies es.contains((#[trigger] init[i]).email@) by {
            assert(init[i] == cs[i]);
        }
        lemma_commits_of_all_total(es, init);
        assert(init.push(cs.last()) =~= cs);
        lemma_commits_of_all_push(es, init, cs.last());
        lemma_occurrences_distinct(es, cs.last().email@);
        assert(es.contains(cs[cs.len() - 1].email@));
    }
}

proof fn lemma_commits_of_all_empty(es: Seq<Seq<char>>)
    ensures
        commits_of_all(es, Seq::empty()) == 0,
    decreases es.len(),
{
    if es.len() > 0 {
        lemma_commits_of_all_empty(es.drop_last());
    }
}

proof fn lemma_counted_emails(ss: Seq<AuthorSummary>, cs: Seq<Commit>)
    requires
        forall|j: int| 0 <= j < ss.len() ==> summarizes(#[trigger] ss[j], cs),
    ensures
        counted(ss) == commits_of_all(ss.map_values(|s: AuthorSummary| s.email@), cs),
    decreases ss.len(),
{
    if ss.len() > 0 {
        let init = ss.drop_last();
        assert forall|j: int| 0 <= j < init.len() implies summarizes(#[trigger] init[j], cs) by {
            assert(init[j] == ss[j]);
        }
        lemma_counted_emails(init, cs);
        assert(ss.map_values(|s: AuthorSummary| s.email@).drop_last() =~= init.map_values(|s: AuthorSummary| s.email@));
        assert(summarizes(ss[ss.len() - 1], cs));
    }
}

/// Law: the summaries of all authors count every commit exactly once.
pub proof fn law_every_commit_counted_once(ss: Seq<AuthorSummary>, cs: Seq<Commit>)
    requires
        summaries_of(ss, cs),
    ensures
        counted(ss) == cs.len(),
{
    let es = ss.map_values(|s: AuthorSummary| s.email@);
    lemma_counted_emails(ss, cs);
    assert forall|a: int, b: int| 0 <= a < b < es.len() implies es[a] != es[b] by {
        assert(ss[a].email@ != ss[b].email@);
    }
    assert forall|i: int| 0 <= i < cs.len() implies es.contains((#[trigger] cs[i]).email@) by {
        let j = choose|j: int| 0 <= j < ss.len() && (#[trigger] ss[j]).email@ == (#[trigger] cs[i]).email@;
        assert(es[j] == cs[i].email@);
    }
    lemma_commits_of_all_total(es, cs);
}

/// An author's commits are among all commits.
proof fn lemma_commits_by_len(cs: Seq<Commit>, e: Seq<char>)
    ensures
        commits_by(cs, e).len() <= cs.len(),
    decreases cs.len(),
{
    if cs.len() > 0 {
        lemma_commits_by_len(cs.drop_last(), e);
    }
}

/// An author with no commits so far has none.
proof fn lemma_commits_by_absent(cs: Seq<Commit>, e: Seq<char>)
    requires
        forall|x: int| 0 <= x < cs.len() ==> (#[trigger] cs[x]).email@ != e,
    ensures
        commits_by(cs, e) == Seq::<Commit>::empty(),
    decreases cs.len(),
{
    if cs.len() > 0 {
        lemma_commits_by_absent(cs.drop_last(), e);
    }
}

} // verus!

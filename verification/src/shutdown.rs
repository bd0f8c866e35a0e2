//! Shutdown order: programs are stopped before the programs they depend
//! on, by a topological sort (Kahn's algorithm) of the dependency graph;
//! programs caught in a dependency cycle are stopped first.
//!
//! Programs are numbered by their position in the registry's iteration;
//! an edge `(s, v)` says that program `v` depends on program `s` (so `s`
//! starts first and stops last).

use vstd::prelude::*;
use vstd::std_specs::iter::IteratorSpec;

use crate::model::{clone_strings, ProgramConfig};
use crate::registry::ProcessRegistry;

verus! {

broadcast use vstd::std_specs::hash::group_hash_axioms;

/// Targets of the edges leaving `j`, in edge order.
pub open spec fn spec_adj(e: Seq<(int, int)>, j: int) -> Seq<int>
    decreases e.len(),
{
    if e.len() == 0 {
        Seq::empty()
    } else {
        spec_adj(e.drop_last(), j) + if e.last().0 == j {
            seq![e.last().1]
        } else {
            Seq::empty()
        }
    }
}

/// Edges into `v` whose source is not placed yet.
pub open spec fn spec_cnt(e: Seq<(int, int)>, v: int, placed: Seq<bool>) -> nat
    decreases e.len(),
{
    if e.len() == 0 {
        0
    } else {
        spec_cnt(e.drop_last(), v, placed) + if e.last().1 == v && !placed[e.last().0] {
            1nat
        } else {
            0nat
        }
    }
}

/// Occurrences of `v` in `s`.
pub open spec fn spec_occ(s: Seq<int>, v: int) -> nat
    decreases s.len(),
{
    if s.len() == 0 {
        0
    } else {
        spec_occ(s.drop_last(), v) + if s.last() == v {
            1nat
        } else {
            0nat
        }
    }
}

/// Edges between numbered programs.
pub open spec fn spec_edges_valid(e: Seq<(int, int)>, n: int) -> bool {
    forall|k: int| 0 <= k < e.len() ==> 0 <= (#[trigger] e[k]).0 < n && 0 <= e[k].1 < n
}

proof fn lemma_occ_front(s: Seq<int>, w: int)
    requires
        s.len() > 0,
    ensures
        spec_occ(s, w) == spec_occ(s.drop_first(), w) + if s[0] == w {
            1nat
        } else {
            0nat
        },
    decreases s.len(),
{
    if s.len() > 1 {
        lemma_occ_front(s.drop_last(), w);
        assert(s.drop_last().drop_first() == s.drop_first().drop_last());
        assert(s.drop_last()[0] == s[0]);
        assert(s.drop_first().last() == s.last());
    } else {
        assert(s.drop_first().len() == 0);
        assert(s.drop_last().len() == 0);
        assert(s.last() == s[0]);
        assert(spec_occ(s.drop_first(), w) == 0);
        assert(spec_occ(s.drop_last(), w) == 0);
    }
}

/// Placing `u` removes from the count of `v` the edges `(u, v)`, which are
/// the occurrences of `v` among the targets of `u`.
proof fn lemma_cnt_place(e: Seq<(int, int)>, v: int, placed: Seq<bool>, u: int)
    requires
        0 <= u < placed.len(),
        !placed[u],
        spec_edges_valid(e, placed.len() as int),
    ensures
        spec_cnt(e, v, placed) == spec_cnt(e, v, placed.update(u, true)) + spec_occ(
            spec_adj(e, u),
            v,
        ),
    decreases e.len(),
{
    if e.len() > 0 {
        let p = e.drop_last();
        assert forall|k: int| 0 <= k < p.len() implies 0 <= (#[trigger] p[k]).0 < placed.len()
            && 0 <= p[k].1 < placed.len() by {
            assert(p[k] == e[k]);
        }
        lemma_cnt_place(p, v, placed, u);
        let last = e.last();
        assert(e[e.len() - 1] == last);
        let tail = if last.0 == u {
            seq![last.1]
        } else {
            Seq::<int>::empty()
        };
        assert(spec_adj(e, u) == spec_adj(p, u) + tail);
        lemma_occ_concat(spec_adj(p, u), tail, v);
        if last.0 == u {
            assert(tail.drop_last().len() == 0);
            assert(spec_occ(tail.drop_last(), v) == 0);
            assert(spec_occ(tail, v) == if last.1 == v { 1nat } else { 0nat });
        } else {
            assert(spec_occ(tail, v) == 0);
            assert(placed.update(u, true)[last.0] == placed[last.0]);
        }
    }
}

proof fn lemma_occ_concat(a: Seq<int>, b: Seq<int>, w: int)
    ensures
        spec_occ(a + b, w) == spec_occ(a, w) + spec_occ(b, w),
    decreases b.len(),
{
    if b.len() == 0 {
        assert(a + b == a);
    } else {
        lemma_occ_concat(a, b.drop_last(), w);
        assert((a + b).drop_last() == a + b.drop_last());
    }
}

/// A count of zero: every edge into `v` has a placed source.
proof fn lemma_cnt_zero(e: Seq<(int, int)>, v: int, placed: Seq<bool>)
    requires
        spec_cnt(e, v, placed) == 0,
    ensures
        forall|k: int| 0 <= k < e.len() && (#[trigger] e[k]).1 == v ==> placed[e[k].0],
    decreases e.len(),
{
    if e.len() > 0 {
        lemma_cnt_zero(e.drop_last(), v, placed);
        assert forall|k: int| 0 <= k < e.len() && (#[trigger] e[k]).1 == v implies placed[e[k].0] by {
            if k < e.len() - 1 {
                assert(e.drop_last()[k] == e[k]);
            }
        }
    }
}

/// A positive count: some edge into `v` has a source not placed.
proof fn lemma_cnt_pos(e: Seq<(int, int)>, v: int, placed: Seq<bool>)
    requires
        spec_cnt(e, v, placed) > 0,
    ensures
        exists|k: int| 0 <= k < e.len() && (#[trigger] e[k]).1 == v && !placed[e[k].0],
    decreases e.len(),
{
    if e.last().1 == v && !placed[e.last().0] {
        assert(e[e.len() - 1] == e.last());
    } else {
        lemma_cnt_pos(e.drop_last(), v, placed);
        let k = choose|k: int| 0 <= k < e.drop_last().len() && (#[trigger] e.drop_last()[k]).1 == v
            && !placed[e.drop_last()[k].0];
        assert(e[k] == e.drop_last()[k]);
    }
}

/// Each target of `u` is the target of an edge from `u`.
proof fn lemma_adj_edges(e: Seq<(int, int)>, u: int)
    ensures
        forall|i: int|
            #![trigger spec_adj(e, u)[i]]
            0 <= i < spec_adj(e, u).len() ==> exists|k: int|
                #![trigger e[k]]
                0 <= k < e.len() && e[k] == (u, spec_adj(e, u)[i]),
    decreases e.len(),
{
    if e.len() > 0 {
        let p = e.drop_last();
        lemma_adj_edges(p, u);
        assert forall|i: int|
            #![trigger spec_adj(e, u)[i]]
            0 <= i < spec_adj(e, u).len() implies exists|k: int|
                #![trigger e[k]]
                0 <= k < e.len() && e[k] == (u, spec_adj(e, u)[i]) by {
            if i < spec_adj(p, u).len() {
                let k = choose|k: int| 0 <= k < p.len() && (#[trigger] p[k]) == (u, spec_adj(p, u)[i]);
                assert(e[k] == p[k]);
            } else {
                assert(e[e.len() - 1] == e.last());
            }
        }
    }
}

/// Counts are bounded by the number of edges.
proof fn lemma_cnt_le(e: Seq<(int, int)>, v: int, placed: Seq<bool>)
    ensures
        spec_cnt(e, v, placed) <= e.len(),
    decreases e.len(),
{
    if e.len() > 0 {
        lemma_cnt_le(e.drop_last(), v, placed);
    }
}

/// A sequence of indices as integers.
pub open spec fn ints(s: Seq<usize>) -> Seq<int> {
    s.map_values(|x: usize| x as int)
}

/// Nothing placed among `n` programs.
pub open spec fn none_placed(n: nat) -> Seq<bool> {
    Seq::new(n, |i: int| false)
}

/// Program `v` depends on program `s` by name: one of `v`'s dependencies
/// is `s`'s name.
pub open spec fn spec_names_dep(names: Seq<String>, deps: Seq<Seq<String>>, s: int, v: int) -> bool {
    exists|j: int| 0 <= j < deps[v].len() && (#[trigger] deps[v][j])@ == names[s]@
}

/// `s` is the last program named `d`.
pub open spec fn spec_last_named(names: Seq<String>, d: Seq<char>, s: int) -> bool {
    &&& 0 <= s < names.len()
    &&& names[s]@ == d
    &&& forall|t: int| s < t < names.len() ==> (#[trigger] names[t])@ != d
}

/// The last program with the given name.
fn find_last_name(names: &Vec<String>, d: &String) -> (r: Option<usize>)
    ensures
        match r {
            Some(s) => spec_last_named(names@, d@, s as int),
            None => forall|t: int| 0 <= t < names@.len() ==> (#[trigger] names@[t])@ != d@,
        },
{
    let mut t: usize = names.len();
    while t > 0
        invariant
            t <= names@.len(),
            forall|x: int| t <= x < names@.len() ==> (#[trigger] names@[x])@ != d@,
        decreases t,
    {
        if names[t - 1] == *d {
            return Some(t - 1);
        }
        t = t - 1;
    }
    None
}

proof fn lemma_edge_bound(i: int, j: int, n: int, len: int)
    requires
        0 <= i < n <= usize::MAX,
        0 <= j < len <= usize::MAX,
    ensures
        i * 0x1_0000_0000_0000_0000 + j + 1 <= u128::MAX,
        (i + 1) * 0x1_0000_0000_0000_0000 == i * 0x1_0000_0000_0000_0000 + 0x1_0000_0000_0000_0000,
{
    assert(usize::MAX < 0x1_0000_0000_0000_0000);
    assert(i * 0x1_0000_0000_0000_0000 <= (0x1_0000_0000_0000_0000 - 2) * 0x1_0000_0000_0000_0000)
        by (nonlinear_arith)
        requires
            0 <= i <= 0x1_0000_0000_0000_0000 - 2,
    ;
    assert((i + 1) * 0x1_0000_0000_0000_0000 == i * 0x1_0000_0000_0000_0000 + 0x1_0000_0000_0000_0000)
        by (nonlinear_arith);
}

/// The dependency graph of numbered programs: for each dependency of
/// program `v` that names a program, an edge from the last program of that
/// name to `v`; edges in order of `v`, then of its dependencies.
fn build_graph(names: &Vec<String>, deps: &Vec<Vec<String>>) -> (r: (
    Vec<Vec<usize>>,
    Vec<u128>,
    Ghost<Seq<(int, int)>>,
))
    requires
        names@.len() == deps@.len(),
    ensures
        ({
            let (adj, indeg, e) = r;
            let n = names@.len() as int;
            &&& adj@.len() == n
            &&& indeg@.len() == n
            &&& spec_edges_valid(e@, n)
            &&& forall|j: int| 0 <= j < n ==> ints((#[trigger] adj@[j])@) == spec_adj(e@, j)
            &&& forall|v: int| 0 <= v < n ==> (#[trigger] indeg@[v]) == spec_cnt(e@, v, none_placed(n as nat))
            &&& forall|k: int| 0 <= k < e@.len() ==> spec_names_dep(
                names@,
                deps@.map_values(|d: Vec<String>| d@),
                (#[trigger] e@[k]).0,
                e@[k].1,
            )
            &&& forall|v: int, j: int, s: int|
                0 <= v < n && 0 <= j < deps@[v]@.len() && #[trigger] spec_last_named(
                    names@,
                    deps@[v]@[j]@,
                    s,
                ) ==> exists|k: int| 0 <= k < e@.len() && #[trigger] e@[k] == (s, v)
        }),
{
    let n = names.len();
    let ghost dv = deps@.map_values(|d: Vec<String>| d@);
    let mut adj: Vec<Vec<usize>> = Vec::new();
    let mut indeg: Vec<u128> = Vec::new();
    let mut q: usize = 0;
    while q < n
        invariant
            q <= n == names@.len(),
            adj@.len() == q,
            indeg@.len() == q,
            forall|j: int| 0 <= j < q ==> (#[trigger] adj@[j])@.len() == 0,
            forall|j: int| 0 <= j < q ==> (#[trigger] indeg@[j]) == 0,
        decreases n - q,
    {
        adj.push(Vec::new());
        indeg.push(0);
        q = q + 1;
    }
    let ghost mut e: Seq<(int, int)> = Seq::empty();
    proof {
        assert forall|j: int| 0 <= j < n implies ints((#[trigger] adj@[j])@) == spec_adj(e, j) by {
            assert(ints(adj@[j]@) =~= Seq::<int>::empty());
        }
    }
    let mut i: usize = 0;
    while i < n
        invariant
            i <= n == names@.len() == deps@.len(),
            dv == deps@.map_values(|d: Vec<String>| d@),
            adj@.len() == n,
            indeg@.len() == n,
            spec_edges_valid(e, n as int),
            forall|j: int| 0 <= j < n ==> ints((#[trigger] adj@[j])@) == spec_adj(e, j),
            forall|v: int| 0 <= v < n ==> (#[trigger] indeg@[v]) == spec_cnt(e, v, none_placed(n as nat)),
            e.len() <= (i as int) * 0x1_0000_0000_0000_0000,
            forall|k: int| 0 <= k < e.len() ==> (#[trigger] e[k]).1 < i,
            forall|k: int| 0 <= k < e.len() ==> spec_names_dep(names@, dv, (#[trigger] e[k]).0, e[k].1),
            forall|v: int, j: int, s: int|
                0 <= v < i && 0 <= j < deps@[v]@.len() && #[trigger] spec_last_named(
                    names@,
                    deps@[v]@[j]@,
                    s,
                ) ==> exists|k: int| 0 <= k < e.len() && #[trigger] e[k] == (s, v),
        decreases n - i,
    {
        let dl = deps[i].len();
        let ghost e_start = e;
        let mut j: usize = 0;
        while j < dl
            invariant
                i < n == names@.len() == deps@.len(),
                dl == deps@[i as int]@.len(),
                j <= dl,
                dv == deps@.map_values(|d: Vec<String>| d@),
                adj@.len() == n,
                indeg@.len() == n,
                spec_edges_valid(e, n as int),
                forall|x: int| 0 <= x < n ==> ints((#[trigger] adj@[x])@) == spec_adj(e, x),
                forall|v: int| 0 <= v < n ==> (#[trigger] indeg@[v]) == spec_cnt(e, v, none_placed(n as nat)),
                e.len() <= (i as int) * 0x1_0000_0000_0000_0000 + j,
                e_start.len() <= e.len(),
                forall|k: int| 0 <= k < e_start.len() ==> e[k] == e_start[k],
                forall|k: int| 0 <= k < e.len() ==> (#[trigger] e[k]).1 <= i,
                forall|k: int| e_start.len() <= k < e.len() ==> (#[trigger] e[k]).1 == i,
                forall|k: int| 0 <= k < e.len() ==> spec_names_dep(names@, dv, (#[trigger] e[k]).0, e[k].1),
                forall|jj: int, s: int|
                    0 <= jj < j && #[trigger] spec_last_named(names@, deps@[i as int]@[jj]@, s)
                        ==> exists|k: int| 0 <= k < e.len() && #[trigger] e[k] == (s, i as int),
            decreases dl - j,
        {
            let ghost e_before = e;
            match find_last_name(names, &deps[i][j]) {
                Some(s) => {
                    proof {
                        lemma_edge_bound(i as int, j as int, n as int, dl as int);
                        lemma_cnt_le(e, i as int, none_placed(n as nat));
                    }
                    let mut row = adj[s].clone();
                    row.push(i);
                    adj.set(s, row);
                    let d = indeg[i] + 1;
                    indeg.set(i, d);
                    proof {
                        e = e.push((s as int, i as int));
                        assert(e.drop_last() == e_before);
                        assert forall|x: int| 0 <= x < n implies ints((#[trigger] adj@[x])@)
                            == spec_adj(e, x) by {
                            if x == s {
                                assert(ints(adj@[x]@) =~= spec_adj(e_before, x).push(i as int));
                            }
                        }
                        assert(spec_names_dep(names@, dv, s as int, i as int)) by {
                            assert(dv[i as int][j as int] == deps@[i as int]@[j as int]);
                        }
                    }
                },
                None => {},
            }
            proof {
                assert forall|jj: int, s2: int|
                    0 <= jj < j + 1 && #[trigger] spec_last_named(names@, deps@[i as int]@[jj]@, s2)
                        implies exists|k: int| 0 <= k < e.len() && #[trigger] e[k] == (s2, i as int) by {
                    if jj == j {
                        assert(e[e.len() - 1] == (s2, i as int));
                    } else {
                        let k = choose|k: int| 0 <= k < e_before.len() && #[trigger] e_before[k] == (s2, i as int);
                        assert(e[k] == e_before[k]);
                    }
                }
            }
            j = j + 1;
        }
        proof {
            lemma_edge_bound(i as int, 0, n as int, 1);
            assert forall|v: int, jj: int, s: int|
                0 <= v < i + 1 && 0 <= jj < deps@[v]@.len() && #[trigger] spec_last_named(
                    names@,
                    deps@[v]@[jj]@,
                    s,
                ) implies exists|k: int| 0 <= k < e.len() && #[trigger] e[k] == (s, v) by {
                if v < i {
                    let k = choose|k: int| 0 <= k < e_start.len() && #[trigger] e_start[k] == (s, v);
                    assert(e[k] == e_start[k]);
                }
            }
        }
        i = i + 1;
    }
    (adj, indeg, Ghost(e))
}

/// Insert `x` keeping `v` ascending by `keys`.
fn insert_ascending(v: &mut Vec<usize>, keys: &Vec<u128>, x: usize)
    requires
        x < keys@.len(),
        forall|i: int| 0 <= i < old(v)@.len() ==> (#[trigger] old(v)@[i]) < keys@.len(),
    ensures
        forall|i: int| 0 <= i < final(v)@.len() ==> (#[trigger] final(v)@[i]) < keys@.len(),
        forall|y: usize| #[trigger] final(v)@.contains(y) <==> (old(v)@.contains(y) || y == x),
        final(v)@.len() == old(v)@.len() + 1,
        !old(v)@.contains(x) && old(v)@.no_duplicates() ==> final(v)@.no_duplicates(),
{
    let ghost v0 = v@;
    let mut j: usize = 0;
    while j < v.len() && keys[v[j]] <= keys[x]
        invariant
            x < keys@.len(),
            j <= v@.len(),
            v@ == v0,
            forall|i: int| 0 <= i < v@.len() ==> (#[trigger] v@[i]) < keys@.len(),
        decreases v.len() - j,
    {
        j = j + 1;
    }
    v.insert(j, x);
    assert forall|y: usize| #[trigger] v@.contains(y) <==> (v0.contains(y) || y == x) by {
        if v0.contains(y) {
            let i = choose|i: int| 0 <= i < v0.len() && v0[i] == y;
            if i < j {
                assert(v@[i] == y);
            } else {
                assert(v@[i + 1] == y);
            }
        }
        if y == x {
            assert(v@[j as int] == x);
        }
        if v@.contains(y) {
            let i = choose|i: int| 0 <= i < v@.len() && v@[i] == y;
            if i < j {
                assert(v0[i] == y);
            } else if i > j {
                assert(v0[i - 1] == y);
            }
        }
    }
    assert forall|i: int| 0 <= i < v@.len() implies (#[trigger] v@[i]) < keys@.len() by {
        if i < j {
            assert(v@[i] == v0[i]);
        } else if i > j {
            assert(v@[i] == v0[i - 1]);
        }
    }
    proof {
        if !v0.contains(x) && v0.no_duplicates() {
            assert forall|a: int, b: int| 0 <= a < b < v@.len() implies v@[a] != v@[b] by {
                if a == j {
                    assert(v0[b - 1] == v@[b]);
                } else if b == j {
                    assert(v0[a] == v@[a]);
                } else {
                    let a0 = if a < j { a } else { a - 1 };
                    let b0 = if b < j { b } else { b - 1 };
                    assert(v0[a0] == v@[a] && v0[b0] == v@[b]);
                }
            }
        }
    }
}

/// Number of programs not placed yet.
pub open spec fn spec_unplaced(p: Seq<bool>) -> nat
    decreases p.len(),
{
    if p.len() == 0 {
        0
    } else {
        spec_unplaced(p.drop_last()) + if p.last() {
            0nat
        } else {
            1nat
        }
    }
}

proof fn lemma_unplaced_drop(p: Seq<bool>, u: int)
    requires
        0 <= u < p.len(),
        !p[u],
    ensures
        spec_unplaced(p.update(u, true)) + 1 == spec_unplaced(p),
    decreases p.len(),
{
    let q = p.update(u, true);
    if u < p.len() - 1 {
        assert(q.drop_last() == p.drop_last().update(u, true));
        lemma_unplaced_drop(p.drop_last(), u);
    } else {
        assert(q.drop_last() == p.drop_last());
    }
}

/// Position of `x` in `s` (which holds it once).
pub open spec fn spec_pos(s: Seq<usize>, x: int) -> int {
    choose|q: int| 0 <= q < s.len() && s[q] == x
}

/// Kahn's algorithm: repeatedly place a program whose predecessors are all
/// placed, taking the largest key first among the initially ready ones and
/// then the most recently readied one. Returns the placement order and
/// which programs were placed; the rest are on or after a cycle.
fn kahn(adj: &Vec<Vec<usize>>, indeg: Vec<u128>, e: Ghost<Seq<(int, int)>>, keys: &Vec<u128>) -> (r: (
    Vec<usize>,
    Vec<bool>,
))
    requires
        adj@.len() == indeg@.len() == keys@.len(),
        spec_edges_valid(e@, keys@.len() as int),
        forall|j: int| 0 <= j < adj@.len() ==> ints((#[trigger] adj@[j])@) == spec_adj(e@, j),
        forall|v: int| 0 <= v < indeg@.len() ==> (#[trigger] indeg@[v]) == spec_cnt(
            e@,
            v,
            none_placed(keys@.len() as nat),
        ),
    ensures
        ({
            let (order, placed) = r;
            let n = keys@.len() as int;
            &&& placed@.len() == n
            &&& order@.no_duplicates()
            &&& forall|q: int| 0 <= q < order@.len() ==> (#[trigger] order@[q]) < n
            &&& forall|v: int| 0 <= v < n ==> (#[trigger] placed@[v] <==> order@.contains(v as usize))
            &&& forall|q: int, k: int|
                0 <= q < order@.len() && 0 <= k < e@.len() && (#[trigger] e@[k]).1 == #[trigger] order@[q]
                    ==> exists|q2: int| 0 <= q2 < q && order@[q2] == e@[k].0
            &&& forall|v: int| 0 <= v < n && !placed@[v] ==> spec_cnt(e@, v, placed@) > 0
        }),
{
    let n = keys.len();
    let ghost eg = e@;
    let mut indeg = indeg;
    let mut stack: Vec<usize> = Vec::new();
    let mut placed: Vec<bool> = Vec::new();
    let mut v: usize = 0;
    while v < n
        invariant
            v <= n == keys@.len() == indeg@.len(),
            placed@.len() == v,
            forall|x: int| 0 <= x < v ==> !(#[trigger] placed@[x]),
            stack@.no_duplicates(),
            forall|i: int| 0 <= i < stack@.len() ==> (#[trigger] stack@[i]) < v,
            forall|x: usize| #[trigger] stack@.contains(x) <==> (x < v && indeg@[x as int] == 0),
        decreases n - v,
    {
        placed.push(false);
        if indeg[v] == 0 {
            proof {
                if stack@.contains(v) {
                    let i = choose|i: int| 0 <= i < stack@.len() && stack@[i] == v;
                }
            }
            insert_ascending(&mut stack, keys, v);
        }
        assert forall|i: int| 0 <= i < stack@.len() implies (#[trigger] stack@[i]) < v + 1 by {
            assert(stack@.contains(stack@[i]));
        }
        v = v + 1;
    }
    assert(placed@ =~= none_placed(n as nat));
    let mut order: Vec<usize> = Vec::new();
    while stack.len() > 0
        invariant
            n == keys@.len() == indeg@.len() == adj@.len() == placed@.len(),
            eg == e@,
            spec_edges_valid(eg, n as int),
            forall|j: int| 0 <= j < n ==> ints((#[trigger] adj@[j])@) == spec_adj(eg, j),
            forall|w: int| 0 <= w < n ==> (#[trigger] indeg@[w]) == spec_cnt(eg, w, placed@),
            stack@.no_duplicates(),
            forall|i: int| 0 <= i < stack@.len() ==> (#[trigger] stack@[i]) < n,
            forall|x: usize|
                #[trigger] stack@.contains(x) <==> (x < n && !placed@[x as int] && indeg@[x as int] == 0),
            order@.no_duplicates(),
            forall|q: int| 0 <= q < order@.len() ==> (#[trigger] order@[q]) < n,
            forall|w: int| 0 <= w < n ==> (#[trigger] placed@[w] <==> order@.contains(w as usize)),
            forall|q: int, k: int|
                0 <= q < order@.len() && 0 <= k < eg.len() && (#[trigger] eg[k]).1 == #[trigger] order@[q]
                    ==> exists|q2: int| 0 <= q2 < q && order@[q2] == eg[k].0,
        decreases spec_unplaced(placed@),
    {
        let ghost stack_before = stack@;
        let u = stack.pop().unwrap();
        let ghost placed0 = placed@;
        let ghost order0 = order@;
        proof {
            assert(stack@.len() == 0 || !stack@.contains(u)) by {
                if stack@.contains(u) {
                    let i = choose|i: int| 0 <= i < stack@.len() && stack@[i] == u;
                    assert(stack_before == stack@.push(u));
                    assert(stack_before[i] == stack_before[stack_before.len() - 1]);
                }
            }
            assert(stack_before[stack_before.len() - 1] == u);
            assert(stack_before.contains(u));
            lemma_cnt_zero(eg, u as int, placed0);
            lemma_cnt_place(eg, u as int, placed0, u as int);
            assert(!order0.contains(u));
        }
        placed.set(u, true);
        order.push(u);
        proof {
            assert forall|q: int, k: int|
                0 <= q < order@.len() && 0 <= k < eg.len() && (#[trigger] eg[k]).1 == #[trigger] order@[q]
                    implies exists|q2: int| 0 <= q2 < q && order@[q2] == eg[k].0 by {
                if q < order0.len() {
                    let q2 = choose|q2: int| 0 <= q2 < q && order0[q2] == eg[k].0;
                    assert(order@[q2] == order0[q2]);
                } else {
                    assert(placed0[eg[k].0]);
                    assert(order0.contains(eg[k].0 as usize));
                    let q2 = choose|q2: int| 0 <= q2 < order0.len() && order0[q2] == eg[k].0 as usize;
                    assert(order@[q2] == order0[q2]);
                }
            }
            assert forall|w: int| 0 <= w < n implies (#[trigger] placed@[w] <==> order@.contains(w as usize)) by {
                if w == u {
                    assert(order@[order@.len() - 1] == u);
                } else {
                    if order@.contains(w as usize) {
                        let q = choose|q: int| 0 <= q < order@.len() && order@[q] == w as usize;
                        assert(q < order0.len());
                        assert(order0[q] == w as usize);
                    }
                    if order0.contains(w as usize) {
                        let q = choose|q: int| 0 <= q < order0.len() && order0[q] == w as usize;
                        assert(order@[q] == w as usize);
                    }
                }
            }
        }
        let row = &adj[u];
        let ghost rowv = ints(row@);
        proof {
            lemma_unplaced_drop(placed0, u as int);
            assert forall|x: usize| #[trigger] stack@.contains(x) <==> (x < n && !placed@[x as int]
                && indeg@[x as int] == 0) by {
                if stack@.contains(x) {
                    let j = choose|j: int| 0 <= j < stack@.len() && stack@[j] == x;
                    assert(stack_before[j] == x);
                    assert(stack_before.contains(x));
                }
                if x != u && stack_before.contains(x) {
                    let j = choose|j: int| 0 <= j < stack_before.len() && stack_before[j] == x;
                    assert(j != stack_before.len() - 1);
                    assert(stack@[j] == x);
                }
            }
            lemma_adj_edges(eg, u as int);
            assert forall|w: int| 0 <= w < n implies (#[trigger] indeg@[w]) == spec_cnt(eg, w, placed@)
                + spec_occ(rowv.subrange(0, rowv.len() as int), w) by {
                lemma_cnt_place(eg, w, placed0, u as int);
                assert(rowv.subrange(0, rowv.len() as int) == rowv);
            }
            assert forall|x: int| 0 <= x < row@.len() implies !placed@[(#[trigger] row@[x]) as int] by {
                assert(rowv[x] == row@[x] as int);
                let k = choose|k: int| #![trigger eg[k]] 0 <= k < eg.len() && eg[k] == (u as int, spec_adj(eg, u as int)[x]);
                let t = row@[x] as int;
                if t == u as int {
                    assert(placed0[eg[k].0]);
                } else if placed0[t] {
                    assert(order0.contains(t as usize));
                    let q = choose|q: int| 0 <= q < order0.len() && order0[q] == t as usize;
                    assert(eg[k].1 == order0[q]);
                    let q2 = choose|q2: int| 0 <= q2 < q && order0[q2] == eg[k].0;
                    assert(order0.contains(u));
                }
            }
        }
        let mut i: usize = 0;
        while i < row.len()
            invariant
                n == keys@.len() == indeg@.len() == adj@.len() == placed@.len(),
                u < n,
                placed@[u as int],
                rowv == ints(row@),
                rowv == spec_adj(eg, u as int),
                spec_edges_valid(eg, n as int),
                i <= row@.len(),
                forall|w: int| 0 <= w < n ==> (#[trigger] indeg@[w]) == spec_cnt(eg, w, placed@) + spec_occ(
                    rowv.subrange(i as int, rowv.len() as int),
                    w,
                ),
                forall|x: int| 0 <= x < row@.len() ==> !placed@[(#[trigger] row@[x]) as int] || x < i,
                stack@.no_duplicates(),
                forall|j: int| 0 <= j < stack@.len() ==> (#[trigger] stack@[j]) < n,
                forall|x: usize|
                    #[trigger] stack@.contains(x) <==> (x < n && !placed@[x as int] && indeg@[x as int] == 0),
            decreases row.len() - i,
        {
            let w = row[i];
            proof {
                lemma_adj_edges(eg, u as int);
                assert(rowv[i as int] == w as int);
                let k = choose|k: int| #![trigger eg[k]] 0 <= k < eg.len() && eg[k] == (u as int, spec_adj(eg, u as int)[i as int]);
                assert(w < n);
                assert(row@[i as int] == w);
                assert(!placed@[w as int]);
                lemma_occ_front(rowv.subrange(i as int, rowv.len() as int), w as int);
                assert(rowv.subrange(i as int, rowv.len() as int).drop_first() =~= rowv.subrange(
                    i + 1,
                    rowv.len() as int,
                ));
                assert forall|z: int| 0 <= z < n && z != w implies spec_occ(
                    rowv.subrange(i as int, rowv.len() as int),
                    z,
                ) == spec_occ(rowv.subrange(i + 1, rowv.len() as int), z) by {
                    lemma_occ_front(rowv.subrange(i as int, rowv.len() as int), z);
                }
            }
            let ghost indeg0 = indeg@;
            proof {
                assert(spec_occ(rowv.subrange(i as int, rowv.len() as int), w as int) >= 1);
                assert(!stack@.contains(w) || indeg0[w as int] == 0);
            }
            let d = indeg[w] - 1;
            indeg.set(w, d);
            proof {
                assert forall|x: usize| x != w implies (#[trigger] stack@.contains(x) <==> (x < n && !placed@[x as int]
                    && indeg@[x as int] == 0)) by {
                    if x < n {
                        assert(indeg@[x as int] == indeg0[x as int]);
                    }
                }
                assert(!stack@.contains(w));
            }
            if d == 0 {
                let ghost stack_pre = stack@;
                stack.push(w);
                proof {
                    assert forall|x: usize| #[trigger] stack@.contains(x) <==> (x < n && !placed@[x as int]
                        && indeg@[x as int] == 0) by {
                        if x == w {
                            assert(stack@[stack@.len() - 1] == w);
                        } else {
                            if stack@.contains(x) {
                                let j = choose|j: int| 0 <= j < stack@.len() && stack@[j] == x;
                                assert(stack_pre[j] == x);
                                assert(stack_pre.contains(x));
                            }
                            if stack_pre.contains(x) {
                                let j = choose|j: int| 0 <= j < stack_pre.len() && stack_pre[j] == x;
                                assert(stack@[j] == x);
                            }
                        }
                    }
                }
            }
            i = i + 1;
        }
    }
    proof {
        assert forall|w: int| 0 <= w < n && !placed@[w] implies spec_cnt(eg, w, placed@) > 0 by {
            if spec_cnt(eg, w, placed@) == 0 {
                assert(stack@.contains(w as usize));
            }
        }
    }
    (order, placed)
}

/// Program `p` depends on program `d`: one of its dependencies is `d`'s name.
pub open spec fn spec_depends(p: ProgramConfig, d: ProgramConfig) -> bool {
    exists|j: int| 0 <= j < p.depends_on@.len() && (#[trigger] p.depends_on@[j])@ == d.name@
}

/// The dependencies have no cycle: some rank decreases along every
/// dependency.
pub open spec fn spec_acyclic(m: Map<u128, ProgramConfig>) -> bool {
    exists|rank: spec_fn(u128) -> nat| #[trigger] spec_ranked(m, rank)
}

/// `rank` decreases along every dependency.
pub open spec fn spec_ranked(m: Map<u128, ProgramConfig>, rank: spec_fn(u128) -> nat) -> bool {
    forall|p: u128, d: u128|
        #![trigger spec_depends(m[p], m[d])]
        m.contains_key(p) && m.contains_key(d) && spec_depends(m[p], m[d]) ==> rank(d) < rank(p)
}

impl ProcessRegistry {
    /// The programs numbered in iteration order: ids, names, dependencies.
    fn number_programs(&self) -> (r: (Vec<u128>, Vec<String>, Vec<Vec<String>>))
        ensures
            ({
                let (ids, names, deps) = r;
                let m = self.programs@;
                &&& ids@.len() == names@.len() == deps@.len()
                &&& ids@.no_duplicates()
                &&& forall|i: int|
                    0 <= i < ids@.len() ==> m.contains_key(#[trigger] ids@[i]) && names@[i]@
                        == m[ids@[i]].name@ && deps@[i]@ == m[ids@[i]].depends_on@
                &&& forall|k: u128| #[trigger] m.contains_key(k) ==> ids@.contains(k)
            }),
    {
        let ghost m = self.programs@;
        let ghost items = vstd::std_specs::hash::spec_hash_map_iter(&self.programs).remaining();
        proof {
            vstd::std_specs::hash::axiom_spec_hash_map_iter(&self.programs);
        }
        let mut ids: Vec<u128> = Vec::new();
        let mut names: Vec<String> = Vec::new();
        let mut deps: Vec<Vec<String>> = Vec::new();
        for pair in it: self.programs.iter()
            invariant
                m == self.programs@,
                it.seq() == items,
                items.len() == m.dom().len(),
                forall|i: int|
                    0 <= i < items.len() ==> m.contains_key(*(#[trigger] items[i]).0)
                        && m[*items[i].0] == *items[i].1,
                forall|k: u128| #[trigger] m.contains_key(k) ==> items.contains((&k, &m[k])),
                items.no_duplicates(),
                ids@.len() == it.index(),
                names@.len() == it.index(),
                deps@.len() == it.index(),
                forall|i: int| 0 <= i < ids@.len() ==> ids@[i] == *(#[trigger] items[i]).0,
                forall|i: int|
                    0 <= i < ids@.len() ==> names@[i]@ == (#[trigger] items[i]).1.name@ && deps@[i]@
                        == items[i].1.depends_on@,
        {
            let (k, c) = pair;
            ids.push(*k);
            names.push(c.name.clone());
            deps.push(clone_strings(&c.depends_on));
        }
        proof {
            assert forall|a: int, b: int| 0 <= a < b < ids@.len() implies ids@[a] != ids@[b] by {
                assert(ids@[a] == *items[a].0 && ids@[b] == *items[b].0);
                if ids@[a] == ids@[b] {
                    assert(items[a] == items[b]);
                }
            }
            assert forall|i: int| 0 <= i < ids@.len() implies m.contains_key(#[trigger] ids@[i])
                && names@[i]@ == m[ids@[i]].name@ && deps@[i]@ == m[ids@[i]].depends_on@ by {
                assert(ids@[i] == *items[i].0);
            }
            assert forall|k: u128| #[trigger] m.contains_key(k) implies ids@.contains(k) by {
                let i = choose|i: int| 0 <= i < items.len() && items[i] == (&k, &m[k]);
                assert(ids@[i] == k);
            }
        }
        (ids, names, deps)
    }
}

/// Under a ranking, Kahn's algorithm places every program: an unplaced
/// program would have an unplaced dependency of smaller rank.
proof fn lemma_all_placed(
    m: Map<u128, ProgramConfig>,
    ids: Seq<u128>,
    names: Seq<String>,
    deps: Seq<Vec<String>>,
    e: Seq<(int, int)>,
    placed: Seq<bool>,
    rank: spec_fn(u128) -> nat,
    v: int,
)
    requires
        ids.len() == names.len() == deps.len() == placed.len(),
        forall|i: int|
            0 <= i < ids.len() ==> m.contains_key(#[trigger] ids[i]) && names[i]@ == m[ids[i]].name@
                && deps[i]@ == m[ids[i]].depends_on@,
        spec_edges_valid(e, ids.len() as int),
        forall|k: int|
            0 <= k < e.len() ==> spec_names_dep(
                names,
                deps.map_values(|d: Vec<String>| d@),
                (#[trigger] e[k]).0,
                e[k].1,
            ),
        forall|w: int| 0 <= w < ids.len() && !placed[w] ==> spec_cnt(e, w, placed) > 0,
        spec_ranked(m, rank),
        0 <= v < ids.len(),
    ensures
        placed[v],
    decreases rank(ids[v]),
{
    if placed[v] {
        return;
    }
    lemma_cnt_pos(e, v, placed);
    let k = choose|k: int| 0 <= k < e.len() && (#[trigger] e[k]).1 == v && !placed[e[k].0];
    let s = e[k].0;
    let dv = deps.map_values(|d: Vec<String>| d@);
    assert(spec_names_dep(names, dv, s, v));
    let j = choose|j: int| 0 <= j < dv[v].len() && (#[trigger] dv[v][j])@ == names[s]@;
    assert(dv[v] == deps[v]@);
    assert(m[ids[v]].depends_on@[j]@ == m[ids[s]].name@);
    assert(spec_depends(m[ids[v]], m[ids[s]]));
    assert(rank(ids[s]) < rank(ids[v]));
    lemma_all_placed(m, ids, names, deps, e, placed, rank, s);
}

impl ProcessRegistry {
    /// Order in which the daemon stops the programs at shutdown: every
    /// program exactly once, and, when names are unique and dependencies
    /// have no cycle, each program before the programs it depends on.
    pub fn shutdown_order(&self) -> (r: Vec<u128>)
        ensures
            r@.no_duplicates(),
            forall|k: u128| #[trigger] r@.contains(k) <==> self.programs@.contains_key(k),
            crate::lifecycle::spec_unique_names(self.programs@) && spec_acyclic(self.programs@)
                ==> forall|a: int, b: int|
                0 <= a < r@.len() && 0 <= b < r@.len() && #[trigger] spec_depends(
                    self.programs@[r@[a]],
                    self.programs@[r@[b]],
                ) ==> a < b,
    {
        let ghost m = self.programs@;
        let (ids, names, deps) = self.number_programs();
        let n = ids.len();
        let (adj, indeg, e) = build_graph(&names, &deps);
        let ghost eg = e@;
        let (mut order, placed) = kahn(&adj, indeg, e, &ids);
        let ghost kahn_order = order@;
        let mut v: usize = 0;
        while v < n
            invariant
                v <= n == ids@.len() == placed@.len(),
                order@.no_duplicates(),
                forall|q: int| 0 <= q < order@.len() ==> (#[trigger] order@[q]) < n,
                forall|w: usize| w < n ==> (#[trigger] order@.contains(w) <==> (placed@[w as int] || w < v)),
                (forall|w: int| 0 <= w < n ==> placed@[w]) ==> order@ == kahn_order,
            decreases n - v,
        {
            if !placed[v] {
                let ghost o = order@;
                proof {
                    assert(!order@.contains(v));
                }
                order.push(v);
                proof {
                    assert forall|w: usize| w < n implies (#[trigger] order@.contains(w) <==> (
                    placed@[w as int] || w < v + 1)) by {
                        if w == v {
                            assert(order@[order@.len() - 1] == v);
                        } else {
                            assert(o.contains(w) <==> (placed@[w as int] || w < v));
                            if order@.contains(w) {
                                let q = choose|q: int| 0 <= q < order@.len() && order@[q] == w;
                                assert(o[q] == w);
                            }
                            if o.contains(w) {
                                let q = choose|q: int| 0 <= q < o.len() && o[q] == w;
                                assert(order@[q] == w);
                            }
                        }
                    }
                }
            }
            v = v + 1;
        }
        let len = order.len();
        let mut r: Vec<u128> = Vec::new();
        let mut t: usize = len;
        while t > 0
            invariant
                t <= len == order@.len(),
                n == ids@.len(),
                forall|q: int| 0 <= q < order@.len() ==> (#[trigger] order@[q]) < n,
                r@.len() == len - t,
                forall|i: int| 0 <= i < r@.len() ==> r@[i] == ids@[order@[len - 1 - i] as int],
            decreases t,
        {
            t = t - 1;
            r.push(ids[order[t]]);
        }
        proof {
            assert forall|a: int, b: int| 0 <= a < b < r@.len() implies r@[a] != r@[b] by {
                let x = order@[len - 1 - a];
                let y = order@[len - 1 - b];
                assert(x != y);
                assert(ids@[x as int] != ids@[y as int]);
            }
            assert forall|k: u128| #[trigger] r@.contains(k) <==> m.contains_key(k) by {
                if r@.contains(k) {
                    let i = choose|i: int| 0 <= i < r@.len() && r@[i] == k;
                    assert(m.contains_key(ids@[order@[len - 1 - i] as int]));
                }
                if m.contains_key(k) {
                    let x = choose|x: int| 0 <= x < ids@.len() && ids@[x] == k;
                    assert(order@.contains(x as usize) <==> (placed@[x] || (x as usize) < n));
                    assert(order@.contains(x as usize));
                    let q = choose|q: int| 0 <= q < order@.len() && order@[q] == x as usize;
                    assert(r@[len - 1 - q] == k);
                }
            }
            if crate::lifecycle::spec_unique_names(m) && spec_acyclic(m) {
                let rank = choose|rank: spec_fn(u128) -> nat| #[trigger] spec_ranked(m, rank);
                assert forall|w: int| 0 <= w < n implies placed@[w] by {
                    lemma_all_placed(m, ids@, names@, deps@, eg, placed@, rank, w);
                }
                assert(order@ == kahn_order);
                assert forall|a: int, b: int|
                    0 <= a < r@.len() && 0 <= b < r@.len() && #[trigger] spec_depends(m[r@[a]], m[r@[b]])
                        implies a < b by {
                    let x = order@[len - 1 - a] as int;
                    let y = order@[len - 1 - b] as int;
                    let j = choose|j: int|
                        0 <= j < m[ids@[x]].depends_on@.len() && (#[trigger] m[ids@[x]].depends_on@[j])@
                            == m[ids@[y]].name@;
                    assert(deps@[x]@[j]@ == names@[y]@);
                    assert forall|t2: int| y < t2 < names@.len() implies (#[trigger] names@[t2])@ != deps@[x]@[j]@ by {
                        if names@[t2]@ == names@[y]@ {
                            assert(m[ids@[t2]].name@ == m[ids@[y]].name@);
                            assert(ids@[t2] != ids@[y]);
                        }
                    }
                    assert(spec_last_named(names@, deps@[x]@[j]@, y));
                    let k = choose|k: int| 0 <= k < eg.len() && #[trigger] eg[k] == (y, x);
                    assert(eg[k].1 == order@[len - 1 - a]);
                    let q2 = choose|q2: int| 0 <= q2 < len - 1 - a && order@[q2] == eg[k].0;
                    assert(order@[q2] == order@[len - 1 - b]);
                }
            }
        }
        r
    }
}

} // verus!

//! Validation of the dependency graph: every dependency a request gives
//! names a program, and no program depends on itself through a chain of
//! dependencies.

use vstd::prelude::*;
use crate::model::ProgramConfig;
use crate::registry::ProcessRegistry;
use crate::shutdown::{spec_acyclic, spec_depends, spec_ranked};

verus! {

/// Entry `i` depends on entry `j`: one of `i`'s dependencies is `j`'s name.
pub open spec fn spec_dep_on(names: Seq<Seq<char>>, deps: Seq<Seq<Seq<char>>>, i: int, j: int) -> bool {
    deps[i].contains(names[j])
}

/// `rank` decreases along every dependency of the entries.
pub open spec fn spec_seq_ranked(names: Seq<Seq<char>>, deps: Seq<Seq<Seq<char>>>, rank: spec_fn(int) -> nat) -> bool {
    forall|i: int, j: int|
        0 <= i < names.len() && 0 <= j < names.len() && #[trigger] spec_dep_on(names, deps, i, j) ==> rank(j)
            < rank(i)
}

/// The entries' dependencies have no cycle.
pub open spec fn spec_seq_acyclic(names: Seq<Seq<char>>, deps: Seq<Seq<Seq<char>>>) -> bool {
    exists|rank: spec_fn(int) -> nat| #[trigger] spec_seq_ranked(names, deps, rank)
}

/// Texts of strings.
pub open spec fn texts(v: Seq<String>) -> Seq<Seq<char>> {
    v.map_values(|s: String| s@)
}

/// Texts of lists of strings.
pub open spec fn texts2(v: Seq<Vec<String>>) -> Seq<Seq<Seq<char>>> {
    v.map_values(|d: Vec<String>| texts(d@))
}

/// Some entry not yet placed is named `d`.
fn unplaced_named(names: &Vec<String>, placed: &Vec<bool>, d: &String) -> (r: bool)
    requires
        placed@.len() == names@.len(),
    ensures
        r == exists|j: int| 0 <= j < names@.len() && !placed@[j] && names@[j]@ == d@,
{
    let mut j: usize = 0;
    while j < names.len()
        invariant
            placed@.len() == names@.len(),
            j <= names@.len(),
            forall|x: int| 0 <= x < j ==> placed@[x] || names@[x]@ != d@,
        decreases names.len() - j,
    {
        if !placed[j] && names[j] == *d {
            return true;
        }
        j = j + 1;
    }
    false
}

/// Every dependency of entry `i` names only placed entries.
fn ready(names: &Vec<String>, deps: &Vec<Vec<String>>, placed: &Vec<bool>, i: usize) -> (r: bool)
    requires
        placed@.len() == names@.len() == deps@.len(),
        i < names@.len(),
    ensures
        r == forall|j: int| 0 <= j < names@.len() && #[trigger] spec_dep_on(texts(names@), texts2(deps@), i as int, j)
            ==> placed@[j],
{
    let ghost ns = texts(names@);
    let ghost ds = texts2(deps@);
    let ghost di = deps@[i as int]@;
    assert(ds[i as int] == texts(di));
    let mut k: usize = 0;
    while k < deps[i].len()
        invariant
            placed@.len() == names@.len() == deps@.len(),
            i < names@.len(),
            ns == texts(names@),
            ds == texts2(deps@),
            di == deps@[i as int]@,
            ds[i as int] == texts(di),
            k <= di.len(),
            forall|x: int, j: int|
                0 <= x < k && 0 <= j < names@.len() && di[x]@ == ns[j] ==> placed@[j],
        decreases di.len() - k,
    {
        if unplaced_named(names, placed, &deps[i][k]) {
            proof {
                let j = choose|j: int| 0 <= j < names@.len() && !placed@[j] && names@[j]@ == di[k as int]@;
                assert(texts(di)[k as int] == ns[j]);
                assert(spec_dep_on(ns, ds, i as int, j));
            }
            return false;
        }
        k = k + 1;
    }
    proof {
        assert forall|j: int| 0 <= j < names@.len() && #[trigger] spec_dep_on(ns, ds, i as int, j) implies placed@[j] by {
            let x = choose|x: int| 0 <= x < texts(di).len() && texts(di)[x] == ns[j];
            assert(di[x]@ == ns[j]);
        }
    }
    true
}

/// With every unplaced entry depending on an unplaced entry, no ranking
/// exists: follow the dependencies down the ranks.
proof fn lemma_stuck(
    names: Seq<Seq<char>>,
    deps: Seq<Seq<Seq<char>>>,
    placed: Seq<bool>,
    rank: spec_fn(int) -> nat,
    i: int,
)
    requires
        placed.len() == names.len(),
        spec_seq_ranked(names, deps, rank),
        0 <= i < names.len(),
        forall|x: int|
            0 <= x < names.len() && !placed[x] ==> exists|j: int|
                0 <= j < names.len() && !placed[j] && #[trigger] spec_dep_on(names, deps, x, j),
    ensures
        placed[i],
    decreases rank(i),
{
    if !placed[i] {
        let j = choose|j: int| 0 <= j < names.len() && !placed[j] && #[trigger] spec_dep_on(names, deps, i, j);
        assert(rank(j) < rank(i));
        lemma_stuck(names, deps, placed, rank, j);
    }
}

/// A stuck entry shows a cycle.
proof fn lemma_cyclic(names: Seq<Seq<char>>, deps: Seq<Seq<Seq<char>>>, placed: Seq<bool>, x: int)
    requires
        placed.len() == names.len(),
        0 <= x < names.len(),
        !placed[x],
        forall|y: int|
            0 <= y < names.len() && !placed[y] ==> exists|j: int|
                0 <= j < names.len() && !placed[j] && #[trigger] spec_dep_on(names, deps, y, j),
    ensures
        !spec_seq_acyclic(names, deps),
{
    if spec_seq_acyclic(names, deps) {
        let rank = choose|rank: spec_fn(int) -> nat| #[trigger] spec_seq_ranked(names, deps, rank);
        lemma_stuck(names, deps, placed, rank, x);
    }
}

/// Placement steps of all entries rank them.
proof fn lemma_acyclic(names: Seq<Seq<char>>, deps: Seq<Seq<Seq<char>>>, placed: Seq<bool>, step: Seq<usize>)
    requires
        placed.len() == names.len() == step.len(),
        forall|y: int| 0 <= y < placed.len() ==> placed[y],
        forall|y: int, j: int|
            0 <= y < names.len() && 0 <= j < names.len() && placed[y] && #[trigger] spec_dep_on(names, deps, y, j)
                ==> placed[j] && step[j] < step[y],
    ensures
        spec_seq_acyclic(names, deps),
{
    let rank = |i: int| step[i] as nat;
    assert(spec_seq_ranked(names, deps, rank));
}

/// Place the entries one after the other, each after the entries it
/// depends on, for as long as one can be placed. Returns which entries
/// were placed and when.
fn peel(names: &Vec<String>, deps: &Vec<Vec<String>>) -> (r: (Vec<bool>, Vec<usize>))
    requires
        names@.len() == deps@.len(),
    ensures
        ({
            let (placed, step) = r;
            let ns = texts(names@);
            let ds = texts2(deps@);
            let n = names@.len() as int;
            &&& placed@.len() == n
            &&& step@.len() == n
            &&& forall|x: int, j: int|
                0 <= x < n && 0 <= j < n && placed@[x] && #[trigger] spec_dep_on(ns, ds, x, j) ==> placed@[j]
                    && step@[j] < step@[x]
            &&& forall|x: int|
                0 <= x < n && !placed@[x] ==> exists|j: int|
                    0 <= j < n && !placed@[j] && #[trigger] spec_dep_on(ns, ds, x, j)
        }),
{
    let ghost ns = texts(names@);
    let ghost ds = texts2(deps@);
    let n = names.len();
    let mut placed: Vec<bool> = Vec::new();
    let mut step: Vec<usize> = Vec::new();
    let mut k: usize = 0;
    while k < n
        invariant
            k <= n == names@.len(),
            placed@.len() == k,
            step@.len() == k,
            forall|x: int| 0 <= x < k ==> !placed@[x],
            spec_placed_count(placed@) == 0,
        decreases n - k,
    {
        let ghost p0 = placed@;
        placed.push(false);
        assert(placed@.drop_last() =~= p0);
        step.push(0);
        k = k + 1;
    }
    let mut count: usize = 0;
    let mut progress = true;
    while progress
        invariant
            n == names@.len() == deps@.len() == placed@.len() == step@.len(),
            ns == texts(names@),
            ds == texts2(deps@),
            count <= n,
            count == spec_placed_count(placed@),
            forall|x: int| 0 <= x < n && placed@[x] ==> step@[x] < count,
            forall|x: int, j: int|
                0 <= x < n && 0 <= j < n && placed@[x] && #[trigger] spec_dep_on(ns, ds, x, j) ==> placed@[j]
                    && step@[j] < step@[x],
            !progress ==> forall|x: int|
                0 <= x < n && !placed@[x] ==> exists|j: int|
                    0 <= j < n && !placed@[j] && #[trigger] spec_dep_on(ns, ds, x, j),
        decreases n - count, if progress { 1int } else { 0int },
    {
        progress = false;
        let mut i: usize = 0;
        let ghost count0 = count;
        while i < n
            invariant
                n == names@.len() == deps@.len() == placed@.len() == step@.len(),
                ns == texts(names@),
                ds == texts2(deps@),
                i <= n,
                count <= n,
                count == spec_placed_count(placed@),
                count0 <= count,
                progress <==> count > count0,
                forall|x: int| 0 <= x < n && placed@[x] ==> step@[x] < count,
                forall|x: int, j: int|
                    0 <= x < n && 0 <= j < n && placed@[x] && #[trigger] spec_dep_on(ns, ds, x, j) ==> placed@[j]
                        && step@[j] < step@[x],
                !progress ==> forall|x: int|
                    0 <= x < i && !placed@[x] ==> exists|j: int|
                        0 <= j < n && !placed@[j] && #[trigger] spec_dep_on(ns, ds, x, j),
            decreases n - i,
        {
            if !placed[i] {
                if ready(names, deps, &placed, i) {
                    let ghost p0 = placed@;
                    proof {
                        lemma_count_place(p0, i as int);
                    }
                    placed.set(i, true);
                    step.set(i, count);
                    count = count + 1;
                    progress = true;
                } else {
                    proof {
                        assert(!(forall|j: int| 0 <= j < n && #[trigger] spec_dep_on(ns, ds, i as int, j) ==> placed@[j]));
                    }
                }
            }
            i = i + 1;
        }
    }
    (placed, step)
}

/// An entry that cannot be ordered after its dependencies, if any: `None`
/// exactly when the dependencies of the entries have no cycle.
pub fn find_cycle(names: &Vec<String>, deps: &Vec<Vec<String>>) -> (r: Option<usize>)
    requires
        names@.len() == deps@.len(),
    ensures
        r is None <==> spec_seq_acyclic(texts(names@), texts2(deps@)),
        r matches Some(i) ==> i < names@.len(),
{
    let (placed, step) = peel(names, deps);
    match first_unplaced(&placed) {
        Some(x) => {
            proof {
                lemma_cyclic(texts(names@), texts2(deps@), placed@, x as int);
            }
            Some(x)
        },
        None => {
            proof {
                lemma_acyclic(texts(names@), texts2(deps@), placed@, step@);
            }
            None
        },
    }
}

/// The first entry not placed.
fn first_unplaced(placed: &Vec<bool>) -> (r: Option<usize>)
    ensures
        match r {
            Some(x) => x < placed@.len() && !placed@[x as int],
            None => forall|y: int| 0 <= y < placed@.len() ==> placed@[y],
        },
{
    let mut x: usize = 0;
    while x < placed.len()
        invariant
            x <= placed@.len(),
            forall|y: int| 0 <= y < x ==> placed@[y],
        decreases placed.len() - x,
    {
        if !placed[x] {
            return Some(x);
        }
        x = x + 1;
    }
    None
}

/// Number of placed entries.
pub open spec fn spec_placed_count(p: Seq<bool>) -> nat
    decreases p.len(),
{
    if p.len() == 0 {
        0
    } else {
        spec_placed_count(p.drop_last()) + if p.last() {
            1nat
        } else {
            0nat
        }
    }
}

proof fn lemma_count_bound(p: Seq<bool>)
    ensures
        spec_placed_count(p) <= p.len(),
        spec_placed_count(p) == p.len() ==> forall|x: int| 0 <= x < p.len() ==> p[x],
    decreases p.len(),
{
    if p.len() > 0 {
        lemma_count_bound(p.drop_last());
        if spec_placed_count(p) == p.len() {
            assert forall|x: int| 0 <= x < p.len() implies p[x] by {
                if x < p.len() - 1 {
                    assert(p.drop_last()[x] == p[x]);
                }
            }
        }
    }
}

proof fn lemma_count_place(p: Seq<bool>, i: int)
    requires
        0 <= i < p.len(),
        !p[i],
    ensures
        spec_placed_count(p.update(i, true)) == spec_placed_count(p) + 1,
        spec_placed_count(p) < p.len(),
    decreases p.len(),
{
    lemma_count_bound(p.update(i, true));
    if i == p.len() - 1 {
        assert(p.update(i, true).drop_last() =~= p.drop_last());
    } else {
        assert(p.update(i, true).drop_last() =~= p.drop_last().update(i, true));
        lemma_count_place(p.drop_last(), i);
    }
}

/// Names of configurations.
pub open spec fn spec_names_of(cs: Seq<ProgramConfig>) -> Seq<Seq<char>> {
    cs.map_values(|c: ProgramConfig| c.name@)
}

/// Dependencies of configurations.
pub open spec fn spec_deps_of(cs: Seq<ProgramConfig>) -> Seq<Seq<Seq<char>>> {
    cs.map_values(|c: ProgramConfig| texts(c.depends_on@))
}

/// `order` lists every program of `m` once.
pub open spec fn spec_lists(m: Map<u128, ProgramConfig>, order: Seq<u128>) -> bool {
    &&& order.no_duplicates()
    &&& forall|k: u128| #[trigger] order.contains(k) <==> m.contains_key(k)
}

/// The configurations of `m` in the order of `order`.
pub open spec fn spec_values(m: Map<u128, ProgramConfig>, order: Seq<u128>) -> Seq<ProgramConfig> {
    order.map_values(|k: u128| m[k])
}

/// Acyclicity of a map of programs is acyclicity of any listing of them.
pub proof fn lemma_lists_acyclic(m: Map<u128, ProgramConfig>, order: Seq<u128>)
    requires
        spec_lists(m, order),
    ensures
        spec_acyclic(m) <==> spec_seq_acyclic(
            spec_names_of(spec_values(m, order)),
            spec_deps_of(spec_values(m, order)),
        ),
{
    let cs = spec_values(m, order);
    let ns = spec_names_of(cs);
    let ds = spec_deps_of(cs);
    if spec_acyclic(m) {
        let rank = choose|rank: spec_fn(u128) -> nat| #[trigger] spec_ranked(m, rank);
        let r2 = |i: int| rank(order[i]);
        assert forall|i: int, j: int|
            0 <= i < ns.len() && 0 <= j < ns.len() && #[trigger] spec_dep_on(ns, ds, i, j) implies r2(j) < r2(i) by {
            assert(order.contains(order[i]) && order.contains(order[j]));
            let x = choose|x: int| 0 <= x < ds[i].len() && ds[i][x] == ns[j];
            assert(ds[i] == texts(m[order[i]].depends_on@));
            assert(m[order[i]].depends_on@[x]@ == m[order[j]].name@);
            assert(spec_depends(m[order[i]], m[order[j]]));
        }
        assert(spec_seq_ranked(ns, ds, r2));
    }
    if spec_seq_acyclic(ns, ds) {
        let rank = choose|rank: spec_fn(int) -> nat| #[trigger] spec_seq_ranked(ns, ds, rank);
        let r2 = |k: u128| rank(choose|i: int| 0 <= i < order.len() && order[i] == k);
        assert forall|p: u128, d: u128|
            m.contains_key(p) && m.contains_key(d) && #[trigger] spec_depends(m[p], m[d]) implies r2(d) < r2(p) by {
            assert(order.contains(p) && order.contains(d));
            let i = choose|i: int| 0 <= i < order.len() && order[i] == p;
            let j = choose|j: int| 0 <= j < order.len() && order[j] == d;
            let x = choose|x: int| 0 <= x < m[p].depends_on@.len() && (#[trigger] m[p].depends_on@[x])@ == m[d].name@;
            assert(texts(m[p].depends_on@)[x] == ns[j]);
            assert(spec_dep_on(ns, ds, i, j));
        }
        assert(spec_ranked(m, r2));
    }
}

/// Names and dependencies of configurations, as lists.
pub fn names_and_deps(cs: &Vec<ProgramConfig>) -> (r: (Vec<String>, Vec<Vec<String>>))
    ensures
        texts(r.0@) == spec_names_of(cs@),
        texts2(r.1@) == spec_deps_of(cs@),
        r.0@.len() == r.1@.len() == cs@.len(),
{
    let mut names: Vec<String> = Vec::new();
    let mut deps: Vec<Vec<String>> = Vec::new();
    let mut i: usize = 0;
    while i < cs.len()
        invariant
            i <= cs@.len(),
            names@.len() == i,
            deps@.len() == i,
            forall|a: int| 0 <= a < i ==> (#[trigger] names@[a])@ == cs@[a].name@,
            forall|a: int| 0 <= a < i ==> (#[trigger] deps@[a])@ == cs@[a].depends_on@,
        decreases cs.len() - i,
    {
        names.push(cs[i].name.clone());
        deps.push(crate::model::clone_strings(&cs[i].depends_on));
        i = i + 1;
    }
    assert(texts(names@) =~= spec_names_of(cs@));
    assert(texts2(deps@) =~= spec_deps_of(cs@));
    (names, deps)
}

impl ProcessRegistry {
    /// Names and dependencies of the programs of `order`, in that order.
    pub fn names_and_deps_of(&self, order: &Vec<u128>) -> (r: (Vec<String>, Vec<Vec<String>>))
        requires
            forall|a: int| 0 <= a < order@.len() ==> self.programs@.contains_key(#[trigger] order@[a]),
        ensures
            texts(r.0@) == spec_names_of(spec_values(self.programs@, order@)),
            texts2(r.1@) == spec_deps_of(spec_values(self.programs@, order@)),
            r.0@.len() == r.1@.len() == order@.len(),
    {
        let ghost cs = spec_values(self.programs@, order@);
        let mut names: Vec<String> = Vec::new();
        let mut deps: Vec<Vec<String>> = Vec::new();
        let mut i: usize = 0;
        while i < order.len()
            invariant
                i <= order@.len(),
                cs == spec_values(self.programs@, order@),
                forall|a: int| 0 <= a < order@.len() ==> self.programs@.contains_key(#[trigger] order@[a]),
                names@.len() == i,
                deps@.len() == i,
                forall|a: int| 0 <= a < i ==> (#[trigger] names@[a])@ == cs[a].name@,
                forall|a: int| 0 <= a < i ==> (#[trigger] deps@[a])@ == cs[a].depends_on@,
            decreases order.len() - i,
        {
            let c = match self.programs.get(&order[i]) {
                Some(c) => c,
                None => {
                    assert(false);
                    return (names, deps);
                },
            };
            names.push(c.name.clone());
            deps.push(crate::model::clone_strings(&c.depends_on));
            i = i + 1;
        }
        assert(texts(names@) =~= spec_names_of(cs));
        assert(texts2(deps@) =~= spec_deps_of(cs));
        (names, deps)
    }
}

/// The first dependency that names no program, if any.
pub fn first_unknown(programs: &ProcessRegistry, deps: &Vec<String>) -> (r: Option<usize>)
    ensures
        match r {
            Some(k) => {
                &&& k < deps@.len()
                &&& !crate::lifecycle::spec_has_name(programs.programs@, deps@[k as int]@)
                &&& forall|x: int| 0 <= x < k ==> crate::lifecycle::spec_has_name(programs.programs@, #[trigger] deps@[x]@)
            },
            None => forall|x: int|
                0 <= x < deps@.len() ==> crate::lifecycle::spec_has_name(programs.programs@, #[trigger] deps@[x]@),
        },
{
    let mut k: usize = 0;
    while k < deps.len()
        invariant
            k <= deps@.len(),
            forall|x: int| 0 <= x < k ==> crate::lifecycle::spec_has_name(programs.programs@, #[trigger] deps@[x]@),
        decreases deps.len() - k,
    {
        if programs.find_program_id_by_name(&deps[k]).is_none() {
            return Some(k);
        }
        k = k + 1;
    }
    None
}

/// Whether a listing of programs followed by further entries has a
/// dependency cycle does not depend on the order of the listing.
pub proof fn lemma_reorder_acyclic(
    m: Map<u128, ProgramConfig>,
    o1: Seq<u128>,
    o2: Seq<u128>,
    en: Seq<Seq<char>>,
    ed: Seq<Seq<Seq<char>>>,
)
    requires
        o1.no_duplicates(),
        o2.no_duplicates(),
        forall|k: u128| o1.contains(k) <==> o2.contains(k),
        en.len() == ed.len(),
        spec_seq_acyclic(spec_names_of(spec_values(m, o1)) + en, spec_deps_of(spec_values(m, o1)) + ed),
    ensures
        spec_seq_acyclic(spec_names_of(spec_values(m, o2)) + en, spec_deps_of(spec_values(m, o2)) + ed),
{
    let n1 = spec_names_of(spec_values(m, o1)) + en;
    let d1 = spec_deps_of(spec_values(m, o1)) + ed;
    let n2 = spec_names_of(spec_values(m, o2)) + en;
    let d2 = spec_deps_of(spec_values(m, o2)) + ed;
    let rank1 = choose|rank: spec_fn(int) -> nat| #[trigger] spec_seq_ranked(n1, d1, rank);
    let l1 = o1.len() as int;
    let l2 = o2.len() as int;
    let f = |x: int| if x < l2 {
        choose|i: int| 0 <= i < o1.len() && o1[i] == o2[x]
    } else {
        x - l2 + l1
    };
    assert forall|x: int| 0 <= x < n2.len() implies 0 <= #[trigger] f(x) < n1.len() && n2[x] == n1[f(x)] && d2[x]
        == d1[f(x)] by {
        if x < l2 {
            assert(o2.contains(o2[x]));
            assert(o1.contains(o2[x]));
            let i = f(x);
            assert(o1[i] == o2[x]);
        }
    }
    let rank2 = |x: int| rank1(f(x));
    assert forall|x: int, y: int|
        0 <= x < n2.len() && 0 <= y < n2.len() && #[trigger] spec_dep_on(n2, d2, x, y) implies rank2(y) < rank2(x) by {
        assert(0 <= f(x) < n1.len() && 0 <= f(y) < n1.len());
        assert(spec_dep_on(n1, d1, f(x), f(y)));
    }
    assert(spec_seq_ranked(n2, d2, rank2));
}

/// Removing programs keeps the dependencies acyclic.
pub proof fn lemma_sub_acyclic(m: Map<u128, ProgramConfig>, s: Map<u128, ProgramConfig>)
    requires
        spec_acyclic(m),
        forall|k: u128| #[trigger] s.contains_key(k) ==> m.contains_key(k) && s[k] == m[k],
    ensures
        spec_acyclic(s),
{
    let rank = choose|rank: spec_fn(u128) -> nat| #[trigger] spec_ranked(m, rank);
    assert forall|p: u128, d: u128|
        s.contains_key(p) && s.contains_key(d) && #[trigger] spec_depends(s[p], s[d]) implies rank(d) < rank(p) by {
        assert(spec_depends(m[p], m[d]));
    }
    assert(spec_ranked(s, rank));
}

/// Whether `d` is one of `names`.
pub fn contains_text(names: &Vec<String>, d: &String) -> (r: bool)
    ensures
        r == texts(names@).contains(d@),
{
    let mut i: usize = 0;
    while i < names.len()
        invariant
            i <= names@.len(),
            forall|x: int| 0 <= x < i ==> names@[x]@ != d@,
        decreases names.len() - i,
    {
        if names[i] == *d {
            assert(texts(names@)[i as int] == d@);
            return true;
        }
        i = i + 1;
    }
    proof {
        if texts(names@).contains(d@) {
            let x = choose|x: int| 0 <= x < names@.len() && texts(names@)[x] == d@;
            assert(names@[x]@ == d@);
        }
    }
    false
}

/// Position of `k` in `order`.
pub fn position(order: &Vec<u128>, k: u128) -> (r: Option<usize>)
    ensures
        match r {
            Some(p) => p < order@.len() && order@[p as int] == k,
            None => !order@.contains(k),
        },
{
    let mut i: usize = 0;
    while i < order.len()
        invariant
            i <= order@.len(),
            forall|x: int| 0 <= x < i ==> order@[x] != k,
        decreases order.len() - i,
    {
        if order[i] == k {
            return Some(i);
        }
        i = i + 1;
    }
    proof {
        if order@.contains(k) {
            let x = choose|x: int| 0 <= x < order@.len() && order@[x] == k;
            assert(order@[x] != k);
        }
    }
    None
}

/// A listing of a map names exactly the names its programs have.
pub proof fn lemma_listing_names(m: Map<u128, ProgramConfig>, order: Seq<u128>, d: Seq<char>)
    requires
        spec_lists(m, order),
    ensures
        crate::lifecycle::spec_has_name(m, d) <==> spec_names_of(spec_values(m, order)).contains(d),
{
    let ns = spec_names_of(spec_values(m, order));
    if crate::lifecycle::spec_has_name(m, d) {
        let k = choose|k: u128| #[trigger] m.contains_key(k) && m[k].name@ == d;
        assert(order.contains(k));
        let i = choose|i: int| 0 <= i < order.len() && order[i] == k;
        assert(ns[i] == d);
    }
    if ns.contains(d) {
        let i = choose|i: int| 0 <= i < ns.len() && ns[i] == d;
        assert(order.contains(order[i]));
        assert(m.contains_key(order[i]) && m[order[i]].name@ == d);
    }
}

} // verus!

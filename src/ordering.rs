use vstd::prelude::*;
use vstd::set_lib::{lemma_int_range, lemma_len_subset, set_int_range};

use crate::model::maps::{PredicateObjectMap, ReferencingObjectMap};
use crate::model::source::TriplesMap;
use crate::process::{lemma_parent_of_from_bounds, parent_of, parent_position};

verus! {

pub open spec fn opt_int(o: Option<usize>) -> Option<int> {
    match o {
        Some(x) => Some(x as int),
        None => None,
    }
}

/// The parents a group of predicate-object maps joins to, by position in
/// the mapping (`None`: no triples map has that URI).
pub open spec fn pom_parents(maps: Seq<TriplesMap>, poms: Seq<PredicateObjectMap>) -> Seq<Option<int>>
    decreases poms.len(),
{
    if poms.len() == 0 {
        Seq::empty()
    } else {
        pom_parents(maps, poms.drop_last()) + poms.last().ref_object_maps@.map_values(
            |r: ReferencingObjectMap| parent_of(maps, r.parent_uri@),
        )
    }
}

/// The parents triples map `i` joins to.
pub open spec fn map_parents(maps: Seq<TriplesMap>, i: int) -> Seq<Option<int>> {
    pom_parents(maps, maps[i].predicate_object_maps@)
}

/// Whether triples map `i` must come after triples map `j`: it joins to it,
/// and is not `j` itself.
pub open spec fn depends_on(maps: Seq<TriplesMap>, i: int, j: int) -> bool {
    i != j && map_parents(maps, i).contains(Some(j))
}

/// Whether some join names a parent that no triples map has as URI.
pub open spec fn has_unknown_parent(maps: Seq<TriplesMap>) -> bool {
    exists|i: int| 0 <= i < maps.len() && #[trigger] map_parents(maps, i).contains(None)
}

/// Whether some nonempty set of triples maps each depend on another of the
/// set: the joins form a cycle.
pub open spec fn has_cycle(maps: Seq<TriplesMap>) -> bool {
    exists|s: Set<int>| #[trigger] cycle_witness(maps, s)
}

/// A nonempty set of triples maps in which each depends on another.
#[verifier::opaque]
pub open spec fn cycle_witness(maps: Seq<TriplesMap>, s: Set<int>) -> bool {
    &&& exists|i: int| #[trigger] s.contains(i)
    &&& forall|i: int|
        #[trigger] s.contains(i) ==> 0 <= i < maps.len() && exists|j: int|
            #[trigger] s.contains(j) && depends_on(maps, i, j)
}

/// Whether `order` lists every triples map once, each after every triples
/// map it depends on.
pub open spec fn valid_order(maps: Seq<TriplesMap>, order: Seq<int>) -> bool {
    &&& order.no_duplicates()
    &&& forall|a: int| 0 <= a < order.len() ==> 0 <= #[trigger] order[a] < maps.len()
    &&& forall|i: int| 0 <= i < maps.len() ==> order.contains(i)
    &&& forall|a: int, b: int|
        0 <= a < b < order.len() ==> !depends_on(maps, #[trigger] order[a], #[trigger] order[b])
}

pub open spec fn order_view(v: Seq<usize>) -> Seq<int> {
    v.map_values(|x: usize| x as int)
}

/// Why triples maps cannot be put in dependency order.
#[derive(Debug, Clone, Copy, PartialEq, Eq)]
pub enum OrderError {
    UnknownParent,
    Cycle,
}

fn map_parents_exec(maps: &Vec<TriplesMap>, i: usize) -> (r: Vec<Option<usize>>)
    requires
        i < maps@.len(),
    ensures
        r@.map_values(|o: Option<usize>| opt_int(o)) == map_parents(maps@, i as int),
        forall|k: int| 0 <= k < r@.len() ==> (#[trigger] r@[k] matches Some(p) ==> p < maps@.len()),
{
    let poms = &maps[i].predicate_object_maps;
    let mut out: Vec<Option<usize>> = Vec::new();
    let mut k: usize = 0;
    assert(poms@.subrange(0, 0) =~= Seq::<PredicateObjectMap>::empty());
    assert(out@.map_values(|o: Option<usize>| opt_int(o)) =~= Seq::empty());
    while k < poms.len()
        invariant
            0 <= k <= poms@.len(),
            out@.map_values(|o: Option<usize>| opt_int(o)) == pom_parents(maps@, poms@.subrange(0, k as int)),
            forall|x: int| 0 <= x < out@.len() ==> (#[trigger] out@[x] matches Some(p) ==> p < maps@.len()),
        decreases poms.len() - k,
    {
        assert(poms@.subrange(0, k + 1).drop_last() =~= poms@.subrange(0, k as int));
        let roms = &poms[k].ref_object_maps;
        let ghost start = out@.map_values(|o: Option<usize>| opt_int(o));
        let mut l: usize = 0;
        while l < roms.len()
            invariant
                0 <= l <= roms@.len(),
                out@.map_values(|o: Option<usize>| opt_int(o)) == start + roms@.subrange(0, l as int).map_values(
                    |r: ReferencingObjectMap| parent_of(maps@, r.parent_uri@),
                ),
                forall|x: int| 0 <= x < out@.len() ==> (#[trigger] out@[x] matches Some(p) ==> p < maps@.len()),
            decreases roms.len() - l,
        {
            let found = parent_position(maps, &roms[l].parent_uri);
            proof {
                lemma_parent_of_from_bounds(maps@, roms@[l as int].parent_uri@, 0);
            }
            let ghost before = out@;
            out.push(found);
            assert(out@.map_values(|o: Option<usize>| opt_int(o)) =~= before.map_values(
                |o: Option<usize>| opt_int(o),
            ).push(opt_int(found)));
            assert(roms@.subrange(0, l + 1).map_values(
                |r: ReferencingObjectMap| parent_of(maps@, r.parent_uri@),
            ) =~= roms@.subrange(0, l as int).map_values(
                |r: ReferencingObjectMap| parent_of(maps@, r.parent_uri@),
            ).push(parent_of(maps@, roms@[l as int].parent_uri@)));
            l = l + 1;
        }
        assert(roms@.subrange(0, roms.len() as int) =~= roms@);
        k = k + 1;
    }
    assert(poms@.subrange(0, poms.len() as int) =~= poms@);
    out
}

proof fn lemma_missing_element(order: Seq<int>, n: int)
    requires
        order.no_duplicates(),
        order.len() < n,
        0 <= n,
        forall|a: int| 0 <= a < order.len() ==> 0 <= #[trigger] order[a] < n,
    ensures
        exists|i: int| 0 <= i < n && !order.contains(i),
{
    if forall|i: int| 0 <= i < n ==> order.contains(i) {
        lemma_int_range(0, n);
        order.unique_seq_to_set();
        assert(set_int_range(0, n).subset_of(order.to_set()));
        lemma_len_subset(set_int_range(0, n), order.to_set());
    }
}

proof fn lemma_all_present(order: Seq<int>, n: int)
    requires
        order.no_duplicates(),
        order.len() == n,
        forall|a: int| 0 <= a < order.len() ==> 0 <= #[trigger] order[a] < n,
    ensures
        forall|i: int| 0 <= i < n ==> order.contains(i),
{
    assert forall|i: int| 0 <= i < n implies order.contains(i) by {
        if !order.contains(i) {
            lemma_int_range(0, n);
            order.unique_seq_to_set();
            assert(order.to_set().subset_of(set_int_range(0, n).remove(i)));
            lemma_len_subset(order.to_set(), set_int_range(0, n).remove(i));
        }
    }
}

/// Whether every triples map that `x` depends on is placed.
pub open spec fn ready(maps: Seq<TriplesMap>, placed: Seq<bool>, x: int) -> bool {
    forall|j: int| #[trigger] depends_on(maps, x, j) ==> 0 <= j < maps.len() && placed[j]
}

/// The facts about the table of parents that the ordering relies on.
pub open spec fn parents_ok(maps: Seq<TriplesMap>, parents: Seq<Vec<Option<usize>>>) -> bool {
    &&& parents.len() == maps.len()
    &&& forall|x: int|
        0 <= x < maps.len() ==> (#[trigger] parents[x])@.map_values(|o: Option<usize>| opt_int(o))
            == map_parents(maps, x)
    &&& forall|x: int, k: int|
        0 <= x < maps.len() && 0 <= k < parents[x]@.len() ==> (#[trigger] parents[x]@[k] matches Some(
            p,
        ) && p < maps.len())
}

fn is_ready(
    maps: &Vec<TriplesMap>,
    parents: &Vec<Vec<Option<usize>>>,
    placed: &Vec<bool>,
    c: usize,
) -> (r: bool)
    requires
        parents_ok(maps@, parents@),
        placed@.len() == maps@.len(),
        c < maps@.len(),
    ensures
        r == ready(maps@, placed@, c as int),
{
    let ps = &parents[c];
    let ghost mp = map_parents(maps@, c as int);
    assert(ps@.map_values(|o: Option<usize>| opt_int(o)) == mp);
    let mut k: usize = 0;
    while k < ps.len()
        invariant
            0 <= k <= ps@.len(),
            c < maps@.len(),
            placed@.len() == maps@.len(),
            parents_ok(maps@, parents@),
            ps == parents@[c as int],
            ps@.map_values(|o: Option<usize>| opt_int(o)) == mp,
            forall|y: int|
                0 <= y < k ==> (#[trigger] ps@[y] matches Some(p) && (p == c || placed@[p as int])),
        decreases ps.len() - k,
    {
        assert(ps@[k as int] is Some);
        let p = ps[k].unwrap();
        if p != c && !placed[p] {
            assert(mp[k as int] == Some(p as int));
            assert(depends_on(maps@, c as int, p as int));
            return false;
        }
        k = k + 1;
    }
    assert forall|j: int| #[trigger] depends_on(maps@, c as int, j) implies 0 <= j < maps@.len()
        && placed@[j] by {
        let y = choose|y: int| 0 <= y < mp.len() && mp[y] == Some(j);
        assert(ps@[y] is Some);
    }
    true
}

fn find_ready(maps: &Vec<TriplesMap>, parents: &Vec<Vec<Option<usize>>>, placed: &Vec<bool>) -> (r: Option<usize>)
    requires
        parents_ok(maps@, parents@),
        placed@.len() == maps@.len(),
    ensures
        r matches Some(f) ==> f < maps@.len() && !placed@[f as int] && ready(maps@, placed@, f as int),
        r is None ==> forall|x: int|
            0 <= x < maps@.len() && !placed@[x] ==> !(#[trigger] ready(maps@, placed@, x)),
{
    let n = maps.len();
    let mut c: usize = 0;
    while c < n
        invariant
            n == maps@.len(),
            0 <= c <= n,
            parents_ok(maps@, parents@),
            placed@.len() == n,
            forall|x: int| 0 <= x < c && !placed@[x] ==> !(#[trigger] ready(maps@, placed@, x)),
        decreases n - c,
    {
        if !placed[c] && is_ready(maps, parents, placed, c) {
            return Some(c);
        }
        c = c + 1;
    }
    None
}

/// The facts the ordering keeps about the maps placed so far.
pub open spec fn placement_ok(maps: Seq<TriplesMap>, ov: Seq<int>, placed: Seq<bool>) -> bool {
    &&& placed.len() == maps.len()
    &&& ov.no_duplicates()
    &&& forall|a: int| 0 <= a < ov.len() ==> 0 <= #[trigger] ov[a] < maps.len()
    &&& forall|x: int| 0 <= x < maps.len() ==> (#[trigger] placed[x] <==> ov.contains(x))
    &&& forall|a: int, b: int|
        0 <= a < b < ov.len() ==> !depends_on(maps, #[trigger] ov[a], #[trigger] ov[b])
    &&& forall|a: int| 0 <= a < ov.len() ==> ready(maps, placed, #[trigger] ov[a])
}

proof fn lemma_place(maps: Seq<TriplesMap>, ov: Seq<int>, old_placed: Seq<bool>, placed: Seq<bool>, f: int)
    requires
        placement_ok(maps, ov, old_placed),
        0 <= f < maps.len(),
        !old_placed[f],
        ready(maps, old_placed, f),
        placed == old_placed.update(f, true),
    ensures
        placement_ok(maps, ov.push(f), placed),
{
    let nv = ov.push(f);
    assert forall|a: int, b: int| 0 <= a < b < nv.len() implies nv[a] != nv[b] by {
        if b == ov.len() {
            assert(ov.contains(ov[a]));
        }
    }
    assert forall|x: int| 0 <= x < maps.len() implies (#[trigger] placed[x] <==> nv.contains(x)) by {
        if ov.contains(x) {
            let k = choose|k: int| 0 <= k < ov.len() && ov[k] == x;
            assert(nv[k] == x);
        }
        if nv.contains(x) && x != f {
            let k = choose|k: int| 0 <= k < nv.len() && nv[k] == x;
            assert(ov[k] == x);
        }
        if x == f {
            assert(nv[ov.len() as int] == f);
        }
    }
    assert forall|a: int| 0 <= a < nv.len() implies ready(maps, placed, #[trigger] nv[a]) by {
        let x = nv[a];
        if a < ov.len() {
            assert(ready(maps, old_placed, ov[a]));
        }
        assert forall|j: int| #[trigger] depends_on(maps, x, j) implies 0 <= j < maps.len() && placed[j] by {
            if a < ov.len() {
                assert(ready(maps, old_placed, ov[a]));
            }
        }
    }
    assert forall|a: int, b: int|
        0 <= a < b < nv.len() implies !depends_on(maps, #[trigger] nv[a], #[trigger] nv[b]) by {
        if b == ov.len() {
            assert(ready(maps, old_placed, ov[a]));
            assert(!old_placed[f]);
        }
    }
}

proof fn lemma_stuck(maps: Seq<TriplesMap>, parents: Seq<Vec<Option<usize>>>, ov: Seq<int>, placed: Seq<bool>)
    requires
        parents_ok(maps, parents),
        placement_ok(maps, ov, placed),
        ov.len() < maps.len(),
        forall|x: int| 0 <= x < maps.len() && !placed[x] ==> !(#[trigger] ready(maps, placed, x)),
    ensures
        has_cycle(maps),
{
    let n = maps.len() as int;
    lemma_missing_element(ov, n);
    let s = Set::new(|x: int| 0 <= x < n && !placed[x]);
    let w = choose|x: int| 0 <= x < n && !ov.contains(x);
    assert(s.contains(w));
    assert forall|x: int| #[trigger] s.contains(x) implies 0 <= x < maps.len() && exists|j: int|
        #[trigger] s.contains(j) && depends_on(maps, x, j) by {
        assert(!ready(maps, placed, x));
        let j = choose|j: int| #[trigger] depends_on(maps, x, j) && !(0 <= j < maps.len() && placed[j]);
        assert(0 <= j < maps.len()) by {
            let mp = map_parents(maps, x);
            let y = choose|y: int| 0 <= y < mp.len() && mp[y] == Some(j);
            assert(parents[x]@.map_values(|o: Option<usize>| opt_int(o))[y] == Some(j));
            assert(parents[x]@[y] is Some);
        }
        assert(s.contains(j));
    }
    reveal(cycle_witness);
    assert(cycle_witness(maps, s));
}

/// Puts the triples maps in an order where every parent of a join comes
/// before its children (a self-join is no dependency). Fails when a join
/// names an unknown triples map, or when the joins form a cycle.
pub fn dependency_order(maps: &Vec<TriplesMap>) -> (r: Result<Vec<usize>, OrderError>)
    ensures
        match r {
            Ok(order) => !has_unknown_parent(maps@) && !has_cycle(maps@) && valid_order(
                maps@,
                order_view(order@),
            ),
            Err(OrderError::UnknownParent) => has_unknown_parent(maps@),
            Err(OrderError::Cycle) => !has_unknown_parent(maps@) && has_cycle(maps@),
        },
{
    let n = maps.len();
    let mut parents: Vec<Vec<Option<usize>>> = Vec::new();
    let mut i: usize = 0;
    while i < n
        invariant
            n == maps@.len(),
            0 <= i <= n,
            parents@.len() == i,
            forall|x: int|
                0 <= x < i ==> (#[trigger] parents@[x])@.map_values(|o: Option<usize>| opt_int(o))
                    == map_parents(maps@, x),
            forall|x: int, k: int|
                0 <= x < i && 0 <= k < parents@[x]@.len() ==> (#[trigger] parents@[x]@[k] matches Some(
                    p,
                ) && p < n),
        decreases n - i,
    {
        let ps = map_parents_exec(maps, i);
        let mut k: usize = 0;
        while k < ps.len()
            invariant
                0 <= k <= ps@.len(),
                i < n,
                n == maps@.len(),
                ps@.map_values(|o: Option<usize>| opt_int(o)) == map_parents(maps@, i as int),
                forall|y: int| 0 <= y < ps@.len() ==> (#[trigger] ps@[y] matches Some(p) ==> p < n),
                forall|y: int| 0 <= y < k ==> #[trigger] ps@[y] is Some,
            decreases ps.len() - k,
        {
            if ps[k].is_none() {
                assert(map_parents(maps@, i as int)[k as int] == None::<int>);
                assert(map_parents(maps@, i as int).contains(None));
                return Err(OrderError::UnknownParent);
            }
            k = k + 1;
        }
        parents.push(ps);
        i = i + 1;
    }
    assert(parents_ok(maps@, parents@));
    assert(!has_unknown_parent(maps@)) by {
        if has_unknown_parent(maps@) {
            let x = choose|x: int| 0 <= x < maps.len() && #[trigger] map_parents(maps@, x).contains(None);
            let k = choose|k: int|
                0 <= k < map_parents(maps@, x).len() && map_parents(maps@, x)[k] == None::<int>;
            assert(parents@[x]@[k] is Some);
        }
    }
    let mut placed: Vec<bool> = Vec::new();
    let mut i: usize = 0;
    while i < n
        invariant
            0 <= i <= n,
            placed@.len() == i,
            forall|x: int| 0 <= x < i ==> !(#[trigger] placed@[x]),
        decreases n - i,
    {
        placed.push(false);
        i = i + 1;
    }
    let mut order: Vec<usize> = Vec::new();
    assert(order_view(order@) =~= Seq::empty());
    while order.len() < n
        invariant
            n == maps@.len(),
            order@.len() <= n,
            parents_ok(maps@, parents@),
            !has_unknown_parent(maps@),
            placement_ok(maps@, order_view(order@), placed@),
        decreases n - order@.len(),
    {
        let ghost ov = order_view(order@);
        let ghost old_placed = placed@;
        match find_ready(maps, &parents, &placed) {
            Some(f) => {
                placed.set(f, true);
                order.push(f);
                assert(order_view(order@) =~= ov.push(f as int));
                proof {
                    lemma_place(maps@, ov, old_placed, placed@, f as int);
                }
            },
            None => {
                proof {
                    lemma_stuck(maps@, parents@, ov, placed@);
                }
                return Err(OrderError::Cycle);
            },
        }
    }
    proof {
        lemma_all_present(order_view(order@), n as int);
        lemma_order_excludes_cycle(maps@, order_view(order@));
    }
    Ok(order)
}

proof fn lemma_witness_step(maps: Seq<TriplesMap>, s: Set<int>, i: int)
    requires
        cycle_witness(maps, s),
        s.contains(i),
    ensures
        exists|j: int| #[trigger] s.contains(j) && depends_on(maps, i, j) && 0 <= j < maps.len(),
{
    reveal(cycle_witness);
    let j = choose|j: int| #[trigger] s.contains(j) && depends_on(maps, i, j);
    assert(0 <= j < maps.len());
}

proof fn lemma_no_member_up_to(maps: Seq<TriplesMap>, order: Seq<int>, s: Set<int>, k: int)
    requires
        valid_order(maps, order),
        cycle_witness(maps, s),
        0 <= k < order.len(),
    ensures
        forall|a: int| 0 <= a <= k ==> !s.contains(#[trigger] order[a]),
    decreases k,
{
    if k > 0 {
        lemma_no_member_up_to(maps, order, s, k - 1);
    }
    if s.contains(order[k]) {
        lemma_witness_step(maps, s, order[k]);
        let j = choose|j: int| #[trigger] s.contains(j) && depends_on(maps, order[k], j) && 0 <= j < maps.len();
        assert(order.contains(j));
        let b = choose|b: int| 0 <= b < order.len() && order[b] == j;
        if b > k {
            assert(!depends_on(maps, order[k], order[b]));
        }
        assert(b != k);
    }
}

/// A valid order exists only where the joins form no cycle.
pub proof fn lemma_order_excludes_cycle(maps: Seq<TriplesMap>, order: Seq<int>)
    requires
        valid_order(maps, order),
    ensures
        !has_cycle(maps),
{
    if has_cycle(maps) {
        let s = choose|s: Set<int>| #[trigger] cycle_witness(maps, s);
        assert(cycle_witness(maps, s));
        reveal(cycle_witness);
        let w = choose|i: int| #[trigger] s.contains(i);
        assert(0 <= w < maps.len());
        assert(order.contains(w));
        let a = choose|a: int| 0 <= a < order.len() && order[a] == w;
        lemma_no_member_up_to(maps, order, s, order.len() - 1);
        assert(!s.contains(order[a]));
    }
}

} // verus!

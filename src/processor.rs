use vstd::prelude::*;

use crate::evaluate::{opt_view, FunctionCall};
use crate::generate::{quads_view, Quad};
use crate::iri::{absolute_iri, is_absolute_iri};
use crate::join::ParentEntry;
use crate::model::function::Return;
use crate::model::source::TriplesMap;
use crate::ordering::{
    dependency_order, has_cycle, has_unknown_parent, order_view,
    valid_order, OrderError,
};
use crate::process::{
    index_ok, indexes_view, lemma_run_steps_with_prefix, map_steps_with, map_values_ok,
    run_steps_with, run_values_ok, RecordValues, map_function_free, mapping_function_free, process_map, run_steps,
    RunState,
};
use crate::record::Record;

verus! {

/// Why a mapping run fails as a whole.
#[derive(Debug, Clone, Copy, PartialEq, Eq)]
pub enum ProcessError {
    /// A predicate-object map has no predicate map.
    MissingPredicateMaps,
    /// There is not exactly one record sequence per triples map.
    SourceCountMismatch,
    /// The base IRI is not an absolute IRI.
    InvalidBaseIri,
    /// A join names a parent triples map that the mapping does not have.
    UnknownParentTriplesMap,
    /// The joins between triples maps form a cycle.
    CyclicJoins,
}

/// The state a run starts from: no quads, and an empty index per map.
pub open spec fn run_start(n: nat) -> RunState {
    RunState { quads: Seq::empty(), index: Seq::new(n, |i: int| Seq::<(crate::term::TermV, int)>::empty()) }
}

/// Whether a configured base IRI is malformed.
pub open spec fn base_invalid(base: Option<Seq<char>>) -> bool {
    match base {
        Some(b) => !absolute_iri(b),
        None => false,
    }
}

/// Whether some predicate-object map of the mapping has no predicate map.
pub open spec fn has_empty_predicate_maps(maps: Seq<TriplesMap>) -> bool {
    exists|p: int, k: int|
        0 <= p < maps.len() && 0 <= k < maps[p].predicate_object_maps@.len()
            && (#[trigger] maps[p].predicate_object_maps@[k]).predicate_maps@.len() == 0
}

/// Whether some predicate-object map has no predicate map.
pub fn missing_predicate_maps(maps: &Vec<TriplesMap>) -> (r: bool)
    ensures
        r == has_empty_predicate_maps(maps@),
{
    let mut p: usize = 0;
    while p < maps.len()
        invariant
            0 <= p <= maps@.len(),
            forall|q: int, k: int|
                0 <= q < p && 0 <= k < maps@[q].predicate_object_maps@.len()
                    ==> (#[trigger] maps@[q].predicate_object_maps@[k]).predicate_maps@.len() > 0,
        decreases maps.len() - p,
    {
        let poms = &maps[p].predicate_object_maps;
        let mut k: usize = 0;
        while k < poms.len()
            invariant
                0 <= p < maps@.len(),
                poms == maps@[p as int].predicate_object_maps,
                0 <= k <= poms@.len(),
                forall|q: int, j: int|
                    0 <= q < p && 0 <= j < maps@[q].predicate_object_maps@.len()
                        ==> (#[trigger] maps@[q].predicate_object_maps@[j]).predicate_maps@.len() > 0,
                forall|j: int| 0 <= j < k ==> (#[trigger] poms@[j]).predicate_maps@.len() > 0,
            decreases poms.len() - k,
        {
            if poms[k].predicate_maps.len() == 0 {
                assert(maps@[p as int].predicate_object_maps@[k as int].predicate_maps@.len() == 0);
                return true;
            }
            k = k + 1;
        }
        p = p + 1;
    }
    false
}

/// Runs mappings, resolving relative IRIs against an optional base IRI.
pub struct RmlProcessor {
    base_iri: Option<String>,
}

impl RmlProcessor {
    pub closed spec fn base(&self) -> Option<Seq<char>> {
        opt_view(self.base_iri)
    }

    pub fn new(base_iri: Option<String>) -> (r: Self)
        ensures
            r.base() == opt_view(base_iri),
    {
        RmlProcessor { base_iri }
    }

    /// Runs the triples maps over their records (`sources[i]` holds the
    /// records of `maps[i]`), parents of joins before their children, and
    /// returns the quads produced. `call` runs the functions that term
    /// maps execute. Configuration errors abort the run before any quad is
    /// produced; a term that cannot be made is skipped.
    pub fn process<F: Fn(&FunctionCall) -> Option<Return>>(
        &self,
        maps: &Vec<TriplesMap>,
        sources: &Vec<Vec<Record>>,
        call: &F,
    ) -> (r: Result<Vec<Quad>, ProcessError>)
        requires
            forall|c: &FunctionCall| call.requires((c,)),
        ensures
            (r == Err::<Vec<Quad>, ProcessError>(ProcessError::MissingPredicateMaps))
                <==> has_empty_predicate_maps(maps@),
            r matches Ok(quads) ==> exists|order: Seq<int>, vss: Seq<Seq<RecordValues>>|
                #[trigger] run_values_ok(maps@, sources@, self.base(), order, *call, vss) && valid_order(
                    maps@,
                    order,
                ) && quads_view(quads@) == run_steps_with(
                    maps@,
                    sources@,
                    self.base(),
                    order,
                    run_start(maps@.len()),
                    vss,
                ).quads,
            match r {
                Err(ProcessError::MissingPredicateMaps) => has_empty_predicate_maps(maps@),
                Err(ProcessError::SourceCountMismatch) => sources@.len() != maps@.len(),
                Err(ProcessError::InvalidBaseIri) => sources@.len() == maps@.len() && base_invalid(
                    self.base(),
                ),
                Err(ProcessError::UnknownParentTriplesMap) => sources@.len() == maps@.len()
                    && !base_invalid(self.base()) && has_unknown_parent(maps@),
                Err(ProcessError::CyclicJoins) => sources@.len() == maps@.len() && !base_invalid(
                    self.base(),
                ) && !has_unknown_parent(maps@) && has_cycle(maps@),
                Ok(quads) => sources@.len() == maps@.len() && !base_invalid(self.base())
                    && !has_unknown_parent(maps@) && !has_cycle(maps@) && exists|order: Seq<int>|
                    #[trigger] valid_order(maps@, order) && (mapping_function_free(maps@) ==> quads_view(quads@)
                        == run_steps(
                        maps@,
                        sources@,
                        self.base(),
                        order,
                        run_start(maps@.len()),
                    ).quads),
            },
    {
        if missing_predicate_maps(maps) {
            return Err(ProcessError::MissingPredicateMaps);
        }
        if sources.len() != maps.len() {
            return Err(ProcessError::SourceCountMismatch);
        }
        match &self.base_iri {
            Some(b) => {
                if !is_absolute_iri(b.as_str()) {
                    return Err(ProcessError::InvalidBaseIri);
                }
            },
            None => {},
        }
        let order = match dependency_order(maps) {
            Ok(o) => o,
            Err(OrderError::UnknownParent) => {
                return Err(ProcessError::UnknownParentTriplesMap);
            },
            Err(OrderError::Cycle) => {
                return Err(ProcessError::CyclicJoins);
            },
        };
        let ghost ov = order_view(order@);
        let n = maps.len();
        let mut indexes: Vec<Vec<ParentEntry>> = Vec::new();
        let mut i: usize = 0;
        while i < n
            invariant
                0 <= i <= n,
                indexes@.len() == i,
                forall|x: int| 0 <= x < i ==> (#[trigger] indexes@[x])@.len() == 0,
            decreases n - i,
        {
            indexes.push(Vec::new());
            i = i + 1;
        }
        let ghost start = run_start(n as nat);
        assert forall|x: int| 0 <= x < n implies #[trigger] indexes_view(indexes@)[x] == start.index[x] by {
            assert(indexes_view(indexes@)[x] =~= Seq::<(crate::term::TermV, int)>::empty());
        }
        assert(indexes_view(indexes@) =~= start.index);
        let mut out: Vec<Quad> = Vec::new();
        assert(quads_view(out@) =~= start.quads);
        assert(ov.subrange(0, 0) =~= Seq::<int>::empty());
        let ghost b = opt_view(self.base_iri);
        let ghost mut vss: Seq<Seq<RecordValues>> = Seq::empty();
        let mut t: usize = 0;
        while t < order.len()
            invariant
                n == maps@.len(),
                sources@.len() == n,
                ov == order_view(order@),
                valid_order(maps@, ov),
                0 <= t <= order@.len(),
                forall|c: &FunctionCall| call.requires((c,)),
                index_ok(maps@, sources@, indexes_view(indexes@)),
                b == opt_view(self.base_iri),
                vss.len() == t,
                forall|j: int|
                    0 <= j < t ==> map_values_ok(maps@, sources@, b, ov[j], *call, #[trigger] vss[j]),
                (RunState { quads: quads_view(out@), index: indexes_view(indexes@) }) == run_steps_with(
                    maps@,
                    sources@,
                    b,
                    ov.subrange(0, t as int),
                    start,
                    vss,
                ),
                mapping_function_free(maps@) ==> indexes_view(indexes@) == run_steps(
                    maps@,
                    sources@,
                    opt_view(self.base_iri),
                    ov.subrange(0, t as int),
                    start,
                ).index,
                mapping_function_free(maps@) ==> quads_view(out@) == run_steps(
                    maps@,
                    sources@,
                    opt_view(self.base_iri),
                    ov.subrange(0, t as int),
                    start,
                ).quads,
            decreases order.len() - t,
        {
            assert(ov.subrange(0, t + 1).drop_last() =~= ov.subrange(0, t as int));
            assert(ov.subrange(0, t + 1).last() == ov[t as int]);
            assert(ov[t as int] == order@[t as int] as int);
            let p = order[t];
            proof {
                if mapping_function_free(maps@) {
                    assert(map_function_free(maps@[p as int]));
                }
            }
            let ghost before = RunState { quads: quads_view(out@), index: indexes_view(indexes@) };
            let ghost prev = run_steps(maps@, sources@, opt_view(self.base_iri), ov.subrange(0, t as int), start);
            process_map(maps, sources, &self.base_iri, p, &mut indexes, &mut out, call);
            proof {
                if mapping_function_free(maps@) {
                    assert(before == prev);
                }
                let mv = choose|vs: Seq<RecordValues>|
                    #[trigger] map_values_ok(maps@, sources@, b, p as int, *call, vs) && (RunState {
                        quads: quads_view(out@),
                        index: indexes_view(indexes@),
                    }) == map_steps_with(
                        maps@,
                        sources@,
                        b,
                        p as int,
                        sources@[p as int]@.len() as int,
                        before,
                        vs,
                    );
                let nvss = vss.push(mv);
                assert(nvss[t as int] == mv);
                assert forall|j: int| 0 <= j < t implies nvss[j] == vss[j] by {}
                assert forall|j: int|
                    0 <= j < t + 1 implies map_values_ok(maps@, sources@, b, ov[j], *call, #[trigger] nvss[j]) by {
                    if j < t {
                        assert(nvss[j] == vss[j]);
                    }
                }
                lemma_run_steps_with_prefix(maps@, sources@, b, ov.subrange(0, t as int), start, vss, nvss);
                assert(ov.subrange(0, t + 1).drop_last() =~= ov.subrange(0, t as int));
                vss = nvss;
            }
            t = t + 1;
        }
        assert(ov.subrange(0, order.len() as int) =~= ov);
        assert(self.base() == opt_view(self.base_iri));
        assert(valid_order(maps@, ov) && (mapping_function_free(maps@) ==> quads_view(out@)
            == run_steps(maps@, sources@, self.base(), ov, run_start(maps@.len())).quads));
        assert(!base_invalid(self.base()));
        assert(!has_cycle(maps@));
        assert(!has_unknown_parent(maps@));
        assert(run_values_ok(maps@, sources@, self.base(), ov, *call, vss));
        Ok(out)
    }
}

} // verus!

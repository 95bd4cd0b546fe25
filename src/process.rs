use vstd::prelude::*;

use crate::evaluate::{eval_spec, evaluate, opt_view, values_ok, FunctionCall};
use crate::generate::{
    graph_terms_with, graph_values_ok, object_terms_with, object_values_ok, predicate_terms_with,
    predicate_values_ok,
    graphs_function_free, predicates_function_free,
    cross_spec, graph_terms, graph_terms_spec, graphs_view, object_terms, object_terms_spec,
    objects_function_free, predicate_terms, predicate_terms_spec, push_cross, quads_view, terms_for_values,
    terms_of, Quad,
};
use crate::join::{
    entries_view, index_in_bounds, index_view, join_spec, resolve_join, terms_view, ParentEntry,
};
use crate::model::expression::strings_view;
use crate::model::function::Return;
use crate::model::maps::{PredicateObjectMap, ReferencingObjectMap};
use crate::model::source::{LogicalSource, TriplesMap};
use crate::record::Record;
use crate::term::{copy_term, materialize_spec, opt_term_view, Term, TermV};
use crate::vocab::RDF_TYPE;

verus! {

/// The position of the first triples map with the given URI.
pub open spec fn parent_of_from(maps: Seq<TriplesMap>, uri: Seq<char>, i: int) -> Option<int>
    decreases maps.len() - i,
{
    if i < 0 || i >= maps.len() {
        None
    } else if maps[i].uri@ == uri {
        Some(i)
    } else {
        parent_of_from(maps, uri, i + 1)
    }
}

pub open spec fn parent_of(maps: Seq<TriplesMap>, uri: Seq<char>) -> Option<int> {
    parent_of_from(maps, uri, 0)
}

pub proof fn lemma_parent_of_from_bounds(maps: Seq<TriplesMap>, uri: Seq<char>, i: int)
    requires
        0 <= i,
    ensures
        parent_of_from(maps, uri, i) matches Some(p) ==> i <= p < maps.len() && maps[p].uri@ == uri,
    decreases maps.len() - i,
{
    if i < maps.len() && maps[i].uri@ != uri {
        lemma_parent_of_from_bounds(maps, uri, i + 1);
    }
}

/// The position of the first triples map with URI `uri`.
pub fn parent_position(maps: &Vec<TriplesMap>, uri: &String) -> (r: Option<usize>)
    ensures
        match r {
            Some(p) => parent_of(maps@, uri@) == Some(p as int),
            None => parent_of(maps@, uri@) is None,
        },
{
    let mut i: usize = 0;
    while i < maps.len()
        invariant
            0 <= i <= maps@.len(),
            parent_of(maps@, uri@) == parent_of_from(maps@, uri@, i as int),
        decreases maps.len() - i,
    {
        if maps[i].uri == *uri {
            return Some(i);
        }
        i = i + 1;
    }
    None
}

/// The parent subjects that each referencing object map of a group
/// contributes, map by map.
pub open spec fn ref_terms_spec(
    roms: Seq<ReferencingObjectMap>,
    rec: Record,
    nulls: Seq<Seq<char>>,
    maps: Seq<TriplesMap>,
    sources: Seq<Vec<Record>>,
    index: Seq<Seq<(TermV, int)>>,
) -> Seq<TermV>
    decreases roms.len(),
{
    if roms.len() == 0 {
        Seq::empty()
    } else {
        let rom = roms.last();
        let rest = ref_terms_spec(roms.drop_last(), rec, nulls, maps, sources, index);
        match parent_of(maps, rom.parent_uri@) {
            Some(p) => rest + join_spec(
                rom.join_conditions@,
                rec,
                nulls,
                entries_view(index[p], sources[p]@),
                maps[p].logical_source.nulls_spec(),
            ),
            None => rest,
        }
    }
}

/// The state a run carries from record to record: the quads so far, and
/// for each triples map the subjects indexed so far with their records.
pub struct RunState {
    pub quads: Seq<(TermV, TermV, TermV, Option<TermV>)>,
    pub index: Seq<Seq<(TermV, int)>>,
}

pub open spec fn index_ok(maps: Seq<TriplesMap>, sources: Seq<Vec<Record>>, index: Seq<Seq<(TermV, int)>>) -> bool {
    &&& sources.len() == maps.len()
    &&& index.len() == maps.len()
    &&& forall|p: int| 0 <= p < index.len() ==> index_in_bounds(#[trigger] index[p], sources[p]@.len())
}

/// The graphs the quads of a predicate-object map go to: those of the
/// subject map and of the group, or the default graph when neither has
/// any graph map.
pub open spec fn pom_graphs_spec(
    tm: TriplesMap,
    pom: PredicateObjectMap,
    rec: Record,
    nulls: Seq<Seq<char>>,
    base: Option<Seq<char>>,
) -> Seq<Option<TermV>> {
    if tm.subject_map.graph_maps@.len() + pom.graph_maps@.len() == 0 {
        seq![None]
    } else {
        (graph_terms_spec(tm.subject_map.graph_maps@, rec, nulls, tm.uri@, base) + graph_terms_spec(
            pom.graph_maps@,
            rec,
            nulls,
            tm.uri@,
            base,
        )).map_values(|t: TermV| Some(t))
    }
}

/// The graphs the class quads of a subject go to.
pub open spec fn subject_graphs_spec(
    tm: TriplesMap,
    rec: Record,
    nulls: Seq<Seq<char>>,
    base: Option<Seq<char>>,
) -> Seq<Option<TermV>> {
    if tm.subject_map.graph_maps@.len() == 0 {
        seq![None]
    } else {
        graph_terms_spec(tm.subject_map.graph_maps@, rec, nulls, tm.uri@, base).map_values(
            |t: TermV| Some(t),
        )
    }
}

/// The quads of one predicate-object map for subject `s`.
pub open spec fn pom_quads_spec(
    s: TermV,
    tm: TriplesMap,
    pom: PredicateObjectMap,
    rec: Record,
    nulls: Seq<Seq<char>>,
    base: Option<Seq<char>>,
    maps: Seq<TriplesMap>,
    sources: Seq<Vec<Record>>,
    index: Seq<Seq<(TermV, int)>>,
) -> Seq<(TermV, TermV, TermV, Option<TermV>)> {
    cross_spec(
        s,
        predicate_terms_spec(pom.predicate_maps@, rec, nulls, tm.uri@, base),
        object_terms_spec(pom.object_maps@, rec, nulls, tm.uri@, base) + ref_terms_spec(
            pom.ref_object_maps@,
            rec,
            nulls,
            maps,
            sources,
            index,
        ),
        pom_graphs_spec(tm, pom, rec, nulls, base),
    )
}

/// The quads of the first `n` predicate-object maps for subject `s`.
pub open spec fn poms_quads_spec(
    s: TermV,
    tm: TriplesMap,
    n: int,
    rec: Record,
    nulls: Seq<Seq<char>>,
    base: Option<Seq<char>>,
    maps: Seq<TriplesMap>,
    sources: Seq<Vec<Record>>,
    index: Seq<Seq<(TermV, int)>>,
) -> Seq<(TermV, TermV, TermV, Option<TermV>)>
    decreases n,
{
    if n <= 0 {
        Seq::empty()
    } else {
        poms_quads_spec(s, tm, n - 1, rec, nulls, base, maps, sources, index) + pom_quads_spec(
            s,
            tm,
            tm.predicate_object_maps@[n - 1],
            rec,
            nulls,
            base,
            maps,
            sources,
            index,
        )
    }
}

/// All quads of subject `s`: one `rdf:type` quad per class and graph, then
/// those of every predicate-object map.
pub open spec fn subject_quads_spec(
    s: TermV,
    tm: TriplesMap,
    rec: Record,
    nulls: Seq<Seq<char>>,
    base: Option<Seq<char>>,
    maps: Seq<TriplesMap>,
    sources: Seq<Vec<Record>>,
    index: Seq<Seq<(TermV, int)>>,
) -> Seq<(TermV, TermV, TermV, Option<TermV>)> {
    cross_spec(
        s,
        seq![TermV::Named(RDF_TYPE@)],
        strings_view(tm.subject_map.classes@).map_values(|c: Seq<char>| TermV::Named(c)),
        subject_graphs_spec(tm, rec, nulls, base),
    ) + poms_quads_spec(
        s,
        tm,
        tm.predicate_object_maps@.len() as int,
        rec,
        nulls,
        base,
        maps,
        sources,
        index,
    )
}

/// The subjects a record gives under a triples map.
pub open spec fn subject_terms_spec(
    tm: TriplesMap,
    rec: Record,
    nulls: Seq<Seq<char>>,
    base: Option<Seq<char>>,
) -> Seq<TermV> {
    terms_of(
        eval_spec(tm.subject_map.expression, rec, nulls),
        tm.subject_map.term_type@,
        None,
        None,
        tm.uri@,
        base,
    )
}

/// The quads of the first `n` subjects of `subs`.
pub open spec fn subjects_quads_spec(
    subs: Seq<TermV>,
    n: int,
    tm: TriplesMap,
    rec: Record,
    nulls: Seq<Seq<char>>,
    base: Option<Seq<char>>,
    maps: Seq<TriplesMap>,
    sources: Seq<Vec<Record>>,
    index: Seq<Seq<(TermV, int)>>,
) -> Seq<(TermV, TermV, TermV, Option<TermV>)>
    decreases n,
{
    if n <= 0 {
        Seq::empty()
    } else {
        subjects_quads_spec(subs, n - 1, tm, rec, nulls, base, maps, sources, index)
            + subject_quads_spec(subs[n - 1], tm, rec, nulls, base, maps, sources, index)
    }
}

/// Processing record `r` of triples map `p`: its subjects join the map's
/// index first (so that a self-join sees them), then their quads are added.
pub open spec fn record_step(
    maps: Seq<TriplesMap>,
    sources: Seq<Vec<Record>>,
    base: Option<Seq<char>>,
    p: int,
    r: int,
    st: RunState,
) -> RunState {
    let tm = maps[p];
    let rec = sources[p]@[r];
    let nulls = tm.logical_source.nulls_spec();
    let subs = subject_terms_spec(tm, rec, nulls, base);
    let index = st.index.update(p, st.index[p] + subs.map_values(|s: TermV| (s, r)));
    RunState {
        quads: st.quads + subjects_quads_spec(
            subs,
            subs.len() as int,
            tm,
            rec,
            nulls,
            base,
            maps,
            sources,
            index,
        ),
        index,
    }
}

/// Processing the first `n` records of triples map `p`.
pub open spec fn map_steps(
    maps: Seq<TriplesMap>,
    sources: Seq<Vec<Record>>,
    base: Option<Seq<char>>,
    p: int,
    n: int,
    st: RunState,
) -> RunState
    decreases n,
{
    if n <= 0 {
        st
    } else {
        record_step(maps, sources, base, p, n - 1, map_steps(maps, sources, base, p, n - 1, st))
    }
}

/// Processing the triples maps of `order`, one after the other.
pub open spec fn run_steps(
    maps: Seq<TriplesMap>,
    sources: Seq<Vec<Record>>,
    base: Option<Seq<char>>,
    order: Seq<int>,
    st: RunState,
) -> RunState
    decreases order.len(),
{
    if order.len() == 0 {
        st
    } else {
        let before = run_steps(maps, sources, base, order.drop_last(), st);
        map_steps(maps, sources, base, order.last(), sources[order.last()]@.len() as int, before)
    }
}

/// Whether no term map of a predicate-object map executes a function.
pub open spec fn pom_function_free(pom: PredicateObjectMap) -> bool {
    &&& predicates_function_free(pom.predicate_maps@)
    &&& objects_function_free(pom.object_maps@)
    &&& graphs_function_free(pom.graph_maps@)
}

/// Whether no term map of the triples map executes a function.
pub open spec fn map_function_free(tm: TriplesMap) -> bool {
    &&& !(tm.subject_map.expression is FunctionExecution)
    &&& graphs_function_free(tm.subject_map.graph_maps@)
    &&& forall|k: int|
        0 <= k < tm.predicate_object_maps@.len() ==> pom_function_free(
            #[trigger] tm.predicate_object_maps@[k],
        )
}

/// Whether no term map of the mapping executes a function.
pub open spec fn mapping_function_free(maps: Seq<TriplesMap>) -> bool {
    forall|p: int| 0 <= p < maps.len() ==> map_function_free(#[trigger] maps[p])
}

pub open spec fn indexes_view(ix: Seq<Vec<ParentEntry>>) -> Seq<Seq<(TermV, int)>> {
    ix.map_values(|v: Vec<ParentEntry>| index_view(v@))
}

fn somes(v: Vec<Term>) -> (r: Vec<Option<Term>>)
    ensures
        graphs_view(r@) == terms_view(v@).map_values(|t: TermV| Some(t)),
{
    let mut out: Vec<Option<Term>> = Vec::new();
    let mut i: usize = 0;
    while i < v.len()
        invariant
            0 <= i <= v@.len(),
            out@.len() == i,
            forall|j: int| 0 <= j < i ==> opt_term_view(#[trigger] out@[j]) == Some(v@[j]@),
        decreases v.len() - i,
    {
        out.push(Some(copy_term(&v[i])));
        i = i + 1;
    }
    assert(graphs_view(out@) =~= terms_view(v@).map_values(|t: TermV| Some(t)));
    out
}

/// The parent subjects the referencing object maps of a group contribute
/// for a child record, map by map.
pub fn ref_object_terms(
    roms: &Vec<ReferencingObjectMap>,
    rec: &Record,
    nulls: &Vec<String>,
    maps: &Vec<TriplesMap>,
    sources: &Vec<Vec<Record>>,
    indexes: &Vec<Vec<ParentEntry>>,
) -> (r: Vec<Term>)
    requires
        index_ok(maps@, sources@, indexes_view(indexes@)),
    ensures
        terms_view(r@) == ref_terms_spec(
            roms@,
            *rec,
            strings_view(nulls@),
            maps@,
            sources@,
            indexes_view(indexes@),
        ),
{
    let ghost iv = indexes_view(indexes@);
    let mut out: Vec<Term> = Vec::new();
    let mut i: usize = 0;
    assert(terms_view(out@) =~= Seq::empty());
    assert(roms@.subrange(0, 0) =~= Seq::<ReferencingObjectMap>::empty());
    while i < roms.len()
        invariant
            0 <= i <= roms@.len(),
            iv == indexes_view(indexes@),
            index_ok(maps@, sources@, iv),
            terms_view(out@) == ref_terms_spec(
                roms@.subrange(0, i as int),
                *rec,
                strings_view(nulls@),
                maps@,
                sources@,
                iv,
            ),
        decreases roms.len() - i,
    {
        assert(roms@.subrange(0, i + 1).drop_last() =~= roms@.subrange(0, i as int));
        let rom = &roms[i];
        match parent_position(maps, &rom.parent_uri) {
            Some(p) => {
                proof {
                    lemma_parent_of_from_bounds(maps@, rom.parent_uri@, 0);
                }
                assert(iv[p as int] == index_view(indexes@[p as int]@));
                let pnulls = maps[p].logical_source.get_nulls();
                let mut ts = resolve_join(rom, rec, nulls, &sources[p], &indexes[p], &pnulls);
                let ghost before = out@;
                let ghost added = ts@;
                out.append(&mut ts);
                assert(terms_view(out@) =~= terms_view(before) + terms_view(added));
            },
            None => {},
        }
        i = i + 1;
    }
    assert(roms@.subrange(0, roms.len() as int) =~= roms@);
    out
}

/// The values a predicate-object map's term maps take on a record:
/// predicates, objects, subject-map graphs and own graphs.
pub struct PomValues {
    pub preds: Seq<Seq<Seq<char>>>,
    pub objs: Seq<Seq<Seq<char>>>,
    pub subject_graphs: Seq<Seq<Seq<char>>>,
    pub graphs: Seq<Seq<Seq<char>>>,
}

/// Whether `v` holds values the term maps of `pom` may yield on a record.
pub open spec fn pom_values_ok<F: Fn(&FunctionCall) -> Option<Return>>(
    tm: TriplesMap,
    pom: PredicateObjectMap,
    rec: Record,
    nulls: Seq<Seq<char>>,
    call: F,
    v: PomValues,
) -> bool {
    &&& predicate_values_ok(pom.predicate_maps@, rec, nulls, call, v.preds)
    &&& object_values_ok(pom.object_maps@, rec, nulls, call, v.objs)
    &&& graph_values_ok(tm.subject_map.graph_maps@, rec, nulls, call, v.subject_graphs)
    &&& graph_values_ok(pom.graph_maps@, rec, nulls, call, v.graphs)
}

/// The quads of one predicate-object map for subject `s`, given the values
/// of its term maps.
pub open spec fn pom_quads_with(
    s: TermV,
    tm: TriplesMap,
    pom: PredicateObjectMap,
    rec: Record,
    nulls: Seq<Seq<char>>,
    base: Option<Seq<char>>,
    maps: Seq<TriplesMap>,
    sources: Seq<Vec<Record>>,
    index: Seq<Seq<(TermV, int)>>,
    v: PomValues,
) -> Seq<(TermV, TermV, TermV, Option<TermV>)> {
    cross_spec(
        s,
        predicate_terms_with(pom.predicate_maps@, v.preds, tm.uri@, base),
        object_terms_with(pom.object_maps@, v.objs, rec, nulls, tm.uri@, base) + ref_terms_spec(
            pom.ref_object_maps@,
            rec,
            nulls,
            maps,
            sources,
            index,
        ),
        if tm.subject_map.graph_maps@.len() + pom.graph_maps@.len() == 0 {
            seq![None]
        } else {
            (graph_terms_with(tm.subject_map.graph_maps@, v.subject_graphs, tm.uri@, base)
                + graph_terms_with(pom.graph_maps@, v.graphs, tm.uri@, base)).map_values(
                |t: TermV| Some(t),
            )
        },
    )
}

/// Appends the quads of one predicate-object map for subject `s`.
pub fn pom_quads<F: Fn(&FunctionCall) -> Option<Return>>(
    s: &Term,
    tm: &TriplesMap,
    pom: &PredicateObjectMap,
    rec: &Record,
    nulls: &Vec<String>,
    base: &Option<String>,
    maps: &Vec<TriplesMap>,
    sources: &Vec<Vec<Record>>,
    indexes: &Vec<Vec<ParentEntry>>,
    call: &F,
    out: &mut Vec<Quad>,
)
    requires
        index_ok(maps@, sources@, indexes_view(indexes@)),
        forall|c: &FunctionCall| call.requires((c,)),
    ensures
        exists|v: PomValues|
            #[trigger] pom_values_ok(*tm, *pom, *rec, strings_view(nulls@), *call, v) && quads_view(
                final(out)@,
            ) == quads_view(old(out)@) + pom_quads_with(
                s@,
                *tm,
                *pom,
                *rec,
                strings_view(nulls@),
                opt_view(*base),
                maps@,
                sources@,
                indexes_view(indexes@),
                v,
            ),
        graphs_function_free(tm.subject_map.graph_maps@) && pom_function_free(*pom) ==> quads_view(final(out)@) == quads_view(old(out)@)
            + pom_quads_spec(
            s@,
            *tm,
            *pom,
            *rec,
            strings_view(nulls@),
            opt_view(*base),
            maps@,
            sources@,
            indexes_view(indexes@),
        ),
{
    let ghost nv = strings_view(nulls@);
    let ghost b = opt_view(*base);
    let preds = predicate_terms(&pom.predicate_maps, rec, nulls, &tm.uri, base, call);
    let ghost pv = choose|vals: Seq<Seq<Seq<char>>>|
        #[trigger] predicate_values_ok(pom.predicate_maps@, *rec, nv, *call, vals) && terms_view(preds@)
            == predicate_terms_with(pom.predicate_maps@, vals, tm.uri@, b);
    let mut objs = object_terms(&pom.object_maps, rec, nulls, &tm.uri, base, call);
    let ghost ovals = choose|vals: Seq<Seq<Seq<char>>>|
        #[trigger] object_values_ok(pom.object_maps@, *rec, nv, *call, vals) && terms_view(objs@)
            == object_terms_with(pom.object_maps@, vals, *rec, nv, tm.uri@, b);
    let ghost mut gsv: Seq<Seq<Seq<char>>> = Seq::empty();
    let ghost mut gpv: Seq<Seq<Seq<char>>> = Seq::empty();
    let mut joined = ref_object_terms(&pom.ref_object_maps, rec, nulls, maps, sources, indexes);
    let ghost ov = objs@;
    let ghost jv = joined@;
    objs.append(&mut joined);
    assert(terms_view(objs@) =~= terms_view(ov) + terms_view(jv));
    let graphs = if tm.subject_map.graph_maps.len() == 0 && pom.graph_maps.len() == 0 {
        let g: Vec<Option<Term>> = vec![None];
        assert(graphs_view(g@) =~= seq![None]);
        g
    } else {
        let mut g1 = graph_terms(&tm.subject_map.graph_maps, rec, nulls, &tm.uri, base, call);
        proof {
            gsv = choose|vals: Seq<Seq<Seq<char>>>|
                #[trigger] graph_values_ok(tm.subject_map.graph_maps@, *rec, nv, *call, vals) && terms_view(g1@)
                    == graph_terms_with(tm.subject_map.graph_maps@, vals, tm.uri@, b);
        }
        let mut g2 = graph_terms(&pom.graph_maps, rec, nulls, &tm.uri, base, call);
        proof {
            gpv = choose|vals: Seq<Seq<Seq<char>>>|
                #[trigger] graph_values_ok(pom.graph_maps@, *rec, nv, *call, vals) && terms_view(g2@)
                    == graph_terms_with(pom.graph_maps@, vals, tm.uri@, b);
        }
        let ghost v1 = g1@;
        let ghost v2 = g2@;
        g1.append(&mut g2);
        assert(terms_view(g1@) =~= terms_view(v1) + terms_view(v2));
        somes(g1)
    };
    push_cross(s, &preds, &objs, &graphs, out);
    let ghost v = PomValues { preds: pv, objs: ovals, subject_graphs: gsv, graphs: gpv };
    assert(pom_values_ok(*tm, *pom, *rec, nv, *call, v));
}

/// The values a subject's term maps take on a record: the subject map's
/// graphs for the class quads, and those of each predicate-object map.
pub struct SubjectValues {
    pub class_graphs: Seq<Seq<Seq<char>>>,
    pub poms: Seq<PomValues>,
}

/// Whether `v` holds values the term maps of `tm` may yield on a record.
pub open spec fn subject_values_ok<F: Fn(&FunctionCall) -> Option<Return>>(
    tm: TriplesMap,
    rec: Record,
    nulls: Seq<Seq<char>>,
    call: F,
    v: SubjectValues,
) -> bool {
    &&& graph_values_ok(tm.subject_map.graph_maps@, rec, nulls, call, v.class_graphs)
    &&& v.poms.len() == tm.predicate_object_maps@.len()
    &&& forall|k: int|
        0 <= k < v.poms.len() ==> pom_values_ok(
            tm,
            tm.predicate_object_maps@[k],
            rec,
            nulls,
            call,
            #[trigger] v.poms[k],
        )
}

/// The quads of the first `n` predicate-object maps for subject `s`, given
/// the values of their term maps.
pub open spec fn poms_quads_with(
    s: TermV,
    tm: TriplesMap,
    n: int,
    rec: Record,
    nulls: Seq<Seq<char>>,
    base: Option<Seq<char>>,
    maps: Seq<TriplesMap>,
    sources: Seq<Vec<Record>>,
    index: Seq<Seq<(TermV, int)>>,
    pvs: Seq<PomValues>,
) -> Seq<(TermV, TermV, TermV, Option<TermV>)>
    decreases n,
{
    if n <= 0 {
        Seq::empty()
    } else {
        poms_quads_with(s, tm, n - 1, rec, nulls, base, maps, sources, index, pvs) + pom_quads_with(
            s,
            tm,
            tm.predicate_object_maps@[n - 1],
            rec,
            nulls,
            base,
            maps,
            sources,
            index,
            pvs[n - 1],
        )
    }
}

/// All quads of subject `s`, given the values of the term maps: class
/// quads, then those of every predicate-object map.
pub open spec fn subject_quads_with(
    s: TermV,
    tm: TriplesMap,
    rec: Record,
    nulls: Seq<Seq<char>>,
    base: Option<Seq<char>>,
    maps: Seq<TriplesMap>,
    sources: Seq<Vec<Record>>,
    index: Seq<Seq<(TermV, int)>>,
    v: SubjectValues,
) -> Seq<(TermV, TermV, TermV, Option<TermV>)> {
    cross_spec(
        s,
        seq![TermV::Named(RDF_TYPE@)],
        strings_view(tm.subject_map.classes@).map_values(|c: Seq<char>| TermV::Named(c)),
        if tm.subject_map.graph_maps@.len() == 0 {
            seq![None]
        } else {
            graph_terms_with(tm.subject_map.graph_maps@, v.class_graphs, tm.uri@, base).map_values(
                |t: TermV| Some(t),
            )
        },
    ) + poms_quads_with(
        s,
        tm,
        tm.predicate_object_maps@.len() as int,
        rec,
        nulls,
        base,
        maps,
        sources,
        index,
        v.poms,
    )
}

proof fn lemma_poms_quads_with_prefix(
    s: TermV,
    tm: TriplesMap,
    n: int,
    rec: Record,
    nulls: Seq<Seq<char>>,
    base: Option<Seq<char>>,
    maps: Seq<TriplesMap>,
    sources: Seq<Vec<Record>>,
    index: Seq<Seq<(TermV, int)>>,
    a: Seq<PomValues>,
    b: Seq<PomValues>,
)
    requires
        forall|j: int| 0 <= j < n ==> a[j] == b[j],
    ensures
        poms_quads_with(s, tm, n, rec, nulls, base, maps, sources, index, a) == poms_quads_with(
            s,
            tm,
            n,
            rec,
            nulls,
            base,
            maps,
            sources,
            index,
            b,
        ),
    decreases n,
{
    if n > 0 {
        lemma_poms_quads_with_prefix(s, tm, n - 1, rec, nulls, base, maps, sources, index, a, b);
    }
}

/// Appends all quads of subject `s`: its class quads, then those of every
/// predicate-object map of the triples map.
pub fn subject_quads<F: Fn(&FunctionCall) -> Option<Return>>(
    s: &Term,
    tm: &TriplesMap,
    rec: &Record,
    nulls: &Vec<String>,
    base: &Option<String>,
    maps: &Vec<TriplesMap>,
    sources: &Vec<Vec<Record>>,
    indexes: &Vec<Vec<ParentEntry>>,
    call: &F,
    out: &mut Vec<Quad>,
)
    requires
        index_ok(maps@, sources@, indexes_view(indexes@)),
        forall|c: &FunctionCall| call.requires((c,)),
    ensures
        exists|v: SubjectValues|
            #[trigger] subject_values_ok(*tm, *rec, strings_view(nulls@), *call, v) && quads_view(
                final(out)@,
            ) == quads_view(old(out)@) + subject_quads_with(
                s@,
                *tm,
                *rec,
                strings_view(nulls@),
                opt_view(*base),
                maps@,
                sources@,
                indexes_view(indexes@),
                v,
            ),
        map_function_free(*tm) ==> quads_view(final(out)@) == quads_view(old(out)@)
            + subject_quads_spec(
            s@,
            *tm,
            *rec,
            strings_view(nulls@),
            opt_view(*base),
            maps@,
            sources@,
            indexes_view(indexes@),
        ),
{
    let ghost start = quads_view(out@);
    let preds = vec![Term::NamedNode(String::from_str(RDF_TYPE))];
    assert(terms_view(preds@) =~= seq![TermV::Named(RDF_TYPE@)]);
    let classes = &tm.subject_map.classes;
    let mut objs: Vec<Term> = Vec::new();
    let mut i: usize = 0;
    while i < classes.len()
        invariant
            0 <= i <= classes@.len(),
            objs@.len() == i,
            forall|j: int| 0 <= j < i ==> (#[trigger] objs@[j])@ == TermV::Named(classes@[j]@),
        decreases classes.len() - i,
    {
        objs.push(Term::NamedNode(classes[i].clone()));
        i = i + 1;
    }
    assert(terms_view(objs@) =~= strings_view(classes@).map_values(|c: Seq<char>| TermV::Named(c)));
    let ghost nv = strings_view(nulls@);
    let ghost b = opt_view(*base);
    let ghost mut cg: Seq<Seq<Seq<char>>> = Seq::empty();
    let graphs = if tm.subject_map.graph_maps.len() == 0 {
        let g: Vec<Option<Term>> = vec![None];
        assert(graphs_view(g@) =~= seq![None]);
        g
    } else {
        let g = graph_terms(&tm.subject_map.graph_maps, rec, nulls, &tm.uri, base, call);
        proof {
            cg = choose|vals: Seq<Seq<Seq<char>>>|
                #[trigger] graph_values_ok(tm.subject_map.graph_maps@, *rec, nv, *call, vals) && terms_view(g@)
                    == graph_terms_with(tm.subject_map.graph_maps@, vals, tm.uri@, b);
        }
        somes(g)
    };
    push_cross(s, &preds, &objs, &graphs, out);
    let ghost after_classes = quads_view(out@);
    let ghost mut pvs: Seq<PomValues> = Seq::empty();
    let mut k: usize = 0;
    while k < tm.predicate_object_maps.len()
        invariant
            0 <= k <= tm.predicate_object_maps@.len(),
            index_ok(maps@, sources@, indexes_view(indexes@)),
            forall|c: &FunctionCall| call.requires((c,)),
            nv == strings_view(nulls@),
            b == opt_view(*base),
            pvs.len() == k,
            forall|j: int|
                0 <= j < k ==> pom_values_ok(
                    *tm,
                    tm.predicate_object_maps@[j],
                    *rec,
                    nv,
                    *call,
                    #[trigger] pvs[j],
                ),
            quads_view(out@) == after_classes + poms_quads_with(
                s@,
                *tm,
                k as int,
                *rec,
                nv,
                b,
                maps@,
                sources@,
                indexes_view(indexes@),
                pvs,
            ),
            map_function_free(*tm) ==> quads_view(out@) == after_classes + poms_quads_spec(
                s@,
                *tm,
                k as int,
                *rec,
                strings_view(nulls@),
                opt_view(*base),
                maps@,
                sources@,
                indexes_view(indexes@),
            ),
        decreases tm.predicate_object_maps.len() - k,
    {
        let ghost before = quads_view(out@);
        pom_quads(s, tm, &tm.predicate_object_maps[k], rec, nulls, base, maps, sources, indexes, call, out);
        proof {
            let pv = choose|v: PomValues|
                #[trigger] pom_values_ok(*tm, tm.predicate_object_maps@[k as int], *rec, nv, *call, v)
                    && quads_view(out@) == before + pom_quads_with(
                    s@,
                    *tm,
                    tm.predicate_object_maps@[k as int],
                    *rec,
                    nv,
                    b,
                    maps@,
                    sources@,
                    indexes_view(indexes@),
                    v,
                );
            let npvs = pvs.push(pv);
            assert(npvs[k as int] == pv);
            assert forall|j: int| 0 <= j < k implies npvs[j] == pvs[j] by {}
            assert forall|j: int| 0 <= j < k + 1 implies pom_values_ok(
                *tm,
                tm.predicate_object_maps@[j],
                *rec,
                nv,
                *call,
                #[trigger] npvs[j],
            ) by {
                if j < k {
                    assert(npvs[j] == pvs[j]);
                }
            }
            lemma_poms_quads_with_prefix(s@, *tm, k as int, *rec, nv, b, maps@, sources@, indexes_view(indexes@), pvs, npvs);
            assert(quads_view(out@) =~= after_classes + poms_quads_with(
                s@,
                *tm,
                k + 1,
                *rec,
                nv,
                b,
                maps@,
                sources@,
                indexes_view(indexes@),
                npvs,
            ));
            pvs = npvs;
            if map_function_free(*tm) {
                assert(pom_function_free(tm.predicate_object_maps@[k as int]));
                assert(quads_view(out@) =~= after_classes + poms_quads_spec(
                    s@,
                    *tm,
                    k + 1,
                    *rec,
                    strings_view(nulls@),
                    opt_view(*base),
                    maps@,
                    sources@,
                    indexes_view(indexes@),
                ));
            }
        }
        k = k + 1;
    }
    assert(subject_values_ok(*tm, *rec, nv, *call, SubjectValues { class_graphs: cg, poms: pvs }));
}

/// The values a record's term maps take: the subject map's values, and
/// for each subject made from them, the values of the other term maps.
pub struct RecordValues {
    pub subjects: Seq<Seq<char>>,
    pub per_subject: Seq<SubjectValues>,
}

/// The subjects a record gives under a triples map, given the subject map's
/// values.
pub open spec fn subjects_with(tm: TriplesMap, vals: Seq<Seq<char>>, base: Option<Seq<char>>) -> Seq<TermV> {
    terms_of(vals, tm.subject_map.term_type@, None, None, tm.uri@, base)
}

/// Whether `v` holds values the term maps of `tm` may yield on a record.
pub open spec fn record_values_ok<F: Fn(&FunctionCall) -> Option<Return>>(
    tm: TriplesMap,
    rec: Record,
    nulls: Seq<Seq<char>>,
    base: Option<Seq<char>>,
    call: F,
    v: RecordValues,
) -> bool {
    &&& values_ok(tm.subject_map.expression, rec, nulls, call, v.subjects)
    &&& v.per_subject.len() == subjects_with(tm, v.subjects, base).len()
    &&& forall|i: int|
        0 <= i < v.per_subject.len() ==> subject_values_ok(tm, rec, nulls, call, #[trigger] v.per_subject[i])
}

/// The quads of the first `n` subjects of `subs`, given the values of the
/// term maps for each.
pub open spec fn subjects_quads_with(
    subs: Seq<TermV>,
    n: int,
    tm: TriplesMap,
    rec: Record,
    nulls: Seq<Seq<char>>,
    base: Option<Seq<char>>,
    maps: Seq<TriplesMap>,
    sources: Seq<Vec<Record>>,
    index: Seq<Seq<(TermV, int)>>,
    per: Seq<SubjectValues>,
) -> Seq<(TermV, TermV, TermV, Option<TermV>)>
    decreases n,
{
    if n <= 0 {
        Seq::empty()
    } else {
        subjects_quads_with(subs, n - 1, tm, rec, nulls, base, maps, sources, index, per)
            + subject_quads_with(subs[n - 1], tm, rec, nulls, base, maps, sources, index, per[n - 1])
    }
}

/// Processing record `r` of triples map `p`, given the values of its term
/// maps: its subjects join the map's index first, then their quads are
/// added.
pub open spec fn record_step_with(
    maps: Seq<TriplesMap>,
    sources: Seq<Vec<Record>>,
    base: Option<Seq<char>>,
    p: int,
    r: int,
    st: RunState,
    v: RecordValues,
) -> RunState {
    let tm = maps[p];
    let rec = sources[p]@[r];
    let nulls = tm.logical_source.nulls_spec();
    let subs = subjects_with(tm, v.subjects, base);
    let index = st.index.update(p, st.index[p] + subs.map_values(|s: TermV| (s, r)));
    RunState {
        quads: st.quads + subjects_quads_with(
            subs,
            subs.len() as int,
            tm,
            rec,
            nulls,
            base,
            maps,
            sources,
            index,
            v.per_subject,
        ),
        index,
    }
}

proof fn lemma_subjects_quads_with_prefix(
    subs: Seq<TermV>,
    n: int,
    tm: TriplesMap,
    rec: Record,
    nulls: Seq<Seq<char>>,
    base: Option<Seq<char>>,
    maps: Seq<TriplesMap>,
    sources: Seq<Vec<Record>>,
    index: Seq<Seq<(TermV, int)>>,
    a: Seq<SubjectValues>,
    b: Seq<SubjectValues>,
)
    requires
        forall|j: int| 0 <= j < n ==> a[j] == b[j],
    ensures
        subjects_quads_with(subs, n, tm, rec, nulls, base, maps, sources, index, a)
            == subjects_quads_with(subs, n, tm, rec, nulls, base, maps, sources, index, b),
    decreases n,
{
    if n > 0 {
        lemma_subjects_quads_with_prefix(subs, n - 1, tm, rec, nulls, base, maps, sources, index, a, b);
    }
}

/// Processes record `r` of triples map `p`: indexes its subjects, then
/// appends their quads.
pub fn process_record<F: Fn(&FunctionCall) -> Option<Return>>(
    maps: &Vec<TriplesMap>,
    sources: &Vec<Vec<Record>>,
    base: &Option<String>,
    p: usize,
    r: usize,
    indexes: &mut Vec<Vec<ParentEntry>>,
    out: &mut Vec<Quad>,
    call: &F,
)
    requires
        p < maps@.len(),
        index_ok(maps@, sources@, indexes_view(old(indexes)@)),
        r < sources@[p as int]@.len(),
        forall|c: &FunctionCall| call.requires((c,)),
    ensures
        index_ok(maps@, sources@, indexes_view(final(indexes)@)),
        exists|v: RecordValues|
            #[trigger] record_values_ok(
                maps@[p as int],
                sources@[p as int]@[r as int],
                maps@[p as int].logical_source.nulls_spec(),
                opt_view(*base),
                *call,
                v,
            ) && (RunState { quads: quads_view(final(out)@), index: indexes_view(final(indexes)@) })
                == record_step_with(
                maps@,
                sources@,
                opt_view(*base),
                p as int,
                r as int,
                RunState { quads: quads_view(old(out)@), index: indexes_view(old(indexes)@) },
                v,
            ),
        map_function_free(maps@[p as int]) ==> indexes_view(final(indexes)@) == record_step(
            maps@,
            sources@,
            opt_view(*base),
            p as int,
            r as int,
            RunState { quads: quads_view(old(out)@), index: indexes_view(old(indexes)@) },
        ).index,
        map_function_free(maps@[p as int]) ==> quads_view(final(out)@) == record_step(
            maps@,
            sources@,
            opt_view(*base),
            p as int,
            r as int,
            RunState { quads: quads_view(old(out)@), index: indexes_view(old(indexes)@) },
        ).quads,
{
    let ghost st = RunState { quads: quads_view(out@), index: indexes_view(indexes@) };
    let tm = &maps[p];
    let rec = &sources[p][r];
    let nulls = tm.logical_source.get_nulls();
    let vals = evaluate(&tm.subject_map.expression, rec, &nulls, call);
    let subs = terms_for_values(&vals, &tm.subject_map.term_type, &None, &None, &tm.uri, base);
    let ghost sv = terms_view(subs@);
    let ghost added = sv.map_values(|s: TermV| (s, r as int));
    let mut entries = indexes.remove(p);
    let ghost old_entries = index_view(entries@);
    assert(old_entries == st.index[p as int]);
    let mut i: usize = 0;
    while i < subs.len()
        invariant
            0 <= i <= subs@.len(),
            sv == terms_view(subs@),
            index_view(entries@) == old_entries + sv.subrange(0, i as int).map_values(
                |s: TermV| (s, r as int),
            ),
        decreases subs.len() - i,
    {
        let ghost before = index_view(entries@);
        entries.push(ParentEntry { subject: copy_term(&subs[i]), record: r });
        assert(index_view(entries@) =~= before.push((sv[i as int], r as int)));
        assert(sv.subrange(0, i + 1).map_values(|s: TermV| (s, r as int)) =~= sv.subrange(
            0,
            i as int,
        ).map_values(|s: TermV| (s, r as int)).push((sv[i as int], r as int)));
        i = i + 1;
    }
    assert(sv.subrange(0, subs.len() as int) =~= sv);
    indexes.insert(p, entries);
    let ghost new_index = st.index.update(p as int, st.index[p as int] + added);
    assert(indexes_view(indexes@) =~= new_index);
    assert forall|q: int| 0 <= q < new_index.len() implies index_in_bounds(
        #[trigger] new_index[q],
        sources@[q]@.len(),
    ) by {
        if q == p {
            assert forall|e: int| 0 <= e < new_index[q].len() implies 0 <= (
            #[trigger] new_index[q][e]).1 < sources@[q]@.len() by {
                if e >= st.index[q].len() {
                    assert(new_index[q][e] == added[e - st.index[q].len()]);
                }
            }
        }
    }
    let ghost start = quads_view(out@);
    let ghost nv = strings_view(nulls@);
    let ghost b = opt_view(*base);
    let ghost mut per: Seq<SubjectValues> = Seq::empty();
    let mut k: usize = 0;
    while k < subs.len()
        invariant
            0 <= k <= subs@.len(),
            p < maps@.len(),
            tm == maps@[p as int],
            sv == terms_view(subs@),
            indexes_view(indexes@) == new_index,
            index_ok(maps@, sources@, new_index),
            strings_view(nulls@) == tm.logical_source.nulls_spec(),
            forall|c: &FunctionCall| call.requires((c,)),
            nv == strings_view(nulls@),
            b == opt_view(*base),
            per.len() == k,
            forall|j: int| 0 <= j < k ==> subject_values_ok(*tm, *rec, nv, *call, #[trigger] per[j]),
            quads_view(out@) == start + subjects_quads_with(
                sv,
                k as int,
                *tm,
                *rec,
                nv,
                b,
                maps@,
                sources@,
                new_index,
                per,
            ),
            map_function_free(*tm) ==> quads_view(out@) == start + subjects_quads_spec(
                sv,
                k as int,
                *tm,
                *rec,
                strings_view(nulls@),
                opt_view(*base),
                maps@,
                sources@,
                new_index,
            ),
        decreases subs.len() - k,
    {
        let ghost before = quads_view(out@);
        subject_quads(&subs[k], tm, rec, &nulls, base, maps, sources, indexes, call, out);
        proof {
            let sv1 = choose|v: SubjectValues|
                #[trigger] subject_values_ok(*tm, *rec, nv, *call, v) && quads_view(out@) == before
                    + subject_quads_with(sv[k as int], *tm, *rec, nv, b, maps@, sources@, new_index, v);
            let nper = per.push(sv1);
            assert(nper[k as int] == sv1);
            assert forall|j: int| 0 <= j < k implies nper[j] == per[j] by {}
            assert forall|j: int| 0 <= j < k + 1 implies subject_values_ok(*tm, *rec, nv, *call, #[trigger] nper[j]) by {
                if j < k {
                    assert(nper[j] == per[j]);
                }
            }
            lemma_subjects_quads_with_prefix(sv, k as int, *tm, *rec, nv, b, maps@, sources@, new_index, per, nper);
            assert(terms_view(subs@)[k as int] == subs@[k as int]@);
            assert(quads_view(out@) =~= start + subjects_quads_with(
                sv,
                k + 1,
                *tm,
                *rec,
                nv,
                b,
                maps@,
                sources@,
                new_index,
                nper,
            ));
            per = nper;
            if map_function_free(*tm) {
                assert(quads_view(out@) =~= start + subjects_quads_spec(
                    sv,
                    k + 1,
                    *tm,
                    *rec,
                    strings_view(nulls@),
                    opt_view(*base),
                    maps@,
                    sources@,
                    new_index,
                ));
            }
        }
        k = k + 1;
    }
    proof {
        let rv = RecordValues { subjects: strings_view(vals@), per_subject: per };
        assert(record_values_ok(*tm, *rec, nv, b, *call, rv));
        assert(RunState { quads: quads_view(out@), index: indexes_view(indexes@) } == record_step_with(
            maps@,
            sources@,
            b,
            p as int,
            r as int,
            st,
            rv,
        ));
    }
}

/// Processing the first `n` records of triples map `p`, given the values
/// of the term maps on each record.
pub open spec fn map_steps_with(
    maps: Seq<TriplesMap>,
    sources: Seq<Vec<Record>>,
    base: Option<Seq<char>>,
    p: int,
    n: int,
    st: RunState,
    vs: Seq<RecordValues>,
) -> RunState
    decreases n,
{
    if n <= 0 {
        st
    } else {
        record_step_with(
            maps,
            sources,
            base,
            p,
            n - 1,
            map_steps_with(maps, sources, base, p, n - 1, st, vs),
            vs[n - 1],
        )
    }
}

/// Whether `vs` holds, record by record, values the term maps of triples
/// map `p` may yield.
pub open spec fn map_values_ok<F: Fn(&FunctionCall) -> Option<Return>>(
    maps: Seq<TriplesMap>,
    sources: Seq<Vec<Record>>,
    base: Option<Seq<char>>,
    p: int,
    call: F,
    vs: Seq<RecordValues>,
) -> bool {
    &&& vs.len() == sources[p]@.len()
    &&& forall|r: int|
        0 <= r < vs.len() ==> record_values_ok(
            maps[p],
            sources[p]@[r],
            maps[p].logical_source.nulls_spec(),
            base,
            call,
            #[trigger] vs[r],
        )
}

/// Processing the triples maps of `order` one after the other, given the
/// values of the term maps on every record.
pub open spec fn run_steps_with(
    maps: Seq<TriplesMap>,
    sources: Seq<Vec<Record>>,
    base: Option<Seq<char>>,
    order: Seq<int>,
    st: RunState,
    vss: Seq<Seq<RecordValues>>,
) -> RunState
    decreases order.len(),
{
    if order.len() == 0 {
        st
    } else {
        let before = run_steps_with(maps, sources, base, order.drop_last(), st, vss);
        map_steps_with(
            maps,
            sources,
            base,
            order.last(),
            sources[order.last()]@.len() as int,
            before,
            vss[order.len() - 1],
        )
    }
}

/// Whether `vss` holds, map by map of `order`, values the term maps may
/// yield on every record.
pub open spec fn run_values_ok<F: Fn(&FunctionCall) -> Option<Return>>(
    maps: Seq<TriplesMap>,
    sources: Seq<Vec<Record>>,
    base: Option<Seq<char>>,
    order: Seq<int>,
    call: F,
    vss: Seq<Seq<RecordValues>>,
) -> bool {
    &&& vss.len() == order.len()
    &&& forall|t: int| 0 <= t < vss.len() ==> map_values_ok(maps, sources, base, order[t], call, #[trigger] vss[t])
}

proof fn lemma_map_steps_with_prefix(
    maps: Seq<TriplesMap>,
    sources: Seq<Vec<Record>>,
    base: Option<Seq<char>>,
    p: int,
    n: int,
    st: RunState,
    a: Seq<RecordValues>,
    b: Seq<RecordValues>,
)
    requires
        forall|j: int| 0 <= j < n ==> a[j] == b[j],
    ensures
        map_steps_with(maps, sources, base, p, n, st, a) == map_steps_with(maps, sources, base, p, n, st, b),
    decreases n,
{
    if n > 0 {
        lemma_map_steps_with_prefix(maps, sources, base, p, n - 1, st, a, b);
    }
}

pub proof fn lemma_run_steps_with_prefix(
    maps: Seq<TriplesMap>,
    sources: Seq<Vec<Record>>,
    base: Option<Seq<char>>,
    order: Seq<int>,
    st: RunState,
    a: Seq<Seq<RecordValues>>,
    b: Seq<Seq<RecordValues>>,
)
    requires
        forall|j: int| 0 <= j < order.len() ==> a[j] == b[j],
    ensures
        run_steps_with(maps, sources, base, order, st, a) == run_steps_with(maps, sources, base, order, st, b),
    decreases order.len(),
{
    if order.len() > 0 {
        lemma_run_steps_with_prefix(maps, sources, base, order.drop_last(), st, a, b);
    }
}

/// Processes every record of triples map `p`, in order.
pub fn process_map<F: Fn(&FunctionCall) -> Option<Return>>(
    maps: &Vec<TriplesMap>,
    sources: &Vec<Vec<Record>>,
    base: &Option<String>,
    p: usize,
    indexes: &mut Vec<Vec<ParentEntry>>,
    out: &mut Vec<Quad>,
    call: &F,
)
    requires
        p < maps@.len(),
        index_ok(maps@, sources@, indexes_view(old(indexes)@)),
        forall|c: &FunctionCall| call.requires((c,)),
    ensures
        index_ok(maps@, sources@, indexes_view(final(indexes)@)),
        exists|vs: Seq<RecordValues>|
            #[trigger] map_values_ok(maps@, sources@, opt_view(*base), p as int, *call, vs) && (RunState {
                quads: quads_view(final(out)@),
                index: indexes_view(final(indexes)@),
            }) == map_steps_with(
                maps@,
                sources@,
                opt_view(*base),
                p as int,
                sources@[p as int]@.len() as int,
                RunState { quads: quads_view(old(out)@), index: indexes_view(old(indexes)@) },
                vs,
            ),
        map_function_free(maps@[p as int]) ==> indexes_view(final(indexes)@) == map_steps(
            maps@,
            sources@,
            opt_view(*base),
            p as int,
            sources@[p as int]@.len() as int,
            RunState { quads: quads_view(old(out)@), index: indexes_view(old(indexes)@) },
        ).index,
        map_function_free(maps@[p as int]) ==> quads_view(final(out)@) == map_steps(
            maps@,
            sources@,
            opt_view(*base),
            p as int,
            sources@[p as int]@.len() as int,
            RunState { quads: quads_view(old(out)@), index: indexes_view(old(indexes)@) },
        ).quads,
{
    let ghost st = RunState { quads: quads_view(out@), index: indexes_view(indexes@) };
    let n = sources[p].len();
    let ghost b = opt_view(*base);
    let ghost mut vs: Seq<RecordValues> = Seq::empty();
    let mut r: usize = 0;
    while r < n
        invariant
            p < maps@.len(),
            n == sources@[p as int]@.len(),
            0 <= r <= n,
            index_ok(maps@, sources@, indexes_view(indexes@)),
            forall|c: &FunctionCall| call.requires((c,)),
            b == opt_view(*base),
            vs.len() == r,
            forall|j: int|
                0 <= j < r ==> record_values_ok(
                    maps@[p as int],
                    sources@[p as int]@[j],
                    maps@[p as int].logical_source.nulls_spec(),
                    b,
                    *call,
                    #[trigger] vs[j],
                ),
            (RunState { quads: quads_view(out@), index: indexes_view(indexes@) }) == map_steps_with(
                maps@,
                sources@,
                b,
                p as int,
                r as int,
                st,
                vs,
            ),
            map_function_free(maps@[p as int]) ==> indexes_view(indexes@) == map_steps(
                maps@,
                sources@,
                opt_view(*base),
                p as int,
                r as int,
                st,
            ).index,
            map_function_free(maps@[p as int]) ==> quads_view(out@) == map_steps(
                maps@,
                sources@,
                opt_view(*base),
                p as int,
                r as int,
                st,
            ).quads,
        decreases n - r,
    {
        let ghost cur = RunState { quads: quads_view(out@), index: indexes_view(indexes@) };
        let ghost prev = map_steps(maps@, sources@, opt_view(*base), p as int, r as int, st);
        process_record(maps, sources, base, p, r, indexes, out, call);
        proof {
            if map_function_free(maps@[p as int]) {
                assert(cur == prev);
            }
            let rv = choose|v: RecordValues|
                #[trigger] record_values_ok(
                    maps@[p as int],
                    sources@[p as int]@[r as int],
                    maps@[p as int].logical_source.nulls_spec(),
                    b,
                    *call,
                    v,
                ) && (RunState { quads: quads_view(out@), index: indexes_view(indexes@) })
                    == record_step_with(maps@, sources@, b, p as int, r as int, cur, v);
            let nvs = vs.push(rv);
            assert(nvs[r as int] == rv);
            assert forall|j: int| 0 <= j < r implies nvs[j] == vs[j] by {}
            assert forall|j: int| 0 <= j < r + 1 implies record_values_ok(
                maps@[p as int],
                sources@[p as int]@[j],
                maps@[p as int].logical_source.nulls_spec(),
                b,
                *call,
                #[trigger] nvs[j],
            ) by {
                if j < r {
                    assert(nvs[j] == vs[j]);
                }
            }
            lemma_map_steps_with_prefix(maps@, sources@, b, p as int, r as int, st, vs, nvs);
            vs = nvs;
        }
        r = r + 1;
    }
    assert(map_values_ok(maps@, sources@, b, p as int, *call, vs));
}

/// Blank subjects are stable: records on which the subject map yields the
/// same values get the same subjects; records on which it yields two
/// different single values get two different blank nodes.
pub proof fn lemma_blank_subjects(
    tm: TriplesMap,
    r1: Record,
    r2: Record,
    nulls: Seq<Seq<char>>,
    base: Option<Seq<char>>,
)
    requires
        tm.subject_map.term_type@ == crate::vocab::TermType::BLANK_NODE@,
    ensures
        eval_spec(tm.subject_map.expression, r1, nulls) == eval_spec(tm.subject_map.expression, r2, nulls)
            ==> subject_terms_spec(tm, r1, nulls, base) == subject_terms_spec(tm, r2, nulls, base),
        eval_spec(tm.subject_map.expression, r1, nulls).len() == 1 && eval_spec(
            tm.subject_map.expression,
            r2,
            nulls,
        ).len() == 1 && eval_spec(tm.subject_map.expression, r1, nulls)[0] != eval_spec(
            tm.subject_map.expression,
            r2,
            nulls,
        )[0] ==> subject_terms_spec(tm, r1, nulls, base).len() == 1 && subject_terms_spec(
            tm,
            r2,
            nulls,
            base,
        ).len() == 1 && subject_terms_spec(tm, r1, nulls, base)[0] != subject_terms_spec(
            tm,
            r2,
            nulls,
            base,
        )[0],
{
    let v1 = eval_spec(tm.subject_map.expression, r1, nulls);
    let v2 = eval_spec(tm.subject_map.expression, r2, nulls);
    if v1.len() == 1 && v2.len() == 1 && v1[0] != v2[0] {
        crate::term::lemma_blank_node_identity(v1[0], v2[0], None, None, tm.uri@, base);
        crate::term::lemma_blank_node_identity(v2[0], v1[0], None, None, tm.uri@, base);
        assert(v1.drop_last() =~= Seq::<Seq<char>>::empty());
        assert(v2.drop_last() =~= Seq::<Seq<char>>::empty());
        assert(v1.last() == v1[0]);
        assert(v2.last() == v2[0]);
        let tt = tm.subject_map.term_type@;
        assert(terms_of(v1.drop_last(), tt, None, None, tm.uri@, base) == Seq::<TermV>::empty());
        assert(terms_of(v2.drop_last(), tt, None, None, tm.uri@, base) == Seq::<TermV>::empty());
        let t1 = materialize_spec(v1[0], tt, None, None, tm.uri@, base)->0;
        let t2 = materialize_spec(v2[0], tt, None, None, tm.uri@, base)->0;
        assert(subject_terms_spec(tm, r1, nulls, base) == Seq::<TermV>::empty().push(t1));
        assert(subject_terms_spec(tm, r2, nulls, base) == Seq::<TermV>::empty().push(t2));
    }
}

} // verus!

use vstd::prelude::*;

use crate::evaluate::{eval_spec, evaluate, first_of, first_value, opt_view, values_ok, FunctionCall};
use crate::join::terms_view;
use crate::model::expression::strings_view;
use crate::model::function::Return;
use crate::model::maps::{GraphMap, ObjectMap, PredicateMap};
use crate::record::Record;
use crate::term::{copy_term, materialize, materialize_spec, opt_term_view, Term, TermV};

verus! {

/// The terms a sequence of values becomes under one term map's settings;
/// values that give no term are skipped.
pub open spec fn terms_of(
    vals: Seq<Seq<char>>,
    term_type: Seq<char>,
    dt: Option<Seq<char>>,
    lang: Option<Seq<char>>,
    scope: Seq<char>,
    base: Option<Seq<char>>,
) -> Seq<TermV>
    decreases vals.len(),
{
    if vals.len() == 0 {
        Seq::empty()
    } else {
        let rest = terms_of(vals.drop_last(), term_type, dt, lang, scope, base);
        match materialize_spec(vals.last(), term_type, dt, lang, scope, base) {
            Some(t) => rest.push(t),
            None => rest,
        }
    }
}

/// One term per value that materializes, in the order of the values.
pub fn terms_for_values(
    vals: &Vec<String>,
    term_type: &String,
    dt: &Option<String>,
    lang: &Option<String>,
    scope: &String,
    base: &Option<String>,
) -> (r: Vec<Term>)
    ensures
        terms_view(r@) == terms_of(
            strings_view(vals@),
            term_type@,
            opt_view(*dt),
            opt_view(*lang),
            scope@,
            opt_view(*base),
        ),
{
    let ghost vv = strings_view(vals@);
    let mut out: Vec<Term> = Vec::new();
    let mut i: usize = 0;
    assert(terms_view(out@) =~= Seq::empty());
    assert(vv.subrange(0, 0) =~= Seq::<Seq<char>>::empty());
    while i < vals.len()
        invariant
            0 <= i <= vals@.len(),
            vv == strings_view(vals@),
            terms_view(out@) == terms_of(
                vv.subrange(0, i as int),
                term_type@,
                opt_view(*dt),
                opt_view(*lang),
                scope@,
                opt_view(*base),
            ),
        decreases vals.len() - i,
    {
        assert(vv.subrange(0, i + 1).drop_last() =~= vv.subrange(0, i as int));
        let d = match dt {
            Some(s) => Some(s.clone()),
            None => None,
        };
        let l = match lang {
            Some(s) => Some(s.clone()),
            None => None,
        };
        match materialize(&vals[i], term_type, d, l, scope, base) {
            Some(t) => {
                let ghost before = out@;
                out.push(t);
                assert(terms_view(out@) =~= terms_view(before).push(t@));
            },
            None => {},
        }
        i = i + 1;
    }
    assert(vv.subrange(0, vals.len() as int) =~= vv);
    out
}

/// The predicates of a group of predicate maps, map by map.
pub open spec fn predicate_terms_spec(
    pms: Seq<PredicateMap>,
    rec: Record,
    nulls: Seq<Seq<char>>,
    scope: Seq<char>,
    base: Option<Seq<char>>,
) -> Seq<TermV>
    decreases pms.len(),
{
    if pms.len() == 0 {
        Seq::empty()
    } else {
        predicate_terms_spec(pms.drop_last(), rec, nulls, scope, base) + terms_of(
            eval_spec(pms.last().expression, rec, nulls),
            pms.last().term_type@,
            None,
            None,
            scope,
            base,
        )
    }
}

/// The graph names of a group of graph maps, map by map.
pub open spec fn graph_terms_spec(
    gms: Seq<GraphMap>,
    rec: Record,
    nulls: Seq<Seq<char>>,
    scope: Seq<char>,
    base: Option<Seq<char>>,
) -> Seq<TermV>
    decreases gms.len(),
{
    if gms.len() == 0 {
        Seq::empty()
    } else {
        graph_terms_spec(gms.drop_last(), rec, nulls, scope, base) + terms_of(
            eval_spec(gms.last().expression, rec, nulls),
            gms.last().term_type@,
            None,
            None,
            scope,
            base,
        )
    }
}

/// The datatype an object map gives its literals on a record.
pub open spec fn datatype_spec(om: ObjectMap, rec: Record, nulls: Seq<Seq<char>>) -> Option<Seq<char>> {
    match om.datatype_map {
        Some(d) => first_of(eval_spec(d.expression, rec, nulls)),
        None => None,
    }
}

/// The language tag an object map gives its literals on a record.
pub open spec fn language_spec(om: ObjectMap, rec: Record, nulls: Seq<Seq<char>>) -> Option<Seq<char>> {
    match om.language_map {
        Some(l) => first_of(eval_spec(l.expression, rec, nulls)),
        None => None,
    }
}

/// The objects a group of object maps produce on a record, map by map.
pub open spec fn object_terms_spec(
    oms: Seq<ObjectMap>,
    rec: Record,
    nulls: Seq<Seq<char>>,
    scope: Seq<char>,
    base: Option<Seq<char>>,
) -> Seq<TermV>
    decreases oms.len(),
{
    if oms.len() == 0 {
        Seq::empty()
    } else {
        let om = oms.last();
        object_terms_spec(oms.drop_last(), rec, nulls, scope, base) + terms_of(
            eval_spec(om.expression, rec, nulls),
            om.term_type@,
            datatype_spec(om, rec, nulls),
            language_spec(om, rec, nulls),
            scope,
            base,
        )
    }
}

/// Whether no predicate map of the group executes a function.
pub open spec fn predicates_function_free(pms: Seq<PredicateMap>) -> bool {
    forall|k: int| 0 <= k < pms.len() ==> !((#[trigger] pms[k]).expression is FunctionExecution)
}

/// Whether no graph map of the group executes a function.
pub open spec fn graphs_function_free(gms: Seq<GraphMap>) -> bool {
    forall|k: int| 0 <= k < gms.len() ==> !((#[trigger] gms[k]).expression is FunctionExecution)
}

/// Whether no object map of the group executes a function.
pub open spec fn objects_function_free(oms: Seq<ObjectMap>) -> bool {
    forall|k: int| 0 <= k < oms.len() ==> !((#[trigger] oms[k]).expression is FunctionExecution)
}

/// Whether `vals` holds, map by map, values that the expressions of `pms`
/// may yield on a record (see `values_ok`).
pub open spec fn predicate_values_ok<F: Fn(&FunctionCall) -> Option<Return>>(
    pms: Seq<PredicateMap>,
    rec: Record,
    nulls: Seq<Seq<char>>,
    call: F,
    vals: Seq<Seq<Seq<char>>>,
) -> bool {
    &&& vals.len() == pms.len()
    &&& forall|k: int|
        0 <= k < pms.len() ==> values_ok(pms[k].expression, rec, nulls, call, #[trigger] vals[k])
}

/// The predicates of a group of predicate maps, given the values of each.
pub open spec fn predicate_terms_with(
    pms: Seq<PredicateMap>,
    vals: Seq<Seq<Seq<char>>>,
    scope: Seq<char>,
    base: Option<Seq<char>>,
) -> Seq<TermV>
    decreases pms.len(),
{
    if pms.len() == 0 || vals.len() == 0 {
        Seq::empty()
    } else {
        predicate_terms_with(pms.drop_last(), vals.drop_last(), scope, base) + terms_of(
            vals.last(),
            pms.last().term_type@,
            None,
            None,
            scope,
            base,
        )
    }
}

/// Whether `vals` holds, map by map, values that the expressions of `gms`
/// may yield on a record.
pub open spec fn graph_values_ok<F: Fn(&FunctionCall) -> Option<Return>>(
    gms: Seq<GraphMap>,
    rec: Record,
    nulls: Seq<Seq<char>>,
    call: F,
    vals: Seq<Seq<Seq<char>>>,
) -> bool {
    &&& vals.len() == gms.len()
    &&& forall|k: int|
        0 <= k < gms.len() ==> values_ok(gms[k].expression, rec, nulls, call, #[trigger] vals[k])
}

/// The graph names of a group of graph maps, given the values of each.
pub open spec fn graph_terms_with(
    gms: Seq<GraphMap>,
    vals: Seq<Seq<Seq<char>>>,
    scope: Seq<char>,
    base: Option<Seq<char>>,
) -> Seq<TermV>
    decreases gms.len(),
{
    if gms.len() == 0 || vals.len() == 0 {
        Seq::empty()
    } else {
        graph_terms_with(gms.drop_last(), vals.drop_last(), scope, base) + terms_of(
            vals.last(),
            gms.last().term_type@,
            None,
            None,
            scope,
            base,
        )
    }
}

/// Whether `vals` holds, map by map, values that the expressions of `oms`
/// may yield on a record.
pub open spec fn object_values_ok<F: Fn(&FunctionCall) -> Option<Return>>(
    oms: Seq<ObjectMap>,
    rec: Record,
    nulls: Seq<Seq<char>>,
    call: F,
    vals: Seq<Seq<Seq<char>>>,
) -> bool {
    &&& vals.len() == oms.len()
    &&& forall|k: int|
        0 <= k < oms.len() ==> values_ok(oms[k].expression, rec, nulls, call, #[trigger] vals[k])
}

/// The objects of a group of object maps on a record, given the values of
/// each.
pub open spec fn object_terms_with(
    oms: Seq<ObjectMap>,
    vals: Seq<Seq<Seq<char>>>,
    rec: Record,
    nulls: Seq<Seq<char>>,
    scope: Seq<char>,
    base: Option<Seq<char>>,
) -> Seq<TermV>
    decreases oms.len(),
{
    if oms.len() == 0 || vals.len() == 0 {
        Seq::empty()
    } else {
        let om = oms.last();
        object_terms_with(oms.drop_last(), vals.drop_last(), rec, nulls, scope, base) + terms_of(
            vals.last(),
            om.term_type@,
            datatype_spec(om, rec, nulls),
            language_spec(om, rec, nulls),
            scope,
            base,
        )
    }
}

/// The predicates of a group of predicate maps on a record.
pub fn predicate_terms<F: Fn(&FunctionCall) -> Option<Return>>(
    pms: &Vec<PredicateMap>,
    rec: &Record,
    nulls: &Vec<String>,
    scope: &String,
    base: &Option<String>,
    call: &F,
) -> (r: Vec<Term>)
    requires
        forall|c: &FunctionCall| call.requires((c,)),
    ensures
        exists|vals: Seq<Seq<Seq<char>>>|
            #[trigger] predicate_values_ok(pms@, *rec, strings_view(nulls@), *call, vals) && terms_view(r@)
                == predicate_terms_with(pms@, vals, scope@, opt_view(*base)),
        predicates_function_free(pms@) ==> terms_view(r@) == predicate_terms_spec(
            pms@,
            *rec,
            strings_view(nulls@),
            scope@,
            opt_view(*base),
        ),
{
    let mut out: Vec<Term> = Vec::new();
    let mut i: usize = 0;
    assert(terms_view(out@) =~= Seq::empty());
    assert(pms@.subrange(0, 0) =~= Seq::<PredicateMap>::empty());
    let ghost mut gv: Seq<Seq<Seq<char>>> = Seq::empty();
    while i < pms.len()
        invariant
            0 <= i <= pms@.len(),
            forall|c: &FunctionCall| call.requires((c,)),
            predicates_function_free(pms@) ==> terms_view(out@) == predicate_terms_spec(
                pms@.subrange(0, i as int),
                *rec,
                strings_view(nulls@),
                scope@,
                opt_view(*base),
            ),
            gv.len() == i,
            forall|k: int|
                0 <= k < i ==> values_ok(pms@[k].expression, *rec, strings_view(nulls@), *call, #[trigger] gv[k]),
            terms_view(out@) == predicate_terms_with(pms@.subrange(0, i as int), gv, scope@, opt_view(*base)),
        decreases pms.len() - i,
    {
        assert(pms@.subrange(0, i + 1).drop_last() =~= pms@.subrange(0, i as int));
        let vals = evaluate(&pms[i].expression, rec, nulls, call);
        let mut ts = terms_for_values(&vals, &pms[i].term_type, &None, &None, scope, base);
        let ghost before = out@;
        let ghost added = ts@;
        out.append(&mut ts);
        assert(terms_view(out@) =~= terms_view(before) + terms_view(added));
        proof {
            let ng = gv.push(strings_view(vals@));
            assert(ng.drop_last() =~= gv);
            assert(pms@.subrange(0, i + 1).last() == pms@[i as int]);
            assert(terms_view(out@) == predicate_terms_with(pms@.subrange(0, i + 1), ng, scope@, opt_view(*base)));
            gv = ng;
        }
        i = i + 1;
    }
    assert(pms@.subrange(0, pms.len() as int) =~= pms@);
    assert(predicate_values_ok(pms@, *rec, strings_view(nulls@), *call, gv));
    out
}

/// The graph names of a group of graph maps on a record.
pub fn graph_terms<F: Fn(&FunctionCall) -> Option<Return>>(
    gms: &Vec<GraphMap>,
    rec: &Record,
    nulls: &Vec<String>,
    scope: &String,
    base: &Option<String>,
    call: &F,
) -> (r: Vec<Term>)
    requires
        forall|c: &FunctionCall| call.requires((c,)),
    ensures
        exists|vals: Seq<Seq<Seq<char>>>|
            #[trigger] graph_values_ok(gms@, *rec, strings_view(nulls@), *call, vals) && terms_view(r@)
                == graph_terms_with(gms@, vals, scope@, opt_view(*base)),
        graphs_function_free(gms@) ==> terms_view(r@) == graph_terms_spec(
            gms@,
            *rec,
            strings_view(nulls@),
            scope@,
            opt_view(*base),
        ),
{
    let mut out: Vec<Term> = Vec::new();
    let mut i: usize = 0;
    assert(terms_view(out@) =~= Seq::empty());
    assert(gms@.subrange(0, 0) =~= Seq::<GraphMap>::empty());
    let ghost mut gv: Seq<Seq<Seq<char>>> = Seq::empty();
    while i < gms.len()
        invariant
            0 <= i <= gms@.len(),
            forall|c: &FunctionCall| call.requires((c,)),
            graphs_function_free(gms@) ==> terms_view(out@) == graph_terms_spec(
                gms@.subrange(0, i as int),
                *rec,
                strings_view(nulls@),
                scope@,
                opt_view(*base),
            ),
            gv.len() == i,
            forall|k: int|
                0 <= k < i ==> values_ok(gms@[k].expression, *rec, strings_view(nulls@), *call, #[trigger] gv[k]),
            terms_view(out@) == graph_terms_with(gms@.subrange(0, i as int), gv, scope@, opt_view(*base)),
        decreases gms.len() - i,
    {
        assert(gms@.subrange(0, i + 1).drop_last() =~= gms@.subrange(0, i as int));
        let vals = evaluate(&gms[i].expression, rec, nulls, call);
        let mut ts = terms_for_values(&vals, &gms[i].term_type, &None, &None, scope, base);
        let ghost before = out@;
        let ghost added = ts@;
        out.append(&mut ts);
        assert(terms_view(out@) =~= terms_view(before) + terms_view(added));
        proof {
            let ng = gv.push(strings_view(vals@));
            assert(ng.drop_last() =~= gv);
            assert(gms@.subrange(0, i + 1).last() == gms@[i as int]);
            assert(terms_view(out@) == graph_terms_with(gms@.subrange(0, i + 1), ng, scope@, opt_view(*base)));
            gv = ng;
        }
        i = i + 1;
    }
    assert(gms@.subrange(0, gms.len() as int) =~= gms@);
    assert(graph_values_ok(gms@, *rec, strings_view(nulls@), *call, gv));
    out
}

/// The objects a group of object maps produce on a record. An object map
/// that executes a function asks `call` for its value, and gives at most
/// one object; the others give exactly their specified objects.
pub fn object_terms<F: Fn(&FunctionCall) -> Option<Return>>(
    oms: &Vec<ObjectMap>,
    rec: &Record,
    nulls: &Vec<String>,
    scope: &String,
    base: &Option<String>,
    call: &F,
) -> (r: Vec<Term>)
    requires
        forall|c: &FunctionCall| call.requires((c,)),
    ensures
        exists|vals: Seq<Seq<Seq<char>>>|
            #[trigger] object_values_ok(oms@, *rec, strings_view(nulls@), *call, vals) && terms_view(r@)
                == object_terms_with(oms@, vals, *rec, strings_view(nulls@), scope@, opt_view(*base)),
        objects_function_free(oms@) ==> terms_view(r@) == object_terms_spec(
            oms@,
            *rec,
            strings_view(nulls@),
            scope@,
            opt_view(*base),
        ),
{
    let mut out: Vec<Term> = Vec::new();
    let mut i: usize = 0;
    assert(terms_view(out@) =~= Seq::empty());
    assert(oms@.subrange(0, 0) =~= Seq::<ObjectMap>::empty());
    let ghost mut gv: Seq<Seq<Seq<char>>> = Seq::empty();
    while i < oms.len()
        invariant
            0 <= i <= oms@.len(),
            forall|c: &FunctionCall| call.requires((c,)),
            objects_function_free(oms@) ==> terms_view(out@) == object_terms_spec(
                oms@.subrange(0, i as int),
                *rec,
                strings_view(nulls@),
                scope@,
                opt_view(*base),
            ),
            gv.len() == i,
            forall|k: int|
                0 <= k < i ==> values_ok(oms@[k].expression, *rec, strings_view(nulls@), *call, #[trigger] gv[k]),
            terms_view(out@) == object_terms_with(oms@.subrange(0, i as int), gv, *rec, strings_view(nulls@), scope@, opt_view(*base)),
        decreases oms.len() - i,
    {
        assert(oms@.subrange(0, i + 1).drop_last() =~= oms@.subrange(0, i as int));
        let om = &oms[i];
        let vals = evaluate(&om.expression, rec, nulls, call);
        let dt = match &om.datatype_map {
            Some(d) => first_value(&d.expression, rec, nulls),
            None => None,
        };
        let lang = match &om.language_map {
            Some(l) => first_value(&l.expression, rec, nulls),
            None => None,
        };
        let mut ts = terms_for_values(&vals, &om.term_type, &dt, &lang, scope, base);
        let ghost before = out@;
        let ghost added = ts@;
        out.append(&mut ts);
        assert(terms_view(out@) =~= terms_view(before) + terms_view(added));
        proof {
            let ng = gv.push(strings_view(vals@));
            assert(ng.drop_last() =~= gv);
            assert(oms@.subrange(0, i + 1).last() == oms@[i as int]);
            assert(terms_view(out@) == object_terms_with(oms@.subrange(0, i + 1), ng, *rec, strings_view(nulls@), scope@, opt_view(*base)));
            gv = ng;
        }
        i = i + 1;
    }
    assert(oms@.subrange(0, oms.len() as int) =~= oms@);
    assert(object_values_ok(oms@, *rec, strings_view(nulls@), *call, gv));
    out
}

/// A quad; no graph name means the default graph.
#[derive(Debug, Clone, PartialEq, Eq)]
pub struct Quad {
    pub subject: Term,
    pub predicate: Term,
    pub object: Term,
    pub graph: Option<Term>,
}

impl View for Quad {
    type V = (TermV, TermV, TermV, Option<TermV>);

    open spec fn view(&self) -> Self::V {
        (self.subject@, self.predicate@, self.object@, opt_term_view(self.graph))
    }
}

pub open spec fn quads_view(v: Seq<Quad>) -> Seq<(TermV, TermV, TermV, Option<TermV>)> {
    v.map_values(|q: Quad| q@)
}

pub open spec fn graphs_view(v: Seq<Option<Term>>) -> Seq<Option<TermV>> {
    v.map_values(|g: Option<Term>| opt_term_view(g))
}

/// The quads of subject `s` with predicate `p` and object `o`, one per
/// graph.
pub open spec fn graph_row(
    s: TermV,
    p: TermV,
    o: TermV,
    graphs: Seq<Option<TermV>>,
) -> Seq<(TermV, TermV, TermV, Option<TermV>)> {
    graphs.map_values(|g: Option<TermV>| (s, p, o, g))
}

/// The quads of subject `s` and predicate `p`: objects in order, each with
/// every graph.
pub open spec fn object_rows(
    s: TermV,
    p: TermV,
    objs: Seq<TermV>,
    graphs: Seq<Option<TermV>>,
) -> Seq<(TermV, TermV, TermV, Option<TermV>)>
    decreases objs.len(),
{
    if objs.len() == 0 {
        Seq::empty()
    } else {
        object_rows(s, p, objs.drop_last(), graphs) + graph_row(s, p, objs.last(), graphs)
    }
}

/// The cross product of predicates, objects and graphs for subject `s`,
/// predicate by predicate.
pub open spec fn cross_spec(
    s: TermV,
    preds: Seq<TermV>,
    objs: Seq<TermV>,
    graphs: Seq<Option<TermV>>,
) -> Seq<(TermV, TermV, TermV, Option<TermV>)>
    decreases preds.len(),
{
    if preds.len() == 0 {
        Seq::empty()
    } else {
        cross_spec(s, preds.drop_last(), objs, graphs) + object_rows(s, preds.last(), objs, graphs)
    }
}

fn copy_graph(g: &Option<Term>) -> (r: Option<Term>)
    ensures
        r == *g,
{
    match g {
        Some(t) => Some(copy_term(t)),
        None => None,
    }
}

/// Appends one quad per predicate, object and graph, for subject `s`.
pub fn push_cross(
    s: &Term,
    preds: &Vec<Term>,
    objs: &Vec<Term>,
    graphs: &Vec<Option<Term>>,
    out: &mut Vec<Quad>,
)
    ensures
        quads_view(final(out)@) == quads_view(old(out)@) + cross_spec(
            s@,
            terms_view(preds@),
            terms_view(objs@),
            graphs_view(graphs@),
        ),
{
    let ghost pv = terms_view(preds@);
    let ghost ov = terms_view(objs@);
    let ghost gv = graphs_view(graphs@);
    let ghost start = quads_view(out@);
    let mut i: usize = 0;
    assert(pv.subrange(0, 0) =~= Seq::<TermV>::empty());
    assert(start =~= start + cross_spec(s@, pv.subrange(0, 0), ov, gv));
    while i < preds.len()
        invariant
            0 <= i <= preds@.len(),
            pv == terms_view(preds@),
            ov == terms_view(objs@),
            gv == graphs_view(graphs@),
            quads_view(out@) == start + cross_spec(s@, pv.subrange(0, i as int), ov, gv),
        decreases preds.len() - i,
    {
        assert(pv.subrange(0, i + 1).drop_last() =~= pv.subrange(0, i as int));
        assert(pv.subrange(0, i + 1).last() == pv[i as int]);
        let ghost mid = quads_view(out@);
        let mut j: usize = 0;
        assert(ov.subrange(0, 0) =~= Seq::<TermV>::empty());
        assert(mid =~= mid + object_rows(s@, pv[i as int], ov.subrange(0, 0), gv));
        while j < objs.len()
            invariant
                0 <= i < preds@.len(),
                0 <= j <= objs@.len(),
                pv == terms_view(preds@),
                ov == terms_view(objs@),
                gv == graphs_view(graphs@),
                quads_view(out@) == mid + object_rows(s@, pv[i as int], ov.subrange(0, j as int), gv),
            decreases objs.len() - j,
        {
            assert(ov.subrange(0, j + 1).drop_last() =~= ov.subrange(0, j as int));
            assert(ov.subrange(0, j + 1).last() == ov[j as int]);
            let ghost row_start = quads_view(out@);
            let mut k: usize = 0;
            while k < graphs.len()
                invariant
                    0 <= i < preds@.len(),
                    0 <= j < objs@.len(),
                    0 <= k <= graphs@.len(),
                    pv == terms_view(preds@),
                    ov == terms_view(objs@),
                    gv == graphs_view(graphs@),
                    quads_view(out@) == row_start + graph_row(
                        s@,
                        pv[i as int],
                        ov[j as int],
                        gv.subrange(0, k as int),
                    ),
                decreases graphs.len() - k,
            {
                let q = Quad {
                    subject: copy_term(s),
                    predicate: copy_term(&preds[i]),
                    object: copy_term(&objs[j]),
                    graph: copy_graph(&graphs[k]),
                };
                let ghost before = quads_view(out@);
                out.push(q);
                assert(quads_view(out@) =~= before.push(q@));
                assert(graph_row(s@, pv[i as int], ov[j as int], gv.subrange(0, k + 1))
                    =~= graph_row(s@, pv[i as int], ov[j as int], gv.subrange(0, k as int)).push(
                    q@,
                ));
                k = k + 1;
            }
            assert(gv.subrange(0, graphs.len() as int) =~= gv);
            j = j + 1;
        }
        assert(ov.subrange(0, objs.len() as int) =~= ov);
        i = i + 1;
    }
    assert(pv.subrange(0, preds.len() as int) =~= pv);
}

/// Multi-valued results fan out: under the literal term type with no
/// datatype or language, each value becomes its own plain literal, in
/// order, none merged with another.
pub proof fn lemma_literal_fan_out(
    vals: Seq<Seq<char>>,
    scope: Seq<char>,
    base: Option<Seq<char>>,
)
    ensures
        terms_of(vals, crate::vocab::TermType::LITERAL@, None, None, scope, base) == vals.map_values(
            |v: Seq<char>| TermV::Lit(v, None, None),
        ),
    decreases vals.len(),
{
    reveal_strlit("http://w3id.org/rml/IRI");
    reveal_strlit("http://w3id.org/rml/BlankNode");
    reveal_strlit("http://w3id.org/rml/Literal");
    assert(crate::vocab::TermType::LITERAL@[20] != crate::vocab::TermType::IRI@[20]);
    assert(crate::vocab::TermType::LITERAL@[20] != crate::vocab::TermType::BLANK_NODE@[20]);
    reveal_strlit("http://www.w3.org/ns/r2rml#IRI");
    assert(crate::vocab::TermType::LITERAL@[8] != crate::vocab::R2RML_IRI@[8]);
    if vals.len() > 0 {
        lemma_literal_fan_out(vals.drop_last(), scope, base);
        assert(vals.map_values(|v: Seq<char>| TermV::Lit(v, None, None)) =~= vals.drop_last().map_values(
            |v: Seq<char>| TermV::Lit(v, None, None),
        ).push(TermV::Lit(vals.last(), None, None)));
    } else {
        assert(vals.map_values(|v: Seq<char>| TermV::Lit(v, None, None)) =~= Seq::empty());
    }
}

} // verus!

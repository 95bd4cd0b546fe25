use vstd::prelude::*;

use crate::evaluate::{eval_spec, evaluate_value};
use crate::model::expression::strings_view;
use crate::model::maps::{JoinCondition, ReferencingObjectMap};
use crate::record::{contains_string, Record};
use crate::term::{copy_term, Term, TermV};

verus! {

/// A record of a parent triples map, by its position in the parent's
/// records, with the subject it produced.
#[derive(Debug, Clone, PartialEq, Eq)]
pub struct ParentEntry {
    pub subject: Term,
    pub record: usize,
}

/// Whether two value sequences have a value in common.
pub open spec fn shares_value(a: Seq<Seq<char>>, b: Seq<Seq<char>>) -> bool {
    exists|v: Seq<char>| a.contains(v) && b.contains(v)
}

/// Whether one join condition holds between a child and a parent record:
/// some value of its child expression equals some value of its parent
/// expression.
pub open spec fn condition_holds(
    jc: JoinCondition,
    child: Record,
    child_nulls: Seq<Seq<char>>,
    parent: Record,
    parent_nulls: Seq<Seq<char>>,
) -> bool {
    shares_value(
        eval_spec(jc.child_map.expression, child, child_nulls),
        eval_spec(jc.parent_map.expression, parent, parent_nulls),
    )
}

/// Whether every join condition holds between a child and a parent record.
pub open spec fn joins_with(
    conds: Seq<JoinCondition>,
    child: Record,
    child_nulls: Seq<Seq<char>>,
    parent: Record,
    parent_nulls: Seq<Seq<char>>,
) -> bool {
    forall|k: int|
        0 <= k < conds.len() ==> condition_holds(
            #[trigger] conds[k],
            child,
            child_nulls,
            parent,
            parent_nulls,
        )
}

/// The subjects of the parent entries whose records join with the child
/// record, in the order of the entries.
pub open spec fn join_spec(
    conds: Seq<JoinCondition>,
    child: Record,
    child_nulls: Seq<Seq<char>>,
    entries: Seq<(TermV, Record)>,
    parent_nulls: Seq<Seq<char>>,
) -> Seq<TermV>
    decreases entries.len(),
{
    if entries.len() == 0 {
        Seq::empty()
    } else {
        let rest = join_spec(conds, child, child_nulls, entries.drop_last(), parent_nulls);
        if joins_with(conds, child, child_nulls, entries.last().1, parent_nulls) {
            rest.push(entries.last().0)
        } else {
            rest
        }
    }
}

/// An index as subjects with record positions.
pub open spec fn index_view(index: Seq<ParentEntry>) -> Seq<(TermV, int)> {
    index.map_values(|e: ParentEntry| (e.subject@, e.record as int))
}

/// The index entries with the parent records they point to.
pub open spec fn entries_view(index: Seq<(TermV, int)>, parents: Seq<Record>) -> Seq<(TermV, Record)> {
    index.map_values(|e: (TermV, int)| (e.0, parents[e.1]))
}

pub open spec fn index_in_bounds(index: Seq<(TermV, int)>, n: nat) -> bool {
    forall|i: int| 0 <= i < index.len() ==> 0 <= (#[trigger] index[i]).1 < n
}

pub open spec fn terms_view(v: Seq<Term>) -> Seq<TermV> {
    v.map_values(|t: Term| t@)
}

fn shares_value_exec(a: &Vec<String>, b: &Vec<String>) -> (r: bool)
    ensures
        r == shares_value(strings_view(a@), strings_view(b@)),
{
    let mut i: usize = 0;
    while i < a.len()
        invariant
            0 <= i <= a@.len(),
            forall|k: int| 0 <= k < i ==> !strings_view(b@).contains(#[trigger] a@[k]@),
        decreases a.len() - i,
    {
        if contains_string(b, &a[i]) {
            assert(strings_view(a@)[i as int] == a@[i as int]@);
            return true;
        }
        i = i + 1;
    }
    assert forall|v: Seq<char>| !(strings_view(a@).contains(v) && strings_view(b@).contains(v)) by {
        if strings_view(a@).contains(v) {
            let k = choose|k: int| 0 <= k < a@.len() && strings_view(a@)[k] == v;
            assert(a@[k]@ == v);
        }
    }
    false
}

/// Whether every join condition holds between the child and parent record.
pub fn conditions_hold(
    conds: &Vec<JoinCondition>,
    child: &Record,
    child_nulls: &Vec<String>,
    parent: &Record,
    parent_nulls: &Vec<String>,
) -> (r: bool)
    ensures
        r == joins_with(conds@, *child, strings_view(child_nulls@), *parent, strings_view(parent_nulls@)),
{
    let mut k: usize = 0;
    while k < conds.len()
        invariant
            0 <= k <= conds@.len(),
            forall|j: int|
                0 <= j < k ==> condition_holds(
                    #[trigger] conds@[j],
                    *child,
                    strings_view(child_nulls@),
                    *parent,
                    strings_view(parent_nulls@),
                ),
        decreases conds.len() - k,
    {
        let cv = evaluate_value(&conds[k].child_map.expression, child, child_nulls);
        let pv = evaluate_value(&conds[k].parent_map.expression, parent, parent_nulls);
        if !shares_value_exec(&cv, &pv) {
            return false;
        }
        k = k + 1;
    }
    true
}

/// The objects a referencing object map contributes for a child record:
/// the subject of each indexed parent record that meets every join
/// condition, in index order.
pub fn resolve_join(
    rom: &ReferencingObjectMap,
    child: &Record,
    child_nulls: &Vec<String>,
    parents: &Vec<Record>,
    index: &Vec<ParentEntry>,
    parent_nulls: &Vec<String>,
) -> (r: Vec<Term>)
    requires
        index_in_bounds(index_view(index@), parents@.len()),
    ensures
        terms_view(r@) == join_spec(
            rom.join_conditions@,
            *child,
            strings_view(child_nulls@),
            entries_view(index_view(index@), parents@),
            strings_view(parent_nulls@),
        ),
{
    let ghost ev = entries_view(index_view(index@), parents@);
    let mut out: Vec<Term> = Vec::new();
    let mut i: usize = 0;
    assert(terms_view(out@) =~= Seq::empty());
    assert(ev.subrange(0, 0) =~= Seq::<(TermV, Record)>::empty());
    while i < index.len()
        invariant
            0 <= i <= index@.len(),
            index_in_bounds(index_view(index@), parents@.len()),
            ev == entries_view(index_view(index@), parents@),
            terms_view(out@) == join_spec(
                rom.join_conditions@,
                *child,
                strings_view(child_nulls@),
                ev.subrange(0, i as int),
                strings_view(parent_nulls@),
            ),
        decreases index.len() - i,
    {
        assert(ev.subrange(0, i + 1).drop_last() =~= ev.subrange(0, i as int));
        assert(index_view(index@)[i as int].1 < parents@.len());
        let entry = &index[i];
        if conditions_hold(&rom.join_conditions, child, child_nulls, &parents[entry.record], parent_nulls) {
            let ghost before = out@;
            out.push(copy_term(&entry.subject));
            assert(terms_view(out@) =~= terms_view(before).push(entry.subject@));
        }
        i = i + 1;
    }
    assert(ev.subrange(0, index.len() as int) =~= ev);
    out
}

/// A subject is among the join's results exactly when some entry with that
/// subject joins with the child record.
pub proof fn lemma_join_members(
    conds: Seq<JoinCondition>,
    child: Record,
    child_nulls: Seq<Seq<char>>,
    entries: Seq<(TermV, Record)>,
    parent_nulls: Seq<Seq<char>>,
    t: TermV,
)
    ensures
        join_spec(conds, child, child_nulls, entries, parent_nulls).contains(t) <==> exists|i: int|
            0 <= i < entries.len() && (#[trigger] entries[i]).0 == t && joins_with(
                conds,
                child,
                child_nulls,
                entries[i].1,
                parent_nulls,
            ),
    decreases entries.len(),
{
    if entries.len() > 0 {
        let init = entries.drop_last();
        lemma_join_members(conds, child, child_nulls, init, parent_nulls, t);
        let rest = join_spec(conds, child, child_nulls, init, parent_nulls);
        if join_spec(conds, child, child_nulls, entries, parent_nulls).contains(t) {
            if rest.contains(t) {
                let i = choose|i: int|
                    0 <= i < init.len() && (#[trigger] init[i]).0 == t && joins_with(
                        conds,
                        child,
                        child_nulls,
                        init[i].1,
                        parent_nulls,
                    );
                assert(entries[i] == init[i]);
            } else {
                let last = entries.len() - 1;
                assert(entries[last].0 == t);
            }
        }
        if exists|i: int|
            0 <= i < entries.len() && (#[trigger] entries[i]).0 == t && joins_with(
                conds,
                child,
                child_nulls,
                entries[i].1,
                parent_nulls,
            ) {
            let i = choose|i: int|
                0 <= i < entries.len() && (#[trigger] entries[i]).0 == t && joins_with(
                    conds,
                    child,
                    child_nulls,
                    entries[i].1,
                    parent_nulls,
                );
            if i < entries.len() - 1 {
                assert(init[i] == entries[i]);
                assert(rest.contains(t));
                let full = join_spec(conds, child, child_nulls, entries, parent_nulls);
                let j = choose|j: int| 0 <= j < rest.len() && rest[j] == t;
                assert(full[j] == t);
            } else {
                let full = join_spec(conds, child, child_nulls, entries, parent_nulls);
                assert(full[full.len() - 1] == t);
            }
        }
    }
}

/// Join resolution does not depend on the order of the parent index: two
/// indexes holding the same entries give the same set of subjects.
pub proof fn lemma_join_order_independent(
    conds: Seq<JoinCondition>,
    child: Record,
    child_nulls: Seq<Seq<char>>,
    a: Seq<(TermV, Record)>,
    b: Seq<(TermV, Record)>,
    parent_nulls: Seq<Seq<char>>,
)
    requires
        a.to_set() == b.to_set(),
    ensures
        join_spec(conds, child, child_nulls, a, parent_nulls).to_set() == join_spec(
            conds,
            child,
            child_nulls,
            b,
            parent_nulls,
        ).to_set(),
{
    let ra = join_spec(conds, child, child_nulls, a, parent_nulls);
    let rb = join_spec(conds, child, child_nulls, b, parent_nulls);
    assert forall|t: TermV| ra.to_set().contains(t) implies rb.to_set().contains(t) by {
        lemma_join_members(conds, child, child_nulls, a, parent_nulls, t);
        lemma_join_members(conds, child, child_nulls, b, parent_nulls, t);
        let i = choose|i: int|
            0 <= i < a.len() && (#[trigger] a[i]).0 == t && joins_with(
                conds,
                child,
                child_nulls,
                a[i].1,
                parent_nulls,
            );
        assert(a.to_set().contains(a[i]));
        assert(b.contains(a[i]));
        let j = choose|j: int| 0 <= j < b.len() && b[j] == a[i];
        assert(b[j].0 == t);
    }
    assert forall|t: TermV| rb.to_set().contains(t) implies ra.to_set().contains(t) by {
        lemma_join_members(conds, child, child_nulls, a, parent_nulls, t);
        lemma_join_members(conds, child, child_nulls, b, parent_nulls, t);
        let i = choose|i: int|
            0 <= i < b.len() && (#[trigger] b[i]).0 == t && joins_with(
                conds,
                child,
                child_nulls,
                b[i].1,
                parent_nulls,
            );
        assert(b.to_set().contains(b[i]));
        assert(a.contains(b[i]));
        let j = choose|j: int| 0 <= j < a.len() && a[j] == b[i];
        assert(a[j].0 == t);
    }
    assert(ra.to_set() =~= rb.to_set());
}

/// Join conditions are conjunctive: when one condition holds for no parent
/// record, the join yields no subject, whatever the other conditions do.
pub proof fn lemma_join_needs_every_condition(
    conds: Seq<JoinCondition>,
    child: Record,
    child_nulls: Seq<Seq<char>>,
    entries: Seq<(TermV, Record)>,
    parent_nulls: Seq<Seq<char>>,
    k: int,
)
    requires
        0 <= k < conds.len(),
        forall|i: int|
            0 <= i < entries.len() ==> !condition_holds(
                conds[k],
                child,
                child_nulls,
                (#[trigger] entries[i]).1,
                parent_nulls,
            ),
    ensures
        join_spec(conds, child, child_nulls, entries, parent_nulls).len() == 0,
    decreases entries.len(),
{
    if entries.len() > 0 {
        let init = entries.drop_last();
        assert forall|i: int| 0 <= i < init.len() implies !condition_holds(
            conds[k],
            child,
            child_nulls,
            (#[trigger] init[i]).1,
            parent_nulls,
        ) by {
            assert(init[i] == entries[i]);
        }
        lemma_join_needs_every_condition(conds, child, child_nulls, init, parent_nulls, k);
        assert(!condition_holds(conds[k], child, child_nulls, entries[entries.len() - 1].1, parent_nulls));
    }
}

} // verus!

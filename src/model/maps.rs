use vstd::prelude::*;

use super::expression::{expression_references, strings_view, Expression, ExpressionMap};
use super::function::{DatatypeMap, GatherMapMixin, Gatherable, LanguageMap};
use crate::vocab::R2RML_IRI;

verus! {

/// A term map with no more than an expression and a term type.
#[derive(Debug, PartialEq)]
pub struct TermMap {
    pub expression: Expression,
    pub term_type: String,
}

impl TermMap {
    pub fn new(expression: Expression, term_type: String) -> (r: Self)
        ensures
            r.expression == expression,
            r.term_type == term_type,
    {
        TermMap { expression, term_type }
    }
}

impl Gatherable for TermMap {
    open spec fn gathers(&self) -> bool {
        false
    }

    fn get_gather_map(&self) -> (r: Option<GatherMapMixin>) {
        None
    }
}

/// Produces the predicates of triples; always IRI-typed.
#[derive(Debug, PartialEq)]
pub struct PredicateMap {
    pub expression: Expression,
    pub term_type: String,
}

impl PredicateMap {
    pub fn new(expression: Expression) -> (r: Self)
        ensures
            r.expression == expression,
            r.term_type@ == R2RML_IRI@,
    {
        PredicateMap { expression, term_type: String::from_str(R2RML_IRI) }
    }
}

/// Produces the objects of triples.
#[derive(Debug, PartialEq)]
pub struct ObjectMap {
    pub expression: Expression,
    pub term_type: String,
    pub datatype_map: Option<DatatypeMap>,
    pub language_map: Option<LanguageMap>,
    pub gather_map: Option<GatherMapMixin>,
}

impl ObjectMap {
    pub fn new(
        expression: Expression,
        term_type: String,
        datatype_map: Option<DatatypeMap>,
        language_map: Option<LanguageMap>,
        gather_map: Option<GatherMapMixin>,
    ) -> (r: Self)
        ensures
            r.expression == expression,
            r.term_type == term_type,
            r.datatype_map == datatype_map,
            r.language_map == language_map,
            r.gather_map == gather_map,
    {
        ObjectMap { expression, term_type, datatype_map, language_map, gather_map }
    }
}

impl Gatherable for ObjectMap {
    open spec fn gathers(&self) -> bool {
        self.gather_map is Some
    }

    fn get_gather_map(&self) -> (r: Option<GatherMapMixin>) {
        match &self.gather_map {
            Some(_) => Some(GatherMapMixin {}),
            None => None,
        }
    }
}

/// Produces the graph names of quads.
#[derive(Debug, PartialEq)]
pub struct GraphMap {
    pub expression: Expression,
    pub term_type: String,
}

impl GraphMap {
    pub fn new(expression: Expression, term_type: String) -> (r: Self)
        ensures
            r.expression == expression,
            r.term_type == term_type,
    {
        GraphMap { expression, term_type }
    }
}

/// Produces the subject of every triple of a record, and its classes.
#[derive(Debug, PartialEq)]
pub struct SubjectMap {
    pub expression: Expression,
    pub term_type: String,
    pub classes: Vec<String>,
    pub graph_maps: Vec<GraphMap>,
    pub gather_map: Option<GatherMapMixin>,
}

impl SubjectMap {
    pub fn new(
        expression: Expression,
        term_type: String,
        classes: Vec<String>,
        graph_maps: Vec<GraphMap>,
        gather_map: Option<GatherMapMixin>,
    ) -> (r: Self)
        ensures
            r.expression == expression,
            r.term_type == term_type,
            r.classes == classes,
            r.graph_maps == graph_maps,
            r.gather_map == gather_map,
    {
        SubjectMap { expression, term_type, classes, graph_maps, gather_map }
    }
}

impl Gatherable for SubjectMap {
    open spec fn gathers(&self) -> bool {
        self.gather_map is Some
    }

    fn get_gather_map(&self) -> (r: Option<GatherMapMixin>) {
        match &self.gather_map {
            Some(_) => Some(GatherMapMixin {}),
            None => None,
        }
    }
}

/// Ties a value of the parent record to a value of the child record.
#[derive(Debug, PartialEq)]
pub struct JoinCondition {
    pub parent_map: ExpressionMap,
    pub child_map: ExpressionMap,
}

impl JoinCondition {
    pub fn new(parent_map: ExpressionMap, child_map: ExpressionMap) -> (r: Self)
        ensures
            r.parent_map == parent_map,
            r.child_map == child_map,
    {
        JoinCondition { parent_map, child_map }
    }
}

/// Objects that are the subjects of the parent triples map's records that
/// meet every join condition.
#[derive(Debug, PartialEq)]
pub struct ReferencingObjectMap {
    pub uri: Option<String>,
    pub parent_uri: String,
    pub join_conditions: Vec<JoinCondition>,
    pub gather_map: Option<GatherMapMixin>,
}

/// The child-side references of `conds`, condition by condition.
pub open spec fn child_references(conds: Seq<JoinCondition>) -> Seq<Seq<char>>
    decreases conds.len(),
{
    if conds.len() == 0 {
        Seq::empty()
    } else {
        child_references(conds.drop_last()) + expression_references(
            conds.last().child_map.expression,
        )
    }
}

impl ReferencingObjectMap {
    pub fn new(
        uri: Option<String>,
        parent_uri: String,
        join_conditions: Vec<JoinCondition>,
        gather_map: Option<GatherMapMixin>,
    ) -> (r: Self)
        ensures
            r.uri == uri,
            r.parent_uri == parent_uri,
            r.join_conditions == join_conditions,
            r.gather_map == gather_map,
    {
        ReferencingObjectMap { uri, parent_uri, join_conditions, gather_map }
    }

    /// The references the join conditions read from the child record.
    pub fn get_references(&self) -> (r: Vec<String>)
        ensures
            strings_view(r@) == child_references(self.join_conditions@),
    {
        let mut r: Vec<String> = Vec::new();
        let mut i: usize = 0;
        assert(strings_view(r@) =~= Seq::empty());
        while i < self.join_conditions.len()
            invariant
                0 <= i <= self.join_conditions@.len(),
                strings_view(r@) == child_references(self.join_conditions@.subrange(0, i as int)),
            decreases self.join_conditions.len() - i,
        {
            assert(self.join_conditions@.subrange(0, i + 1).drop_last()
                =~= self.join_conditions@.subrange(0, i as int));
            let mut refs = self.join_conditions[i].child_map.get_references();
            let ghost before = r@;
            r.append(&mut refs);
            assert(strings_view(r@) =~= strings_view(before) + expression_references(
                self.join_conditions@[i as int].child_map.expression,
            ));
            i = i + 1;
        }
        assert(self.join_conditions@.subrange(0, self.join_conditions.len() as int)
            =~= self.join_conditions@);
        r
    }
}

impl Gatherable for ReferencingObjectMap {
    open spec fn gathers(&self) -> bool {
        self.gather_map is Some
    }

    fn get_gather_map(&self) -> (r: Option<GatherMapMixin>) {
        match &self.gather_map {
            Some(_) => Some(GatherMapMixin {}),
            None => None,
        }
    }
}

/// Predicate maps with the object maps, joins and graph maps they pair with.
#[derive(Debug, PartialEq)]
pub struct PredicateObjectMap {
    pub uri: Option<String>,
    pub predicate_maps: Vec<PredicateMap>,
    pub object_maps: Vec<ObjectMap>,
    pub ref_object_maps: Vec<ReferencingObjectMap>,
    pub graph_maps: Vec<GraphMap>,
}

impl PredicateObjectMap {
    pub fn new(
        uri: Option<String>,
        predicate_maps: Vec<PredicateMap>,
        object_maps: Vec<ObjectMap>,
        ref_object_maps: Vec<ReferencingObjectMap>,
        graph_maps: Vec<GraphMap>,
    ) -> (r: Self)
        ensures
            r.uri == uri,
            r.predicate_maps == predicate_maps,
            r.object_maps == object_maps,
            r.ref_object_maps == ref_object_maps,
            r.graph_maps == graph_maps,
    {
        PredicateObjectMap { uri, predicate_maps, object_maps, ref_object_maps, graph_maps }
    }
}

} // verus!

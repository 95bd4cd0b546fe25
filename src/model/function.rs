use vstd::prelude::*;
use vstd::hash_map::StringHashMap;

use super::expression::Expression;
use crate::vocab::TermType;

verus! {

/// Something that may declare a gather configuration.
pub trait Gatherable {
    /// Whether a gather configuration is declared.
    spec fn gathers(&self) -> bool;

    fn get_gather_map(&self) -> (r: Option<GatherMapMixin>)
        ensures
            r is Some == self.gathers(),
    ;
}

/// A gather configuration. The engine fans a multi-valued term map out into
/// one triple per value whether or not one is declared.
#[derive(Debug, Clone, PartialEq, Eq)]
pub struct GatherMapMixin {}

/// Names the function to execute; always IRI-typed.
#[derive(Debug, PartialEq)]
pub struct FunctionMap {
    pub expression: Expression,
    pub term_type: String,
}

impl FunctionMap {
    pub fn new(expression: Expression) -> (r: Self)
        ensures
            r.expression == expression,
            r.term_type@ == TermType::IRI@,
    {
        FunctionMap { expression, term_type: String::from_str(TermType::IRI) }
    }
}

/// Names a formal parameter of a function; always IRI-typed.
#[derive(Debug, PartialEq)]
pub struct ParameterMap {
    pub expression: Expression,
    pub term_type: String,
}

impl ParameterMap {
    pub fn new(expression: Expression) -> (r: Self)
        ensures
            r.expression == expression,
            r.term_type@ == TermType::IRI@,
    {
        ParameterMap { expression, term_type: String::from_str(TermType::IRI) }
    }
}

/// Gives the actual value bound to a parameter.
#[derive(Debug, PartialEq)]
pub struct InputValueMap {
    pub expression: Expression,
    pub term_type: String,
    pub datatype_map: Option<DatatypeMap>,
    pub language_map: Option<LanguageMap>,
}

#[derive(Debug, PartialEq)]
pub struct DatatypeMap {
    pub expression: Expression,
}

impl DatatypeMap {
    pub fn new(expression: Expression) -> (r: Self)
        ensures
            r.expression == expression,
    {
        DatatypeMap { expression }
    }
}

#[derive(Debug, PartialEq)]
pub struct LanguageMap {
    pub expression: Expression,
}

impl LanguageMap {
    pub fn new(expression: Expression) -> (r: Self)
        ensures
            r.expression == expression,
    {
        LanguageMap { expression }
    }
}

/// Selects a named field of a function's result; always IRI-typed.
#[derive(Debug, PartialEq)]
pub struct ReturnMap {
    pub expression: Expression,
    pub term_type: String,
}

impl ReturnMap {
    pub fn new(expression: Expression) -> (r: Self)
        ensures
            r.expression == expression,
            r.term_type@ == TermType::IRI@,
    {
        ReturnMap { expression, term_type: String::from_str(TermType::IRI) }
    }
}

/// A parameter of a function execution with the value bound to it.
#[derive(Debug, PartialEq)]
pub struct Input {
    pub parameter_map: ParameterMap,
    pub input_value_map: InputValueMap,
}

impl Input {
    pub fn new(parameter_map: ParameterMap, input_value_map: InputValueMap) -> (r: Self)
        ensures
            r.parameter_map == parameter_map,
            r.input_value_map == input_value_map,
    {
        Input { parameter_map, input_value_map }
    }
}

/// What a function returned: named result fields, and the value to use when
/// the wanted field is missing.
pub struct Return {
    pub returns: StringHashMap<String>,
    pub default_value: Option<String>,
}

impl Return {
    pub fn new(default_value: Option<String>) -> (r: Self)
        ensures
            r.returns@ == Map::<Seq<char>, String>::empty(),
            r.default_value == default_value,
    {
        Return { returns: StringHashMap::new(), default_value }
    }

    pub fn get(&self, key: &str) -> (r: Option<&String>)
        ensures
            match r {
                Some(v) => self.returns@.contains_key(key@) && *v == self.returns@[key@],
                None => !self.returns@.contains_key(key@),
            },
    {
        self.returns.get(key)
    }

    /// Sets field `key` to `value`, and returns what it held before.
    pub fn put(&mut self, key: String, value: String) -> (r: Option<String>)
        ensures
            final(self).returns@ == old(self).returns@.insert(key@, value),
            final(self).default_value == old(self).default_value,
            r == (if old(self).returns@.contains_key(key@) {
                Some(old(self).returns@[key@])
            } else {
                None
            }),
    {
        let previous = match self.returns.get(key.as_str()) {
            Some(v) => Some(v.clone()),
            None => None,
        };
        self.returns.insert(key, value);
        previous
    }

    pub fn get_default_value(&self) -> (r: Option<&String>)
        ensures
            match r {
                Some(v) => self.default_value == Some(*v),
                None => self.default_value is None,
            },
    {
        self.default_value.as_ref()
    }
}

/// A function known to a registry.
#[derive(Debug, PartialEq)]
pub struct RMLFunction {
    pub uri: String,
    pub description: Option<String>,
}

} // verus!

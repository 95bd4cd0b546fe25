use vstd::prelude::*;

use crate::evaluate::opt_view;
use crate::iri::{absolute_iri, is_absolute_iri, resolve_iri, resolved_iri};
use crate::vocab::{TermType, R2RML_IRI};

verus! {

/// An RDF term. A blank node is identified by the triples map it belongs to
/// (`scope`) and the value it was made from (`key`), so the same value in
/// the same triples map always gives the same node.
#[derive(Debug, Clone, PartialEq, Eq)]
pub enum Term {
    NamedNode(String),
    BlankNode { scope: String, key: String },
    Literal { value: String, datatype: Option<String>, language: Option<String> },
}

/// The mathematical form of a term.
pub enum TermV {
    Named(Seq<char>),
    Blank(Seq<char>, Seq<char>),
    Lit(Seq<char>, Option<Seq<char>>, Option<Seq<char>>),
}

impl View for Term {
    type V = TermV;

    open spec fn view(&self) -> TermV {
        match self {
            Term::NamedNode(s) => TermV::Named(s@),
            Term::BlankNode { scope, key } => TermV::Blank(scope@, key@),
            Term::Literal { value, datatype, language } => TermV::Lit(
                value@,
                opt_view(*datatype),
                opt_view(*language),
            ),
        }
    }
}

pub open spec fn opt_term_view(t: Option<Term>) -> Option<TermV> {
    match t {
        Some(x) => Some(x@),
        None => None,
    }
}

fn copy_opt(o: &Option<String>) -> (r: Option<String>)
    ensures
        r == *o,
{
    match o {
        Some(s) => Some(s.clone()),
        None => None,
    }
}

/// A copy of `t`.
pub fn copy_term(t: &Term) -> (r: Term)
    ensures
        r == *t,
{
    match t {
        Term::NamedNode(s) => Term::NamedNode(s.clone()),
        Term::BlankNode { scope, key } => Term::BlankNode { scope: scope.clone(), key: key.clone() },
        Term::Literal { value, datatype, language } => Term::Literal {
            value: value.clone(),
            datatype: copy_opt(datatype),
            language: copy_opt(language),
        },
    }
}

/// The IRI a value stands for: itself when absolute, else its resolution
/// against the base IRI; none when neither gives a valid IRI.
pub open spec fn iri_spec(v: Seq<char>, base: Option<Seq<char>>) -> Option<TermV> {
    if absolute_iri(v) {
        Some(TermV::Named(v))
    } else {
        match base {
            Some(b) => match resolved_iri(b, v) {
                Some(x) => Some(TermV::Named(x)),
                None => None,
            },
            None => None,
        }
    }
}

/// The term a value becomes under a term type; both the RML and the
/// R2RML IRI term types make IRIs. A literal with a datatype
/// carries no language tag. An unknown term type gives no term.
pub open spec fn materialize_spec(
    v: Seq<char>,
    term_type: Seq<char>,
    datatype: Option<Seq<char>>,
    language: Option<Seq<char>>,
    scope: Seq<char>,
    base: Option<Seq<char>>,
) -> Option<TermV> {
    if term_type == TermType::IRI@ || term_type == R2RML_IRI@ {
        iri_spec(v, base)
    } else if term_type == TermType::BLANK_NODE@ {
        Some(TermV::Blank(scope, v))
    } else if term_type == TermType::LITERAL@ {
        Some(
            TermV::Lit(
                v,
                datatype,
                if datatype is Some {
                    None
                } else {
                    language
                },
            ),
        )
    } else {
        None
    }
}

/// Turns an evaluated value into a term of the given term type.
pub fn materialize(
    value: &String,
    term_type: &String,
    datatype: Option<String>,
    language: Option<String>,
    scope: &String,
    base: &Option<String>,
) -> (r: Option<Term>)
    ensures
        opt_term_view(r) == materialize_spec(
            value@,
            term_type@,
            opt_view(datatype),
            opt_view(language),
            scope@,
            opt_view(*base),
        ),
{
    if *term_type == String::from_str(TermType::IRI) || *term_type == String::from_str(R2RML_IRI) {
        if is_absolute_iri(value.as_str()) {
            Some(Term::NamedNode(value.clone()))
        } else {
            match base {
                Some(b) => match resolve_iri(b.as_str(), value.as_str()) {
                    Some(x) => Some(Term::NamedNode(x)),
                    None => None,
                },
                None => None,
            }
        }
    } else if *term_type == String::from_str(TermType::BLANK_NODE) {
        Some(Term::BlankNode { scope: scope.clone(), key: value.clone() })
    } else if *term_type == String::from_str(TermType::LITERAL) {
        let language = match &datatype {
            Some(_) => None,
            None => language,
        };
        Some(Term::Literal { value: value.clone(), datatype, language })
    } else {
        None
    }
}

/// Blank nodes are stable: under one triples map, two values give the same
/// blank node exactly when they are the same value.
pub proof fn lemma_blank_node_identity(
    v1: Seq<char>,
    v2: Seq<char>,
    dt: Option<Seq<char>>,
    lang: Option<Seq<char>>,
    scope: Seq<char>,
    base: Option<Seq<char>>,
)
    ensures
        materialize_spec(v1, TermType::BLANK_NODE@, dt, lang, scope, base) is Some,
        (materialize_spec(v1, TermType::BLANK_NODE@, dt, lang, scope, base) == materialize_spec(
            v2,
            TermType::BLANK_NODE@,
            dt,
            lang,
            scope,
            base,
        )) <==> v1 == v2,
{
    reveal_strlit("http://w3id.org/rml/IRI");
    reveal_strlit("http://w3id.org/rml/BlankNode");
    reveal_strlit("http://www.w3.org/ns/r2rml#IRI");
    assert(TermType::BLANK_NODE@[20] != TermType::IRI@[20]);
    assert(TermType::BLANK_NODE@[8] != R2RML_IRI@[8]);
}

} // verus!

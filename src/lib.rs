//! An execution engine for RML mappings: it evaluates term maps against
//! source records, materializes RDF terms, resolves joins between triples
//! maps and assembles the resulting quads.

pub mod model;
pub mod ordering;
pub mod process;
pub mod processor;
pub mod record;
pub mod cli;
pub mod evaluate;
pub mod generate;
pub mod iri;
pub mod join;
pub mod term;
pub mod vocab;

use vstd::prelude::*;

use crate::evaluate::opt_view;

verus! {

/// Whether `s` is an absolute IRI, by the grammar of RFC 3987.
pub uninterp spec fn absolute_iri(s: Seq<char>) -> bool;

/// `rel` resolved against the absolute IRI `base` by RFC 3986, when both
/// parse and the result is a valid IRI.
pub uninterp spec fn resolved_iri(base: Seq<char>, rel: Seq<char>) -> Option<Seq<char>>;

/// Relies on `oxiri::Iri::parse`: it succeeds exactly on absolute IRIs.
#[verifier::external_body]
pub(crate) fn is_absolute_iri(s: &str) -> (r: bool)
    ensures
        r == absolute_iri(s@),
{
    oxiri::Iri::parse(s).is_ok()
}

/// Relies on `oxiri::Iri::parse` (the base), `oxiri::IriRef::parse` (the
/// relative reference) and `oxiri::Iri::resolve`: RFC 3986 resolution of the
/// reference against the base, with the result validated as an IRI.
#[verifier::external_body]
pub(crate) fn resolve_iri(base: &str, rel: &str) -> (r: Option<String>)
    ensures
        opt_view(r) == resolved_iri(base@, rel@),
{
    let base = oxiri::Iri::parse(base).ok()?;
    let reference = oxiri::IriRef::parse(rel).ok()?;
    base.resolve(&reference).ok().map(|iri| iri.into_inner())
}

} // verus!

//! IRIs: what `iref` decides of a text.

use vstd::prelude::*;
use iref::Iri;
use crate::text::is_prefix;

verus! {

/// Whether `iref` reads the characters as an IRI: what `Iri::new` decides,
/// `Ok` or not.
pub uninterp spec fn is_iri(text: Seq<char>) -> bool;

/// The reference that `relative_to` of `iref` gives for the IRI `iri`
/// against the IRI `base`.
pub uninterp spec fn relative_iri(iri: Seq<char>, base: Seq<char>) -> Seq<char>;

/// `Iri::new` on the text: whether it is read as an IRI.
#[verifier::external_body]
pub(crate) fn parses_as_iri(text: &str) -> (r: bool)
    ensures
        r == is_iri(text@),
{
    Iri::new(text).is_ok()
}

/// `relative_to` on two IRIs: the first one as a reference relative to the
/// second.
#[verifier::external_body]
pub(crate) fn relative_to(iri: &str, base: &str) -> (r: String)
    requires
        is_iri(iri@),
        is_iri(base@),
    ensures
        r@ == relative_iri(iri@, base@),
{
    let iri = Iri::new(iri).unwrap();
    let base = Iri::new(base).unwrap();
    iri.relative_to(base).as_str().to_owned()
}

/// Whether the text is a blank node identifier: it starts with `_:`.
pub open spec fn is_blank(text: Seq<char>) -> bool {
    is_prefix("_:"@, text)
}

} // verus!

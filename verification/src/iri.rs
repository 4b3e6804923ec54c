//! The IRI and blank node identifier grammars, and IRI reference resolution
//! and relativization, as provided by `iri-rs` and `rdfx`.
use vstd::prelude::*;

verus! {

/// Name for whether `s` is an absolute IRI under RFC 3987, as `iri-rs`
/// decides it.
pub uninterp spec fn iri_valid(s: Seq<char>) -> bool;

/// Name for whether `s` is an IRI reference under RFC 3987, as `iri-rs`
/// decides it.
pub uninterp spec fn iri_ref_valid(s: Seq<char>) -> bool;

/// Name for whether `s` matches the `BLANK_NODE_LABEL` production, as `rdfx`
/// decides it.
pub uninterp spec fn blank_id_valid(s: Seq<char>) -> bool;

/// Name for the IRI reference that `iri-rs` resolves `reference` into
/// against `base`, when the result recomposes into a valid reference.
pub uninterp spec fn iri_resolved(reference: Seq<char>, base: Seq<char>) -> Option<Seq<char>>;

/// Name for the IRI reference `iri-rs` computes for `iri` relative to `base`.
pub uninterp spec fn iri_relative_to(iri: Seq<char>, base: Seq<char>) -> Seq<char>;

/// Checks `s` with `iri_rs::Iri::parse`.
///
/// Trusted: the result is the named validity of `s` as an absolute IRI.
#[verifier::external_body]
pub fn is_iri(s: &str) -> (b: bool)
    ensures
        b == iri_valid(s@),
{
    iri_rs::Iri::parse(s).is_ok()
}

/// Checks `s` with `iri_rs::IriRef::parse`.
///
/// Trusted: the result is the named validity of `s` as an IRI reference.
#[verifier::external_body]
pub fn is_iri_ref(s: &str) -> (b: bool)
    ensures
        b == iri_ref_valid(s@),
{
    iri_rs::IriRef::parse(s).is_ok()
}

/// Checks `s` with `rdfx::BlankId::new`.
///
/// Trusted: the result is the named validity of `s`; the source of `rdfx`
/// rejects anything shorter than three characters, not starting with `_:`
/// or ending with `.`, which the second clause states. The rest of its
/// check is not restated: it follows the blank node label grammar but for
/// the ASCII bytes that share an eight-byte block with, and come before,
/// the first non-ASCII byte, which it does not look at.
#[verifier::external_body]
pub fn is_blank_id(s: &str) -> (b: bool)
    ensures
        b == blank_id_valid(s@),
        b ==> s@.len() >= 3 && s@[0] == '_' && s@[1] == ':' && s@.last() != '.',
{
    rdfx::BlankId::new(s).is_ok()
}

/// Resolves the IRI reference `reference` against the absolute IRI `base`
/// with `iri_rs::IriRef::resolved`.
///
/// Trusted: the result is the named resolution of the two arguments.
#[verifier::external_body]
pub fn resolve_reference(reference: &str, base: &str) -> (r: Option<String>)
    requires
        iri_ref_valid(reference@),
        iri_valid(base@),
    ensures
        r matches Some(s) ==> iri_resolved(reference@, base@) == Some(s@),
        r is None ==> iri_resolved(reference@, base@) is None,
{
    let base = iri_rs::Iri::parse_unchecked(base);
    match iri_rs::IriRef::parse_unchecked(reference).resolved(&base) {
        Ok(r) => Some(r.into_inner()),
        Err(_) => None,
    }
}

/// Makes the absolute IRI `iri` relative to `base` with
/// `iri_rs::Iri::relative_to`.
///
/// Trusted: the result is the named relative reference of the two arguments.
#[verifier::external_body]
pub fn relative_to(iri: &str, base: &str) -> (r: String)
    requires
        iri_valid(iri@),
        iri_valid(base@),
    ensures
        r@ == iri_relative_to(iri@, base@),
{
    let iri = iri_rs::Iri::parse_unchecked(iri);
    let base = iri_rs::Iri::parse_unchecked(base);
    iri.relative_to(&base).into_inner()
}

/// Whether `bytes` is UTF-8 text that `iri-rs` accepts as an IRI
/// reference.
pub open spec fn iri_ref_bytes_valid(bytes: Seq<u8>) -> bool {
    vstd::utf8::valid_utf8(bytes) && iri_ref_valid(vstd::utf8::decode_utf8(bytes))
}

/// Builds an IRI reference from raw bytes with
/// `iri_rs::IriRefBuf::from_vec`.
///
/// Trusted: as the source shows (a UTF-8 check, then `IriRef::parse` of the
/// decoded text), the result is present exactly when the bytes are UTF-8
/// text that is an IRI reference, and is then that text.
#[verifier::external_body]
pub fn iri_ref_from_bytes(bytes: Vec<u8>) -> (r: Option<String>)
    ensures
        r is Some <==> iri_ref_bytes_valid(bytes@),
        r matches Some(s) ==> vstd::utf8::encode_utf8(s@) == bytes@ && s@ == vstd::utf8::decode_utf8(bytes@),
{
    match iri_rs::IriRefBuf::from_vec(bytes) {
        Ok(r) => Some(r.into_inner()),
        Err(_) => None,
    }
}

/// Name for whether the absolute IRIs `a` and `b` are equal under the
/// normalizing comparison of `iri-rs`.
pub uninterp spec fn iri_equivalent(a: Seq<char>, b: Seq<char>) -> bool;

/// Compares two absolute IRIs with the `PartialEq` of `iri_rs::Iri`.
///
/// Trusted: the result is the named equivalence of the two arguments, and
/// an IRI is equal to the same text, since the comparison normalizes both
/// sides alike.
#[verifier::external_body]
pub fn iri_eq(a: &str, b: &str) -> (r: bool)
    requires
        iri_valid(a@),
        iri_valid(b@),
    ensures
        r == iri_equivalent(a@, b@),
        a@ == b@ ==> r,
{
    iri_rs::Iri::parse_unchecked(a) == iri_rs::Iri::parse_unchecked(b)
}

} // verus!

//! Warnings raised by the algorithms, and the handlers that receive them.
use vstd::prelude::*;

verus! {

/// Warning handler: receives the warnings an algorithm raises without
/// aborting.
pub trait Handler<W> {
    /// Whether this handler keeps the warnings it receives; a handler says
    /// nothing of them unless it states otherwise.
    open spec fn keeps(&self) -> bool {
        false
    }

    /// The warnings received so far, oldest first, for a handler that
    /// keeps them.
    open spec fn received(&self) -> Seq<W> {
        Seq::empty()
    }

    /// Handles a warning: a handler that keeps warnings keeps this one
    /// after those it had.
    fn handle(&mut self, warning: W)
        ensures
            old(self).keeps() ==> final(self).keeps() && final(self).received() == old(self).received().push(warning),
    ;
}

/// Warning handler that discards every warning.
pub struct Ignore;

impl<W> Handler<W> for Ignore {
    fn handle(&mut self, warning: W) {
    }
}

/// Warning handler that collects warnings into a vector rather than
/// reporting them as they are raised.
pub struct WarningBuf<W>(pub Vec<W>);

impl<W> WarningBuf<W> {
    /// Creates an empty warning buffer.
    pub fn new() -> (b: Self)
        ensures
            b.0@ == Seq::<W>::empty(),
    {
        WarningBuf(Vec::new())
    }
}

impl<W> Handler<W> for WarningBuf<W> {
    open spec fn keeps(&self) -> bool {
        true
    }

    open spec fn received(&self) -> Seq<W> {
        self.0@
    }

    fn handle(&mut self, warning: W)
        ensures
            final(self).0@ == old(self).0@.push(warning),
    {
        self.0.push(warning)
    }
}

/// Warnings that can be raised during context processing.
#[derive(Debug, Clone, PartialEq, Eq)]
pub enum Warning {
    /// A term being expanded has the shape of a keyword but is not one.
    KeywordLikeTerm(String),
    /// The `@id` or `@reverse` value of a term definition has the shape of a
    /// keyword but is not one.
    KeywordLikeValue(String),
    /// A value being expanded resolved to neither a well-formed IRI nor a
    /// blank node identifier, and is kept verbatim as an invalid identifier.
    MalformedIri(String),
}

/// Warning reporting that a value expanded to something that is not a valid
/// IRI, carrying the value as it was written.
#[derive(Debug, Clone, PartialEq, Eq)]
pub struct MalformedIri(pub String);

impl Warning {
    /// The context-processing warning for a malformed IRI.
    pub fn from_malformed(m: MalformedIri) -> (w: Warning)
        ensures
            w == Warning::MalformedIri(m.0),
    {
        Warning::MalformedIri(m.0)
    }
}

/// Handlers of the warnings raised during context processing.
pub trait WarningHandler: Handler<Warning> {
}

impl<H: Handler<Warning>> WarningHandler for H {
}

/// Warnings that can report a malformed IRI.
pub trait FromMalformedIri: Sized {
    /// Whether this warning reports the malformed IRI `iri`.
    spec fn reports(&self, iri: Seq<char>) -> bool;

    /// The warning reporting `m`.
    fn from_malformed_iri(m: MalformedIri) -> (w: Self)
        ensures
            w.reports(m.0@),
    ;
}

impl FromMalformedIri for MalformedIri {
    open spec fn reports(&self, iri: Seq<char>) -> bool {
        self.0@ == iri
    }

    fn from_malformed_iri(m: MalformedIri) -> (w: Self) {
        m
    }
}

impl FromMalformedIri for Warning {
    open spec fn reports(&self, iri: Seq<char>) -> bool {
        self matches Warning::MalformedIri(s) && s@ == iri
    }

    fn from_malformed_iri(m: MalformedIri) -> (w: Self) {
        Warning::from_malformed(m)
    }
}

} // verus!

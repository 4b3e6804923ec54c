//! Rewriting the identifiers that a forked vocabulary minted into the
//! identifiers the same terms received once merged into the parent.
use vstd::prelude::*;
use std::collections::HashMap;
use crate::id::{Id, ValidId};

verus! {

broadcast use vstd::std_specs::hash::group_hash_axioms;

/// Mapping from the identifiers a fork minted (indices into its
/// vocabulary table) to the identifiers the same terms received when the
/// fork was merged into its parent.
///
/// Terms the fork inherited from its parent keep their identifier and are
/// absent from the remap, so a remap holding nothing rewrites nothing.
pub struct VocabularyRemap {
    iris: HashMap<usize, usize>,
    blank_ids: HashMap<usize, usize>,
}

impl View for VocabularyRemap {
    type V = (Map<usize, usize>, Map<usize, usize>);

    /// The mapping of IRI identifiers and that of blank node
    /// identifiers.
    closed spec fn view(&self) -> (Map<usize, usize>, Map<usize, usize>) {
        (self.iris@, self.blank_ids@)
    }
}

/// The identifier that `m` rewrites `x` into: its entry, or `x` itself.
pub open spec fn remapped(m: Map<usize, usize>, x: usize) -> usize {
    if m.contains_key(x) {
        m[x]
    } else {
        x
    }
}

/// The identifier that the remap `r` rewrites `id` into.
pub open spec fn remapped_id(r: (Map<usize, usize>, Map<usize, usize>), id: Id<usize, usize>) -> Id<
    usize,
    usize,
> {
    match id {
        Id::Valid(ValidId::Iri(i)) => Id::Valid(ValidId::Iri(remapped(r.0, i))),
        Id::Valid(ValidId::Blank(b)) => Id::Valid(ValidId::Blank(remapped(r.1, b))),
        Id::Invalid(s) => Id::Invalid(s),
    }
}

impl VocabularyRemap {
    /// A remap that leaves every identifier unchanged.
    pub fn identity() -> (r: Self)
        ensures
            r@.0 == Map::<usize, usize>::empty(),
            r@.1 == Map::<usize, usize>::empty(),
    {
        VocabularyRemap { iris: HashMap::new(), blank_ids: HashMap::new() }
    }

    /// Whether this remap leaves every identifier unchanged.
    pub fn is_identity(&self) -> (b: bool)
        ensures
            b == (self@.0.is_empty() && self@.1.is_empty()),
    {
        self.iris.is_empty() && self.blank_ids.is_empty()
    }

    /// Records that the IRI identifier `minted` by a fork became `merged`
    /// in the parent.
    pub fn insert_iri(&mut self, minted: usize, merged: usize)
        ensures
            final(self)@.0 == old(self)@.0.insert(minted, merged),
            final(self)@.1 == old(self)@.1,
    {
        self.iris.insert(minted, merged);
    }

    /// Records that the blank node identifier `minted` by a fork became
    /// `merged` in the parent.
    pub fn insert_blank_id(&mut self, minted: usize, merged: usize)
        ensures
            final(self)@.0 == old(self)@.0,
            final(self)@.1 == old(self)@.1.insert(minted, merged),
    {
        self.blank_ids.insert(minted, merged);
    }

    /// Rewrites an IRI identifier produced by the fork; identifiers the
    /// fork inherited are returned unchanged.
    pub fn iri(&self, iri: usize) -> (r: usize)
        ensures
            r == remapped(self@.0, iri),
    {
        match self.iris.get(&iri) {
            Some(merged) => *merged,
            None => iri,
        }
    }

    /// Rewrites a blank node identifier produced by the fork; identifiers
    /// the fork inherited are returned unchanged.
    pub fn blank_id(&self, blank_id: usize) -> (r: usize)
        ensures
            r == remapped(self@.1, blank_id),
    {
        match self.blank_ids.get(&blank_id) {
            Some(merged) => *merged,
            None => blank_id,
        }
    }

    /// Rewrites a node identifier produced by the fork. Invalid
    /// identifiers carry their string rather than an index, so they pass
    /// through untouched.
    pub fn id(&self, id: Id<usize, usize>) -> (r: Id<usize, usize>)
        ensures
            r == remapped_id(self@, id),
    {
        match id {
            Id::Valid(ValidId::Iri(iri)) => Id::Valid(ValidId::Iri(self.iri(iri))),
            Id::Valid(ValidId::Blank(blank_id)) => Id::Valid(ValidId::Blank(self.blank_id(blank_id))),
            Id::Invalid(reference) => Id::Invalid(reference),
        }
    }
}

/// The latest record for an identifier wins: after recording that
/// `minted` became `merged`, `minted` is rewritten into `merged`, whatever
/// was recorded for it before, and every other identifier as before.
pub proof fn lemma_latest_insertion_wins(m: Map<usize, usize>, minted: usize, merged: usize, other: usize)
    ensures
        remapped(m.insert(minted, merged), minted) == merged,
        other != minted ==> remapped(m.insert(minted, merged), other) == remapped(m, other),
{
}

/// The mapping that recording each `(minted, merged)` pair of `history`
/// in turn, starting from `m`, builds.
pub open spec fn recorded(m: Map<usize, usize>, history: Seq<(usize, usize)>) -> Map<usize, usize>
    decreases history.len(),
{
    if history.len() == 0 {
        m
    } else {
        recorded(m, history.drop_last()).insert(history.last().0, history.last().1)
    }
}

/// After a history of records, an identifier is rewritten into what its
/// latest record says, and, never recorded, as before.
pub proof fn lemma_latest_record_wins(m: Map<usize, usize>, history: Seq<(usize, usize)>, x: usize)
    ensures
        (forall|i: int| 0 <= i < history.len() ==> (#[trigger] history[i]).0 != x) ==> remapped(recorded(m, history), x) == remapped(m, x),
        forall|i: int|
            0 <= i < history.len() && (#[trigger] history[i]).0 == x && (forall|j: int| i < j < history.len() ==> history[j].0 != x)
                ==> remapped(recorded(m, history), x) == history[i].1,
    decreases history.len(),
{
    if history.len() > 0 {
        let h = history.drop_last();
        lemma_latest_record_wins(m, h, x);
        assert forall|i: int|
            0 <= i < history.len() && (#[trigger] history[i]).0 == x && (forall|j: int| i < j < history.len() ==> history[j].0 != x)
                implies remapped(recorded(m, history), x) == history[i].1 by {
            if i < history.len() - 1 {
                assert(history[history.len() - 1].0 != x);
                assert(h[i] == history[i]);
                assert forall|j: int| i < j < h.len() implies h[j].0 != x by {
                    assert(h[j] == history[j]);
                }
            }
        }
        if forall|i: int| 0 <= i < history.len() ==> (#[trigger] history[i]).0 != x {
            assert(history[history.len() - 1].0 != x);
            assert forall|i: int| 0 <= i < h.len() implies (#[trigger] h[i]).0 != x by {
                assert(h[i] == history[i]);
            }
        }
    }
}

/// The identity remap rewrites every identifier into itself.
pub proof fn lemma_identity_changes_nothing(r: (Map<usize, usize>, Map<usize, usize>), id: Id<usize, usize>)
    requires
        r.0.is_empty(),
        r.1.is_empty(),
    ensures
        remapped_id(r, id) == id,
{
}

} // verus!

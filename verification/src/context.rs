//! Active contexts: the term definitions, base IRI, vocabulary mapping and
//! defaults that expansion and compaction consult.
use vstd::prelude::*;
use crate::container::{Container, Nullable};
use crate::id::TermBuf;
use crate::syntax::{keyword_text, Direction, Keyword, ProcessingMode};
use crate::text::{chars_eq, chars_of};
use crate::value::SyntaxType;
use crate::local::{local_context_eq, local_view, opt_string_eq, LocalContext};
use crate::inverse::{term_eq, term_view, type_eq, type_view};

verus! {

broadcast use vstd::string::group_string_axioms;

/// Definition of a term other than `@type`.
#[derive(Debug)]
pub struct NormalTermDefinition {
    /// IRI mapping: what the term expands to.
    pub value: Option<TermBuf>,
    /// Whether the term may be used as the prefix of a compact IRI.
    pub prefix: bool,
    /// Whether the definition is protected.
    pub protected: bool,
    /// Whether the term denotes a reverse property.
    pub reverse_property: bool,
    /// Base URL of the context the term was defined in.
    pub base_url: Option<String>,
    /// Scoped context, as written.
    pub context: Option<Box<LocalContext>>,
    /// Container mapping.
    pub container: Container,
    /// Direction mapping, possibly explicitly `null`.
    pub direction: Option<Nullable<Direction>>,
    /// Index mapping.
    pub index: Option<String>,
    /// Language mapping, possibly explicitly `null`.
    pub language: Option<Nullable<String>>,
    /// Nest value.
    pub nest: Option<String>,
    /// Type mapping.
    pub typ: Option<SyntaxType<String>>,
}

impl NormalTermDefinition {
    /// A definition with nothing but the given IRI mapping.
    pub fn new(value: Option<TermBuf>) -> (d: Self)
        ensures
            d.value == value,
            !d.prefix,
            !d.protected,
            !d.reverse_property,
            d.container == Container::Empty,
            d.direction is None,
            d.language is None,
            d.typ is None,
            d.index is None,
            d.nest is None,
            d.base_url is None,
            d.context is None,
    {
        NormalTermDefinition {
            value,
            prefix: false,
            protected: false,
            reverse_property: false,
            base_url: None,
            context: None,
            container: Container::Empty,
            direction: None,
            index: None,
            language: None,
            nest: None,
            typ: None,
        }
    }
}

/// Views of an optional string.
pub open spec fn opt_view(s: Option<String>) -> Option<Seq<char>> {
    match s {
        Some(x) => Some(x@),
        None => None,
    }
}

/// Whether two definitions agree on everything but the `protected` flag,
/// scoped contexts being compared as written.
pub open spec fn agree_modulo_protected(a: NormalTermDefinition, b: NormalTermDefinition) -> bool {
    &&& match (a.value, b.value) {
        (Some(x), Some(y)) => term_view(x) == term_view(y),
        (None, None) => true,
        _ => false,
    }
    &&& a.prefix == b.prefix
    &&& a.reverse_property == b.reverse_property
    &&& opt_view(a.base_url) == opt_view(b.base_url)
    &&& a.container == b.container
    &&& a.direction == b.direction
    &&& opt_view(a.index) == opt_view(b.index)
    &&& match (a.language, b.language) {
        (Some(Nullable::Value(x)), Some(Nullable::Value(y))) => x@ == y@,
        (Some(Nullable::Null), Some(Nullable::Null)) => true,
        (None, None) => true,
        _ => false,
    }
    &&& opt_view(a.nest) == opt_view(b.nest)
    &&& match (a.typ, b.typ) {
        (Some(x), Some(y)) => type_view(x) == type_view(y),
        (None, None) => true,
        _ => false,
    }
    &&& match (a.context, b.context) {
        (Some(x), Some(y)) => local_view(*x) == local_view(*y),
        (None, None) => true,
        _ => false,
    }
}

/// The view of an optional term.
pub open spec fn opt_term_view(t: Option<TermBuf>) -> Option<crate::inverse::TermView> {
    match t {
        Some(x) => Some(term_view(x)),
        None => None,
    }
}

/// Whether two active contexts have the same definitions, settings and
/// contexts to revert to; definitions are compared but for the `protected`
/// flag's place in them, scoped contexts as written.
pub open spec fn same_context(a: Context, b: Context) -> bool
    decreases a,
{
    &&& a.defs().len() == b.defs().len()
    &&& forall|i: int|
        0 <= i < a.defs().len() ==> (#[trigger] a.defs()[i]).0@ == b.defs()[i].0@ && agree_modulo_protected(
            a.defs()[i].1,
            b.defs()[i].1,
        ) && a.defs()[i].1.protected == b.defs()[i].1.protected
    &&& a.type_def() == b.type_def()
    &&& a.mode() == b.mode()
    &&& opt_view(a.original_base()) == opt_view(b.original_base())
    &&& opt_view(a.base()) == opt_view(b.base())
    &&& opt_term_view(a.vocab()) == opt_term_view(b.vocab())
    &&& opt_view(a.language()) == opt_view(b.language())
    &&& a.direction() == b.direction()
    &&& match (a.previous(), b.previous()) {
        (Some(x), Some(y)) => {
            proof {
                lemma_previous_decreases(a);
            }
            same_context(x, y)
        },
        (None, None) => true,
        _ => false,
    }
}

/// The context to revert to is smaller than the context itself.
pub proof fn lemma_previous_decreases(c: Context)
    ensures
        c.previous() matches Some(p) ==> decreases_to!(c => p),
{
    if c.previous() is Some {
        assert(decreases_to!(c => c.previous_context->0));
    }
}

impl NormalTermDefinition {
    /// A copy of this definition.
    pub fn duplicate(&self) -> (d: NormalTermDefinition)
        ensures
            agree_modulo_protected(d, *self),
            d.protected == self.protected,
    {
        NormalTermDefinition {
            value: match &self.value {
                Some(t) => Some(crate::inverse::clone_term(t)),
                None => None,
            },
            prefix: self.prefix,
            protected: self.protected,
            reverse_property: self.reverse_property,
            base_url: crate::local::clone_opt_string(&self.base_url),
            context: match &self.context {
                Some(c) => Some(Box::new(crate::local::clone_local_context(&**c))),
                None => None,
            },
            container: self.container,
            direction: self.direction,
            index: crate::local::clone_opt_string(&self.index),
            language: match &self.language {
                Some(Nullable::Value(l)) => Some(Nullable::Value(l.clone())),
                Some(Nullable::Null) => Some(Nullable::Null),
                None => None,
            },
            nest: crate::local::clone_opt_string(&self.nest),
            typ: match &self.typ {
                Some(t) => Some(crate::inverse::clone_type(t)),
                None => None,
            },
        }
    }

    /// Whether the two definitions are the same but for the `protected`
    /// flag; scoped contexts are compared as written.
    pub fn same_modulo_protected(&self, other: &NormalTermDefinition) -> (r: bool)
        ensures
            r == agree_modulo_protected(*self, *other),
    {
        let values = match (&self.value, &other.value) {
            (Some(x), Some(y)) => term_eq(x, y),
            (None, None) => true,
            _ => false,
        };
        let types = match (&self.typ, &other.typ) {
            (Some(x), Some(y)) => type_eq(x, y),
            (None, None) => true,
            _ => false,
        };
        let languages = match (&self.language, &other.language) {
            (Some(Nullable::Value(x)), Some(Nullable::Value(y))) => *x == *y,
            (Some(Nullable::Null), Some(Nullable::Null)) => true,
            (None, None) => true,
            _ => false,
        };
        let contexts = match (&self.context, &other.context) {
            (Some(x), Some(y)) => local_context_eq(&**x, &**y),
            (None, None) => true,
            _ => false,
        };
        let directions = match (&self.direction, &other.direction) {
            (Some(Nullable::Value(x)), Some(Nullable::Value(y))) => *x == *y,
            (Some(Nullable::Null), Some(Nullable::Null)) => true,
            (None, None) => true,
            _ => false,
        };
        values && types && languages && contexts && directions && self.prefix == other.prefix
            && self.reverse_property == other.reverse_property && opt_string_eq(&self.base_url, &other.base_url)
            && self.container == other.container && opt_string_eq(&self.index, &other.index)
            && opt_string_eq(&self.nest, &other.nest)
    }
}

/// Definition of the `@type` keyword.
#[derive(Clone, Copy, Debug)]
pub struct TypeTermDefinition {
    /// Whether `@type` has the `@set` container.
    pub container_set: bool,
    /// Whether the definition is protected.
    pub protected: bool,
}

/// A term definition looked up by key.
pub enum TermDefinitionRef<'a> {
    /// The definition of `@type`.
    Type(&'a TypeTermDefinition),
    /// The definition of another term.
    Normal(&'a NormalTermDefinition),
}

impl<'a> TermDefinitionRef<'a> {
    /// Whether the definition is protected.
    pub fn protected(&self) -> (b: bool)
        ensures
            b == match *self {
                TermDefinitionRef::Type(t) => t.protected,
                TermDefinitionRef::Normal(d) => d.protected,
            },
    {
        match self {
            TermDefinitionRef::Type(t) => t.protected,
            TermDefinitionRef::Normal(d) => d.protected,
        }
    }

    /// The IRI mapping of the definition; `@type` maps to itself, which is
    /// reported as no mapping.
    pub fn value(&self) -> (v: Option<&'a TermBuf>)
        ensures
            match *self {
                TermDefinitionRef::Type(_) => v is None,
                TermDefinitionRef::Normal(d) => v == match d.value { Some(t) => Some(&t), None => None::<&TermBuf> },
            },
    {
        match self {
            TermDefinitionRef::Type(_) => None,
            TermDefinitionRef::Normal(d) => match &d.value {
                Some(t) => Some(t),
                None => None,
            },
        }
    }
}

/// The spelling of the `@type` keyword.
pub open spec fn type_key() -> Seq<char> {
    seq!['@', 't', 'y', 'p', 'e']
}

/// Active context.
pub struct Context {
    original_base_url: Option<String>,
    base_iri: Option<String>,
    vocabulary: Option<TermBuf>,
    default_language: Option<String>,
    default_base_direction: Option<Direction>,
    definitions: Vec<(String, NormalTermDefinition)>,
    type_definition: Option<TypeTermDefinition>,
    processing_mode: ProcessingMode,
    previous_context: Option<Box<Context>>,
}

/// Whether no two entries of `defs` share a key.
pub open spec fn keys_unique(defs: Seq<(String, NormalTermDefinition)>) -> bool {
    forall|i: int, j: int| 0 <= i < defs.len() && 0 <= j < defs.len() && i != j ==> defs[i].0@ != defs[j].0@
}

/// Whether two optional definitions are both absent, or agree but for
/// protection and have the same protection.
pub open spec fn same_definition(a: Option<NormalTermDefinition>, b: Option<NormalTermDefinition>) -> bool {
    match (a, b) {
        (Some(x), Some(y)) => agree_modulo_protected(x, y) && x.protected == y.protected,
        (None, None) => true,
        _ => false,
    }
}

/// A copy of a context with uniquely keyed definitions gives every term
/// the same definition.
pub proof fn lemma_same_context_lookup(a: Context, b: Context, k: Seq<char>)
    requires
        same_context(a, b),
        keys_unique(b.defs()),
    ensures
        same_definition(a.lookup(k), b.lookup(k)),
{
    if exists|i: int| 0 <= i < b.defs().len() && b.defs()[i].0@ == k {
        let ib = choose|i: int| 0 <= i < b.defs().len() && b.defs()[i].0@ == k;
        assert(a.defs()[ib].0@ == k);
        let ia = index_of(a.defs(), k).unwrap();
        assert(b.defs()[ia].0@ == k);
        assert(ia == ib);
    } else {
        if exists|i: int| 0 <= i < a.defs().len() && a.defs()[i].0@ == k {
            let ia = choose|i: int| 0 <= i < a.defs().len() && a.defs()[i].0@ == k;
            assert(b.defs()[ia].0@ == k);
        }
    }
}

/// Index of the entry of `defs` with the given key, if any.
pub open spec fn index_of(defs: Seq<(String, NormalTermDefinition)>, key: Seq<char>) -> Option<int> {
    if exists|i: int| 0 <= i < defs.len() && defs[i].0@ == key {
        Some(choose|i: int| 0 <= i < defs.len() && defs[i].0@ == key)
    } else {
        None
    }
}

impl Context {
    #[verifier::type_invariant]
    spec fn inv(self) -> bool {
        keys_unique(self.definitions@)
    }

    /// The term definitions other than `@type`, in definition order.
    pub closed spec fn defs(self) -> Seq<(String, NormalTermDefinition)> {
        self.definitions@
    }

    /// The normal definition of `key`, if any.
    pub open spec fn lookup(self, key: Seq<char>) -> Option<NormalTermDefinition> {
        match index_of(self.defs(), key) {
            Some(i) => Some(self.defs()[i].1),
            None => None,
        }
    }

    /// The `@type` definition, if any.
    pub closed spec fn type_def(self) -> Option<TypeTermDefinition> {
        self.type_definition
    }

    /// The base IRI.
    pub closed spec fn base(self) -> Option<String> {
        self.base_iri
    }

    /// The original base URL.
    pub closed spec fn original_base(self) -> Option<String> {
        self.original_base_url
    }

    /// The vocabulary mapping.
    pub closed spec fn vocab(self) -> Option<TermBuf> {
        self.vocabulary
    }

    /// The default language.
    pub closed spec fn language(self) -> Option<String> {
        self.default_language
    }

    /// The default base direction.
    pub closed spec fn direction(self) -> Option<Direction> {
        self.default_base_direction
    }

    /// Whether a context to revert to is recorded.
    pub closed spec fn has_previous(self) -> bool {
        self.previous_context is Some
    }

    /// The context to revert to, if any.
    pub closed spec fn previous(self) -> Option<Context> {
        match self.previous_context {
            Some(p) => Some(*p),
            None => None,
        }
    }

    /// The processing mode.
    pub closed spec fn mode(self) -> ProcessingMode {
        self.processing_mode
    }

    /// Returns the number of normal term definitions; they are keyed
    /// uniquely.
    pub fn len(&self) -> (n: usize)
        ensures
            n == self.defs().len(),
            keys_unique(self.defs()),
    {
        proof { use_type_invariant(self); }
        self.definitions.len()
    }

    /// Checks whether no normal term is defined.
    pub fn is_empty(&self) -> (b: bool)
        ensures
            b == (self.defs().len() == 0),
    {
        self.definitions.len() == 0
    }

    /// The `i`-th normal definition, in definition order.
    pub fn definition_at(&self, i: usize) -> (r: (&String, &NormalTermDefinition))
        requires
            i < self.defs().len(),
        ensures
            *r.0 == self.defs()[i as int].0,
            *r.1 == self.defs()[i as int].1,
    {
        (&self.definitions[i].0, &self.definitions[i].1)
    }

    /// Create a new context with the given base IRI.
    pub fn new(base_iri: Option<String>) -> (c: Self)
        ensures
            c.defs().len() == 0,
            c.type_def() is None,
            c.base() == base_iri,
            c.original_base() == base_iri,
            c.vocab() is None,
            c.language() is None,
            c.direction() is None,
            c.mode() == ProcessingMode::JsonLd1_1,
    {
        Context {
            original_base_url: base_iri.clone(),
            base_iri,
            vocabulary: None,
            default_language: None,
            default_base_direction: None,
            definitions: Vec::new(),
            type_definition: None,
            processing_mode: ProcessingMode::JsonLd1_1,
            previous_context: None,
        }
    }

    /// Position of the normal definition of `key`.
    fn position(&self, key: &[char]) -> (r: Option<usize>)
        ensures
            r matches Some(i) ==> index_of(self.defs(), key@) == Some(i as int) && i < self.defs().len(),
            r is None ==> index_of(self.defs(), key@) is None,
    {
        proof { use_type_invariant(self); }
        let mut i: usize = 0;
        while i < self.definitions.len()
            invariant
                i <= self.definitions@.len(),
                keys_unique(self.definitions@),
                forall|j: int| 0 <= j < i ==> self.definitions@[j].0@ != key@,
            decreases self.definitions@.len() - i,
        {
            let k = chars_of(self.definitions[i].0.as_str());
            if chars_eq(k.as_slice(), key) {
                proof {
                    let j = choose|j: int| 0 <= j < self.definitions@.len() && self.definitions@[j].0@ == key@;
                    assert(j == i);
                }
                return Some(i);
            }
            i = i + 1;
        }
        None
    }

    /// Returns a reference to the normal definition of `term`, if any.
    pub fn get_normal(&self, term: &[char]) -> (r: Option<&NormalTermDefinition>)
        ensures
            match self.lookup(term@) {
                Some(d) => r == Some(&d),
                None => r is None,
            },
    {
        match self.position(term) {
            Some(i) => Some(&self.definitions[i].1),
            None => None,
        }
    }

    /// Returns a reference to the definition of `term`, if any: the `@type`
    /// definition for `@type`, the normal definition otherwise.
    pub fn get(&self, term: &[char]) -> (r: Option<TermDefinitionRef<'_>>)
        ensures
            term@ == type_key() ==> match self.type_def() {
                Some(t) => r matches Some(TermDefinitionRef::Type(u)) && *u == t,
                None => r is None,
            },
            term@ != type_key() ==> match self.lookup(term@) {
                Some(d) => r matches Some(TermDefinitionRef::Normal(e)) && *e == d,
                None => r is None,
            },
    {
        let type_key_chars = chars_of("@type");
        proof {
            reveal_strlit("@type");
            assert(type_key_chars@ =~= type_key());
        }
        if chars_eq(term, type_key_chars.as_slice()) {
            match &self.type_definition {
                Some(t) => Some(TermDefinitionRef::Type(t)),
                None => None,
            }
        } else {
            match self.get_normal(term) {
                Some(d) => Some(TermDefinitionRef::Normal(d)),
                None => None,
            }
        }
    }

    /// Checks whether `term` is defined.
    pub fn contains_term(&self, term: &[char]) -> (b: bool)
        ensures
            b == (if term@ == type_key() { self.type_def() is Some } else { self.lookup(term@) is Some }),
    {
        self.get(term).is_some()
    }

    /// Sets the normal definition of `key`, or removes it with `None`.
    /// Returns the definition it replaced.
    pub fn set_normal(&mut self, key: String, definition: Option<NormalTermDefinition>) -> (old_def: Option<NormalTermDefinition>)
        ensures
            old_def == old(self).lookup(key@),
            final(self).lookup(key@) == definition,
            forall|k: Seq<char>| k != key@ ==> final(self).lookup(k) == old(self).lookup(k),
            final(self).type_def() == old(self).type_def(),
            final(self).base() == old(self).base(),
            final(self).original_base() == old(self).original_base(),
            final(self).vocab() == old(self).vocab(),
            final(self).language() == old(self).language(),
            final(self).direction() == old(self).direction(),
            final(self).mode() == old(self).mode(),
    {
        proof { use_type_invariant(&*self); }
        let key_chars = chars_of(key.as_str());
        let pos = self.position(key_chars.as_slice());
        let ghost before = self.definitions@;
        match pos {
            Some(i) => {
                match definition {
                    Some(d) => {
                        let mut defs: Vec<(String, NormalTermDefinition)> = Vec::new();
                        std::mem::swap(&mut defs, &mut self.definitions);
                        let mut entry = (key, d);
                        std::mem::swap(&mut defs[i], &mut entry);
                        let (_, previous) = entry;
                        proof {
                            assert(keys_unique(defs@));
                            assert forall|k: Seq<char>| #![auto] index_of(defs@, k) == (if k == key@ { Some(i as int) } else { index_of(before, k) }) by {
                                if k == key@ {
                                    let j = choose|j: int| 0 <= j < defs@.len() && defs@[j].0@ == k;
                                    assert(j == i);
                                } else if exists|j: int| 0 <= j < before.len() && before[j].0@ == k {
                                    let j = choose|j: int| 0 <= j < before.len() && before[j].0@ == k;
                                    assert(defs@[j].0@ == k);
                                    let j2 = choose|j2: int| 0 <= j2 < defs@.len() && defs@[j2].0@ == k;
                                    assert(j2 == j);
                                } else {
                                    assert forall|j: int| 0 <= j < defs@.len() implies defs@[j].0@ != k by {
                                        if j != i { assert(before[j].0@ != k); }
                                    }
                                }
                            }
                        }
                        self.definitions = defs;
                        Some(previous)
                    },
                    None => {
                        let mut defs: Vec<(String, NormalTermDefinition)> = Vec::new();
                        std::mem::swap(&mut defs, &mut self.definitions);
                        let (_, previous) = defs.remove(i);
                        proof {
                            assert(keys_unique(defs@)) by {
                                assert forall|a: int, b: int| 0 <= a < defs@.len() && 0 <= b < defs@.len() && a != b implies defs@[a].0@ != defs@[b].0@ by {
                                    let a2 = if a < i { a } else { a + 1 };
                                    let b2 = if b < i { b } else { b + 1 };
                                    assert(defs@[a] == before[a2]);
                                    assert(defs@[b] == before[b2]);
                                }
                            }
                            assert forall|k: Seq<char>| #![auto] index_of(defs@, k) is Some <==> (k != key@ && index_of(before, k) is Some) by {
                                if exists|j: int| 0 <= j < defs@.len() && defs@[j].0@ == k {
                                    let j = choose|j: int| 0 <= j < defs@.len() && defs@[j].0@ == k;
                                    let j2 = if j < i { j } else { j + 1 };
                                    assert(before[j2].0@ == k);
                                    assert(j2 != i);
                                }
                                if k != key@ && index_of(before, k) is Some {
                                    let j = choose|j: int| 0 <= j < before.len() && before[j].0@ == k;
                                    assert(j != i);
                                    let j2 = if j < i { j } else { j - 1 };
                                    assert(defs@[j2].0@ == k);
                                }
                            }
                            assert forall|k: Seq<char>| #![auto] index_of(defs@, k) is Some ==> defs@[index_of(defs@, k).unwrap()].1 == before[index_of(before, k).unwrap()].1 by {
                                if index_of(defs@, k) is Some {
                                    let j = index_of(defs@, k).unwrap();
                                    let j2 = if j < i { j } else { j + 1 };
                                    assert(before[j2].0@ == k);
                                    let j3 = index_of(before, k).unwrap();
                                    assert(j3 == j2);
                                }
                            }
                        }
                        self.definitions = defs;
                        Some(previous)
                    },
                }
            },
            None => {
                match definition {
                    Some(d) => {
                        let mut defs: Vec<(String, NormalTermDefinition)> = Vec::new();
                        std::mem::swap(&mut defs, &mut self.definitions);
                        let ghost key_view = key@;
                        defs.push((key, d));
                        proof {
                            assert(defs@[before.len() as int].0@ == key_view);
                            assert(forall|j: int| 0 <= j < before.len() ==> defs@[j] == before[j]);
                            assert(keys_unique(defs@));
                            assert forall|k: Seq<char>| #![auto] index_of(defs@, k) == (if k == key@ { Some(before.len() as int) } else { index_of(before, k) }) by {
                                if k == key@ {
                                    let j = choose|j: int| 0 <= j < defs@.len() && defs@[j].0@ == k;
                                    assert(j == before.len());
                                } else if exists|j: int| 0 <= j < before.len() && before[j].0@ == k {
                                    let j = choose|j: int| 0 <= j < before.len() && before[j].0@ == k;
                                    assert(defs@[j].0@ == k);
                                    let j2 = choose|j2: int| 0 <= j2 < defs@.len() && defs@[j2].0@ == k;
                                    assert(j2 == j);
                                } else {
                                    assert forall|j: int| 0 <= j < defs@.len() implies defs@[j].0@ != k by {
                                        if j < before.len() { assert(before[j].0@ != k); }
                                    }
                                }
                            }
                        }
                        self.definitions = defs;
                        None
                    },
                    None => None,
                }
            },
        }
    }
}

/// The keys of the definitions whose `prefix` flag is set, in order.
pub open spec fn prefix_keys(defs: Seq<(String, NormalTermDefinition)>) -> Seq<String>
    decreases defs.len(),
{
    if defs.len() == 0 {
        Seq::empty()
    } else if defs.last().1.prefix {
        prefix_keys(defs.drop_last()).push(defs.last().0)
    } else {
        prefix_keys(defs.drop_last())
    }
}

/// Whether some definition of the context is protected.
pub open spec fn any_protected(defs: Seq<(String, NormalTermDefinition)>, type_def: Option<TypeTermDefinition>) -> bool {
    (exists|i: int| 0 <= i < defs.len() && defs[i].1.protected)
        || (type_def matches Some(t) && t.protected)
}

impl Context {
    /// Returns the processing mode this context was processed under.
    pub fn processing_mode(&self) -> (m: ProcessingMode)
        ensures
            m == self.mode(),
    {
        self.processing_mode
    }

    /// Sets the processing mode of this context.
    pub fn set_processing_mode(&mut self, mode: ProcessingMode)
        ensures
            final(self).mode() == mode,
            final(self).defs() == old(self).defs(),
            final(self).type_def() == old(self).type_def(),
            final(self).base() == old(self).base(),
            final(self).vocab() == old(self).vocab(),
            final(self).language() == old(self).language(),
            final(self).direction() == old(self).direction(),
    {
        proof { use_type_invariant(&*self); }
        self.processing_mode = mode;
    }

    /// Returns the original base URL of the context.
    pub fn original_base_url(&self) -> (r: Option<&String>)
        ensures
            r == match self.original_base() { Some(s) => Some(&s), None => None::<&String> },
    {
        match &self.original_base_url {
            Some(s) => Some(s),
            None => None,
        }
    }

    /// Returns the base IRI of the context.
    pub fn base_iri(&self) -> (r: Option<&String>)
        ensures
            r == match self.base() { Some(s) => Some(&s), None => None::<&String> },
    {
        match &self.base_iri {
            Some(s) => Some(s),
            None => None,
        }
    }

    /// Sets the base IRI.
    pub fn set_base_iri(&mut self, iri: Option<String>)
        ensures
            final(self).base() == iri,
            final(self).defs() == old(self).defs(),
            final(self).type_def() == old(self).type_def(),
            final(self).vocab() == old(self).vocab(),
            final(self).language() == old(self).language(),
            final(self).direction() == old(self).direction(),
            final(self).mode() == old(self).mode(),
    {
        proof { use_type_invariant(&*self); }
        self.base_iri = iri;
    }

    /// Returns the `@vocab` value, if any.
    pub fn vocabulary(&self) -> (r: Option<&TermBuf>)
        ensures
            r == match self.vocab() { Some(t) => Some(&t), None => None::<&TermBuf> },
    {
        match &self.vocabulary {
            Some(t) => Some(t),
            None => None,
        }
    }

    /// Sets the `@vocab` value.
    pub fn set_vocabulary(&mut self, vocab: Option<TermBuf>)
        ensures
            final(self).vocab() == vocab,
            final(self).defs() == old(self).defs(),
            final(self).type_def() == old(self).type_def(),
            final(self).base() == old(self).base(),
            final(self).language() == old(self).language(),
            final(self).direction() == old(self).direction(),
            final(self).mode() == old(self).mode(),
    {
        proof { use_type_invariant(&*self); }
        self.vocabulary = vocab;
    }

    /// Returns the default `@language` value.
    pub fn default_language(&self) -> (r: Option<&String>)
        ensures
            r == match self.language() { Some(s) => Some(&s), None => None::<&String> },
    {
        match &self.default_language {
            Some(s) => Some(s),
            None => None,
        }
    }

    /// Sets the default `@language` value.
    pub fn set_default_language(&mut self, lang: Option<String>)
        ensures
            final(self).language() == lang,
            final(self).defs() == old(self).defs(),
            final(self).type_def() == old(self).type_def(),
            final(self).base() == old(self).base(),
            final(self).vocab() == old(self).vocab(),
            final(self).direction() == old(self).direction(),
            final(self).mode() == old(self).mode(),
    {
        proof { use_type_invariant(&*self); }
        self.default_language = lang;
    }

    /// Returns the default `@direction` value.
    pub fn default_base_direction(&self) -> (r: Option<Direction>)
        ensures
            r == self.direction(),
    {
        self.default_base_direction
    }

    /// Sets the default `@direction` value.
    pub fn set_default_base_direction(&mut self, dir: Option<Direction>)
        ensures
            final(self).direction() == dir,
            final(self).defs() == old(self).defs(),
            final(self).type_def() == old(self).type_def(),
            final(self).base() == old(self).base(),
            final(self).vocab() == old(self).vocab(),
            final(self).language() == old(self).language(),
            final(self).mode() == old(self).mode(),
    {
        proof { use_type_invariant(&*self); }
        self.default_base_direction = dir;
    }

    /// The context to revert to when leaving a node object, for a context
    /// that does not propagate.
    pub fn previous_context(&self) -> (r: Option<&Context>)
        ensures
            r is Some == self.has_previous(),
            match self.previous() {
                Some(p) => r == Some(&p),
                None => r is None,
            },
    {
        match &self.previous_context {
            Some(c) => Some(&**c),
            None => None,
        }
    }

    /// Sets the context to revert to when leaving a node object.
    pub fn set_previous_context(&mut self, previous: Context)
        ensures
            final(self).defs() == old(self).defs(),
            final(self).type_def() == old(self).type_def(),
            final(self).base() == old(self).base(),
            final(self).vocab() == old(self).vocab(),
            final(self).language() == old(self).language(),
            final(self).direction() == old(self).direction(),
            final(self).mode() == old(self).mode(),
            final(self).has_previous(),
    {
        proof { use_type_invariant(&*self); }
        self.previous_context = Some(Box::new(previous));
    }

    /// A copy of this context.
    pub fn duplicate(&self) -> (c: Context)
        ensures
            c.defs().len() == self.defs().len(),
            forall|i: int|
                0 <= i < self.defs().len() ==> (#[trigger] c.defs()[i]).0@ == self.defs()[i].0@
                    && agree_modulo_protected(c.defs()[i].1, self.defs()[i].1)
                    && c.defs()[i].1.protected == self.defs()[i].1.protected,
            c.type_def() == self.type_def(),
            c.mode() == self.mode(),
            c.direction() == self.direction(),
            opt_view(c.original_base()) == opt_view(self.original_base()),
            opt_view(c.base()) == opt_view(self.base()),
            opt_view(c.language()) == opt_view(self.language()),
            c.vocab() == self.vocab(),
            c.has_previous() == self.has_previous(),
            same_context(c, *self),
            keys_unique(self.defs()),
        decreases self,
    {
        proof { use_type_invariant(self); }
        let mut defs: Vec<(String, NormalTermDefinition)> = Vec::new();
        let mut i: usize = 0;
        while i < self.definitions.len()
            invariant
                i <= self.definitions@.len(),
                defs@.len() == i,
                keys_unique(self.definitions@),
                forall|j: int|
                    0 <= j < i ==> (#[trigger] defs@[j]).0@ == self.definitions@[j].0@
                        && agree_modulo_protected(defs@[j].1, self.definitions@[j].1)
                        && defs@[j].1.protected == self.definitions@[j].1.protected,
            decreases self.definitions@.len() - i,
        {
            let (k, d) = &self.definitions[i];
            defs.push((k.clone(), d.duplicate()));
            i = i + 1;
        }
        proof {
            assert forall|a: int, b: int| 0 <= a < defs@.len() && 0 <= b < defs@.len() && a != b implies defs@[a].0@ != defs@[b].0@ by {
                assert(defs@[a].0@ == self.definitions@[a].0@);
                assert(defs@[b].0@ == self.definitions@[b].0@);
            }
        }
        let previous_context = match &self.previous_context {
            Some(p) => {
                proof {
                    assert(decreases_to!(self => self.previous_context->0));
                }
                Some(Box::new(p.duplicate()))
            },
            None => None,
        };
        Context {
            original_base_url: crate::local::clone_opt_string(&self.original_base_url),
            base_iri: crate::local::clone_opt_string(&self.base_iri),
            vocabulary: match &self.vocabulary {
                Some(t) => Some(crate::inverse::clone_term(t)),
                None => None,
            },
            default_language: crate::local::clone_opt_string(&self.default_language),
            default_base_direction: self.default_base_direction,
            definitions: defs,
            type_definition: self.type_definition,
            processing_mode: self.processing_mode,
            previous_context,
        }
    }

    /// Returns the `@type` definition, if any.
    pub fn get_type(&self) -> (r: Option<&TypeTermDefinition>)
        ensures
            r == match self.type_def() { Some(t) => Some(&t), None => None::<&TypeTermDefinition> },
    {
        match &self.type_definition {
            Some(t) => Some(t),
            None => None,
        }
    }

    /// Sets the `@type` definition, returning the one it replaced.
    pub fn set_type(&mut self, type_: Option<TypeTermDefinition>) -> (r: Option<TypeTermDefinition>)
        ensures
            r == old(self).type_def(),
            final(self).type_def() == type_,
            final(self).defs() == old(self).defs(),
            final(self).base() == old(self).base(),
            final(self).vocab() == old(self).vocab(),
            final(self).language() == old(self).language(),
            final(self).direction() == old(self).direction(),
            final(self).mode() == old(self).mode(),
    {
        let previous = self.type_definition;
        proof { use_type_invariant(&*self); }
        self.type_definition = type_;
        previous
    }

    /// Checks if the context has a protected definition.
    pub fn has_protected_items(&self) -> (b: bool)
        ensures
            b == any_protected(self.defs(), self.type_def()),
    {
        let mut i: usize = 0;
        while i < self.definitions.len()
            invariant
                i <= self.definitions@.len(),
                forall|j: int| 0 <= j < i ==> !self.definitions@[j].1.protected,
            decreases self.definitions@.len() - i,
        {
            if self.definitions[i].1.protected {
                return true;
            }
            i = i + 1;
        }
        match &self.type_definition {
            Some(t) => t.protected,
            None => false,
        }
    }

    /// Returns the keys of the term definitions whose `prefix` flag is set,
    /// in definition order.
    pub fn prefix_term_keys(&self) -> (keys: Vec<String>)
        ensures
            keys@ == prefix_keys(self.defs()),
    {
        let mut keys: Vec<String> = Vec::new();
        let mut i: usize = 0;
        while i < self.definitions.len()
            invariant
                i <= self.definitions@.len(),
                keys@ == prefix_keys(self.definitions@.subrange(0, i as int)),
            decreases self.definitions@.len() - i,
        {
            proof {
                let s = self.definitions@.subrange(0, i + 1);
                assert(s.drop_last() =~= self.definitions@.subrange(0, i as int));
            }
            if self.definitions[i].1.prefix {
                keys.push(self.definitions[i].0.clone());
            }
            i = i + 1;
        }
        proof {
            assert(self.definitions@.subrange(0, self.definitions@.len() as int) =~= self.definitions@);
        }
        keys
    }
}

/// Error returned when a context vocabulary is set to an invalid value.
#[derive(Debug, Clone, Copy, PartialEq, Eq, Structural)]
pub enum InvalidVocab {
    /// The vocabulary is a JSON-LD keyword.
    Keyword,
}

/// Error returned when a context key cannot be expressed in syntax form.
#[derive(Debug, Clone, Copy, PartialEq, Eq, Structural)]
pub struct InvalidContextKey;

/// Error of the conversions of a context back into syntax form.
#[derive(Debug, Clone, Copy, PartialEq, Eq, Structural)]
pub enum InvalidContextError {
    /// The `@vocab` entry is invalid.
    InvalidVocab(InvalidVocab),
    /// A context key is invalid.
    InvalidContextKey(InvalidContextKey),
}

/// Borrowed form of the compact-IRI cache key `(var, vocab, reverse)`.
pub struct CompactIriKeyRef<'a>(pub &'a TermBuf, pub bool, pub bool);

/// The keywords whose aliases are cached, in cache order.
pub open spec fn cached_keywords() -> Seq<Keyword> {
    seq![
        Keyword::Id,
        Keyword::Type,
        Keyword::Value,
        Keyword::List,
        Keyword::AtSet,
        Keyword::Graph,
        Keyword::Index,
        Keyword::Language,
        Keyword::Direction,
        Keyword::Reverse,
        Keyword::AtNone,
        Keyword::Included,
        Keyword::Json,
    ]
}

/// The place of `k` in the alias cache, if it has one.
pub open spec fn alias_index(k: Keyword) -> Option<int> {
    if cached_keywords().contains(k) {
        Some(cached_keywords().index_of(k))
    } else {
        None
    }
}

/// The place of `k` in the alias cache, if it has one.
pub(crate) fn keyword_alias_index(k: Keyword) -> (r: Option<usize>)
    ensures
        match r {
            Some(i) => alias_index(k) == Some(i as int),
            None => alias_index(k) is None,
        },
{
    let ghost ks = cached_keywords();
    let r: Option<usize> = match k {
        Keyword::Id => Some(0),
        Keyword::Type => Some(1),
        Keyword::Value => Some(2),
        Keyword::List => Some(3),
        Keyword::AtSet => Some(4),
        Keyword::Graph => Some(5),
        Keyword::Index => Some(6),
        Keyword::Language => Some(7),
        Keyword::Direction => Some(8),
        Keyword::Reverse => Some(9),
        Keyword::AtNone => Some(10),
        Keyword::Included => Some(11),
        Keyword::Json => Some(12),
        _ => None,
    };
    proof {
        match r {
            Some(i) => {
                assert(ks[i as int] == k);
                assert(ks.contains(k));
                assert forall|j: int| 0 <= j < ks.len() && ks[j] == k implies j == i by {}
                ks.index_of_first_ensures(k);
            },
            None => {
                assert forall|j: int| 0 <= j < ks.len() implies ks[j] != k by {}
            },
        }
    }
    r
}

/// The aliases of the most used keywords in an active context, computed
/// once: one per keyword of [`cached_keywords`], in that order.
pub struct KeywordAliases {
    aliases: Vec<String>,
}

impl View for KeywordAliases {
    type V = Seq<Seq<char>>;

    closed spec fn view(&self) -> Seq<Seq<char>> {
        self.aliases@.map_values(|a: String| a@)
    }
}

impl KeywordAliases {
    /// There is one alias per cached keyword.
    #[verifier::type_invariant]
    closed spec fn one_per_keyword(self) -> bool {
        self.aliases@.len() == 13
    }

    /// Builds the cache from the aliases of the cached keywords, in order.
    pub fn new(aliases: [String; 13]) -> (a: Self)
        ensures
            a@ == aliases@.map_values(|s: String| s@),
    {
        let mut v: Vec<String> = Vec::new();
        let mut i: usize = 0;
        while i < 13
            invariant
                i <= 13,
                v@.len() == i,
                forall|k: int| 0 <= k < i ==> (#[trigger] v@[k])@ == aliases@[k]@,
            decreases 13 - i,
        {
            v.push(aliases[i].clone());
            i = i + 1;
        }
        let a = KeywordAliases { aliases: v };
        proof {
            assert(a@ =~= aliases@.map_values(|s: String| s@));
        }
        a
    }

    /// The alias of `k`: the cached one for a cached keyword, the keyword
    /// itself for any other.
    pub fn get(&self, k: Keyword) -> (s: &str)
        ensures
            s@ == match alias_index(k) {
                Some(i) => self@[i],
                None => keyword_text(k),
            },
    {
        proof {
            use_type_invariant(self);
        }
        match keyword_alias_index(k) {
            Some(i) => self.aliases[i].as_str(),
            None => k.into_str(),
        }
    }
}

} // verus!

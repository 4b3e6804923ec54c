//! Local contexts as written in a document: the input of context
//! processing.
use vstd::prelude::*;
use crate::container::{ContainerKind, ContainerSyntax, Nullable};
use crate::syntax::Direction;
use crate::text::{chars_eq, chars_of};

verus! {

broadcast use vstd::string::group_string_axioms;

/// A local context: one entry, or an array of them processed in order.
#[derive(Debug)]
pub enum LocalContext {
    /// A single entry.
    One(ContextEntry),
    /// An array of entries.
    Many(Vec<ContextEntry>),
}

/// One entry of a local context.
#[derive(Debug)]
pub enum ContextEntry {
    /// `null`: resets the active context.
    Null,
    /// The IRI reference of a remote context.
    IriRef(String),
    /// A context definition object.
    Definition(ContextDefinition),
}

/// The `@type` entry of a context definition.
#[derive(Clone, Copy, Debug)]
pub struct TypeEntry {
    /// Whether `@container` is `@set`.
    pub container_set: bool,
    /// The `@protected` value, if any.
    pub protected: Option<bool>,
}

/// A context definition object.
#[derive(Debug)]
pub struct ContextDefinition {
    /// `@base`, possibly `null`.
    pub base: Option<Nullable<String>>,
    /// `@import`.
    pub import: Option<String>,
    /// `@language`, possibly `null`.
    pub language: Option<Nullable<String>>,
    /// `@direction`, possibly `null`.
    pub direction: Option<Nullable<Direction>>,
    /// `@propagate`.
    pub propagate: Option<bool>,
    /// `@protected`.
    pub protected: Option<bool>,
    /// `@type`.
    pub type_: Option<TypeEntry>,
    /// Whether `@version` is present (its only value is 1.1).
    pub version: bool,
    /// `@vocab`, possibly `null`.
    pub vocab: Option<Nullable<String>>,
    /// The term definitions, in document order, each possibly `null`.
    pub bindings: Vec<(String, Nullable<TermDefinitionSyntax>)>,
}

/// A term definition as written: an IRI string or an object.
#[derive(Debug)]
pub enum TermDefinitionSyntax {
    /// A string: the term's `@id`.
    Simple(String),
    /// An expanded term definition object.
    Expanded(Box<ExpandedDefinition>),
}

/// An expanded term definition object.
#[derive(Debug)]
pub struct ExpandedDefinition {
    /// `@id`, possibly `null`.
    pub id: Option<Nullable<String>>,
    /// `@type`, possibly `null`.
    pub type_: Option<Nullable<String>>,
    /// `@context`: a scoped context.
    pub context: Option<Box<LocalContext>>,
    /// `@reverse`.
    pub reverse: Option<String>,
    /// `@index`.
    pub index: Option<String>,
    /// `@language`, possibly `null`.
    pub language: Option<Nullable<String>>,
    /// `@direction`, possibly `null`.
    pub direction: Option<Nullable<Direction>>,
    /// `@container`, possibly `null`.
    pub container: Option<Nullable<ContainerSyntax>>,
    /// `@nest`.
    pub nest: Option<String>,
    /// `@prefix`.
    pub prefix: Option<bool>,
    /// `@propagate`.
    pub propagate: Option<bool>,
    /// `@protected`.
    pub protected: Option<bool>,
}

/// The view of a local context: what is written, with strings as
/// character sequences.
pub enum LocalView {
    /// A single entry.
    One(EntryView),
    /// Several entries.
    Many(Seq<EntryView>),
}

/// The view of a context entry.
pub enum EntryView {
    /// `null`.
    Null,
    /// A remote context reference.
    IriRef(Seq<char>),
    /// A context definition.
    Definition(DefinitionView),
}

/// The view of a context definition.
pub struct DefinitionView {
    /// `@base`.
    pub base: Option<Nullable<Seq<char>>>,
    /// `@import`.
    pub import: Option<Seq<char>>,
    /// `@language`.
    pub language: Option<Nullable<Seq<char>>>,
    /// `@direction`.
    pub direction: Option<Nullable<Direction>>,
    /// `@propagate`.
    pub propagate: Option<bool>,
    /// `@protected`.
    pub protected: Option<bool>,
    /// `@type`.
    pub type_: Option<TypeEntry>,
    /// `@version`.
    pub version: bool,
    /// `@vocab`.
    pub vocab: Option<Nullable<Seq<char>>>,
    /// The term definitions.
    pub bindings: Seq<(Seq<char>, Nullable<SyntaxView>)>,
}

/// The view of a term definition as written.
pub enum SyntaxView {
    /// A string.
    Simple(Seq<char>),
    /// An expanded term definition.
    Expanded(ExpandedView),
}

/// The view of a `@container` entry.
pub enum ContainerView {
    /// One keyword.
    One(ContainerKind),
    /// Several keywords.
    Many(Seq<ContainerKind>),
}

/// The view of an expanded term definition.
pub struct ExpandedView {
    /// `@id`.
    pub id: Option<Nullable<Seq<char>>>,
    /// `@type`.
    pub type_: Option<Nullable<Seq<char>>>,
    /// `@context`.
    pub context: Option<Box<LocalView>>,
    /// `@reverse`.
    pub reverse: Option<Seq<char>>,
    /// `@index`.
    pub index: Option<Seq<char>>,
    /// `@language`.
    pub language: Option<Nullable<Seq<char>>>,
    /// `@direction`.
    pub direction: Option<Nullable<Direction>>,
    /// `@container`.
    pub container: Option<Nullable<ContainerView>>,
    /// `@nest`.
    pub nest: Option<Seq<char>>,
    /// `@prefix`.
    pub prefix: Option<bool>,
    /// `@propagate`.
    pub propagate: Option<bool>,
    /// `@protected`.
    pub protected: Option<bool>,
}

/// Views of an optional string.
pub open spec fn str_opt_view(s: Option<String>) -> Option<Seq<char>> {
    match s {
        Some(x) => Some(x@),
        None => None,
    }
}

/// Views of an optional, possibly `null`, string.
pub open spec fn nullable_str_opt_view(s: Option<Nullable<String>>) -> Option<Nullable<Seq<char>>> {
    match s {
        Some(Nullable::Value(x)) => Some(Nullable::Value(x@)),
        Some(Nullable::Null) => Some(Nullable::Null),
        None => None,
    }
}

/// The view of a `@container` entry.
pub open spec fn container_view(c: ContainerSyntax) -> ContainerView {
    match c {
        ContainerSyntax::One(k) => ContainerView::One(k),
        ContainerSyntax::Many(v) => ContainerView::Many(v@),
    }
}

/// The view of a local context.
pub open spec fn local_view(c: LocalContext) -> LocalView
    decreases c,
{
    match c {
        LocalContext::One(e) => LocalView::One(entry_view(e)),
        LocalContext::Many(v) => LocalView::Many(entry_seq_view(v@)),
    }
}

/// The views of a sequence of context entries.
pub open spec fn entry_seq_view(s: Seq<ContextEntry>) -> Seq<EntryView>
    decreases s,
{
    if s.len() == 0 {
        Seq::empty()
    } else {
        entry_seq_view(s.subrange(0, s.len() - 1)).push(entry_view(s[s.len() - 1]))
    }
}

/// The view of a context entry.
pub open spec fn entry_view(e: ContextEntry) -> EntryView
    decreases e,
{
    match e {
        ContextEntry::Null => EntryView::Null,
        ContextEntry::IriRef(s) => EntryView::IriRef(s@),
        ContextEntry::Definition(d) => EntryView::Definition(definition_view(d)),
    }
}

/// The view of a context definition.
pub open spec fn definition_view(d: ContextDefinition) -> DefinitionView
    decreases d,
{
    DefinitionView {
        base: nullable_str_opt_view(d.base),
        import: str_opt_view(d.import),
        language: nullable_str_opt_view(d.language),
        direction: d.direction,
        propagate: d.propagate,
        protected: d.protected,
        type_: d.type_,
        version: d.version,
        vocab: nullable_str_opt_view(d.vocab),
        bindings: bindings_view(d.bindings@),
    }
}

/// The views of a sequence of term bindings.
pub open spec fn bindings_view(s: Seq<(String, Nullable<TermDefinitionSyntax>)>) -> Seq<(Seq<char>, Nullable<SyntaxView>)>
    decreases s,
{
    if s.len() == 0 {
        Seq::empty()
    } else {
        let last = s[s.len() - 1];
        bindings_view(s.subrange(0, s.len() - 1)).push((last.0@, match last.1 {
            Nullable::Null => Nullable::Null,
            Nullable::Value(t) => Nullable::Value(syntax_view(t)),
        }))
    }
}

/// The view of a term definition as written.
pub open spec fn syntax_view(t: TermDefinitionSyntax) -> SyntaxView
    decreases t,
{
    match t {
        TermDefinitionSyntax::Simple(s) => SyntaxView::Simple(s@),
        TermDefinitionSyntax::Expanded(e) => SyntaxView::Expanded(expanded_view(*e)),
    }
}

/// The view of an expanded term definition.
pub open spec fn expanded_view(e: ExpandedDefinition) -> ExpandedView
    decreases e,
{
    ExpandedView {
        id: nullable_str_opt_view(e.id),
        type_: nullable_str_opt_view(e.type_),
        context: match e.context {
            Some(c) => Some(Box::new(local_view(*c))),
            None => None,
        },
        reverse: str_opt_view(e.reverse),
        index: str_opt_view(e.index),
        language: nullable_str_opt_view(e.language),
        direction: e.direction,
        container: match e.container {
            Some(Nullable::Value(c)) => Some(Nullable::Value(container_view(c))),
            Some(Nullable::Null) => Some(Nullable::Null),
            None => None,
        },
        nest: str_opt_view(e.nest),
        prefix: e.prefix,
        propagate: e.propagate,
        protected: e.protected,
    }
}

impl LocalContext {
    /// The entries, in processing order.
    pub open spec fn entries(self) -> Seq<ContextEntry> {
        match self {
            LocalContext::One(e) => seq![e],
            LocalContext::Many(v) => v@,
        }
    }

    /// The number of entries.
    pub fn len(&self) -> (n: usize)
        ensures
            n == self.entries().len(),
    {
        match self {
            LocalContext::One(_) => 1,
            LocalContext::Many(v) => v.len(),
        }
    }

    /// The entry at `i`.
    pub fn entry(&self, i: usize) -> (e: &ContextEntry)
        requires
            i < self.entries().len(),
        ensures
            *e == self.entries()[i as int],
    {
        match self {
            LocalContext::One(e) => e,
            LocalContext::Many(v) => &v[i],
        }
    }
}

/// Whether two optional strings are equal.
pub fn opt_string_eq(a: &Option<String>, b: &Option<String>) -> (r: bool)
    ensures
        r == match (a, b) {
            (Some(x), Some(y)) => x@ == y@,
            (None, None) => true,
            _ => false,
        },
{
    match (a, b) {
        (Some(x), Some(y)) => {
            let xc = chars_of(x.as_str());
            let yc = chars_of(y.as_str());
            chars_eq(&xc, &yc)
        },
        (None, None) => true,
        _ => false,
    }
}

/// Whether two optional, possibly `null`, strings are equal.
pub fn opt_nullable_string_eq(a: &Option<Nullable<String>>, b: &Option<Nullable<String>>) -> (r: bool)
    ensures
        r == match (a, b) {
            (Some(Nullable::Value(x)), Some(Nullable::Value(y))) => x@ == y@,
            (Some(Nullable::Null), Some(Nullable::Null)) => true,
            (None, None) => true,
            _ => false,
        },
{
    match (a, b) {
        (Some(Nullable::Value(x)), Some(Nullable::Value(y))) => {
            let xc = chars_of(x.as_str());
            let yc = chars_of(y.as_str());
            chars_eq(&xc, &yc)
        },
        (Some(Nullable::Null), Some(Nullable::Null)) => true,
        (None, None) => true,
        _ => false,
    }
}

/// The view of each entry of a sequence is the entry viewed.
pub proof fn lemma_entry_seq_view_index(s: Seq<ContextEntry>)
    ensures
        entry_seq_view(s).len() == s.len(),
        forall|i: int| 0 <= i < s.len() ==> #[trigger] entry_seq_view(s)[i] == entry_view(s[i]),
    decreases s.len(),
{
    if s.len() > 0 {
        let init = s.subrange(0, s.len() - 1);
        lemma_entry_seq_view_index(init);
        assert forall|i: int| 0 <= i < s.len() implies #[trigger] entry_seq_view(s)[i] == entry_view(s[i]) by {
            if i < s.len() - 1 {
                assert(init[i] == s[i]);
            }
        }
    }
}

/// The view of a binding.
pub open spec fn binding_view(b: (String, Nullable<TermDefinitionSyntax>)) -> (Seq<char>, Nullable<SyntaxView>) {
    (b.0@, match b.1 {
        Nullable::Null => Nullable::Null,
        Nullable::Value(t) => Nullable::Value(syntax_view(t)),
    })
}

/// The view of each binding of a sequence is the binding viewed.
pub proof fn lemma_bindings_view_index(s: Seq<(String, Nullable<TermDefinitionSyntax>)>)
    ensures
        bindings_view(s).len() == s.len(),
        forall|i: int| 0 <= i < s.len() ==> #[trigger] bindings_view(s)[i] == binding_view(s[i]),
    decreases s.len(),
{
    if s.len() > 0 {
        let init = s.subrange(0, s.len() - 1);
        lemma_bindings_view_index(init);
        assert forall|i: int| 0 <= i < s.len() implies #[trigger] bindings_view(s)[i] == binding_view(s[i]) by {
            if i < s.len() - 1 {
                assert(init[i] == s[i]);
            }
        }
    }
}

fn container_syntax_eq(a: &ContainerSyntax, b: &ContainerSyntax) -> (r: bool)
    ensures
        r == (container_view(*a) == container_view(*b)),
{
    match (a, b) {
        (ContainerSyntax::One(x), ContainerSyntax::One(y)) => *x == *y,
        (ContainerSyntax::Many(x), ContainerSyntax::Many(y)) => {
            if x.len() != y.len() {
                return false;
            }
            let mut i: usize = 0;
            while i < x.len()
                invariant
                    i <= x@.len(),
                    x@.len() == y@.len(),
                    *a == ContainerSyntax::Many(*x),
                    *b == ContainerSyntax::Many(*y),
                    forall|j: int| 0 <= j < i ==> x@[j] == y@[j],
                decreases x@.len() - i,
            {
                if x[i] != y[i] {
                    proof {
                        assert(x@[i as int] != y@[i as int]);
                        assert(container_view(*a) != container_view(*b));
                    }
                    return false;
                }
                i = i + 1;
            }
            proof {
                assert(x@ =~= y@);
            }
            true
        },
        _ => false,
    }
}

fn opt_direction_eq(a: &Option<Nullable<Direction>>, b: &Option<Nullable<Direction>>) -> (r: bool)
    ensures
        r == (*a == *b),
{
    match (a, b) {
        (Some(Nullable::Value(x)), Some(Nullable::Value(y))) => *x == *y,
        (Some(Nullable::Null), Some(Nullable::Null)) => true,
        (None, None) => true,
        _ => false,
    }
}

/// Whether two local contexts are written the same.
pub fn local_context_eq(a: &LocalContext, b: &LocalContext) -> (r: bool)
    ensures
        r == (local_view(*a) == local_view(*b)),
    decreases a,
{
    match (a, b) {
        (LocalContext::One(x), LocalContext::One(y)) => entry_eq(x, y),
        (LocalContext::Many(x), LocalContext::Many(y)) => {
            proof {
                lemma_entry_seq_view_index(x@);
                lemma_entry_seq_view_index(y@);
            }
            if x.len() != y.len() {
                return false;
            }
            let mut i: usize = 0;
            while i < x.len()
                invariant
                    i <= x@.len(),
                    x@.len() == y@.len(),
                    *a == LocalContext::Many(*x),
                    *b == LocalContext::Many(*y),
                    entry_seq_view(x@).len() == x@.len(),
                    entry_seq_view(y@).len() == y@.len(),
                    forall|j: int| 0 <= j < x@.len() ==> #[trigger] entry_seq_view(x@)[j] == entry_view(x@[j]),
                    forall|j: int| 0 <= j < y@.len() ==> #[trigger] entry_seq_view(y@)[j] == entry_view(y@[j]),
                    forall|j: int| 0 <= j < i ==> entry_view(x@[j]) == entry_view(y@[j]),
                decreases x@.len() - i,
            {
                proof {
                    assert(decreases_to!(a => a->Many_0));
                    assert(decreases_to!(a->Many_0 => a->Many_0@));
                    assert(decreases_to!(a->Many_0@ => a->Many_0@[i as int]));
                }
                if !entry_eq(&x[i], &y[i]) {
                    proof {
                        assert(entry_seq_view(x@)[i as int] != entry_seq_view(y@)[i as int]);
                    }
                    return false;
                }
                i = i + 1;
            }
            proof {
                assert(entry_seq_view(x@) =~= entry_seq_view(y@));
            }
            true
        },
        _ => false,
    }
}

/// Whether two context entries are written the same.
pub fn entry_eq(a: &ContextEntry, b: &ContextEntry) -> (r: bool)
    ensures
        r == (entry_view(*a) == entry_view(*b)),
    decreases a,
{
    match (a, b) {
        (ContextEntry::Null, ContextEntry::Null) => true,
        (ContextEntry::IriRef(x), ContextEntry::IriRef(y)) => {
            let xc = chars_of(x.as_str());
            let yc = chars_of(y.as_str());
            chars_eq(&xc, &yc)
        },
        (ContextEntry::Definition(x), ContextEntry::Definition(y)) => definition_eq(x, y),
        _ => false,
    }
}

/// Whether two context definitions are written the same.
pub fn definition_eq(a: &ContextDefinition, b: &ContextDefinition) -> (r: bool)
    ensures
        r == (definition_view(*a) == definition_view(*b)),
    decreases a,
{
    proof {
        lemma_bindings_view_index(a.bindings@);
        lemma_bindings_view_index(b.bindings@);
    }
    if !(opt_nullable_string_eq(&a.base, &b.base) && opt_string_eq(&a.import, &b.import)
        && opt_nullable_string_eq(&a.language, &b.language) && opt_direction_eq(&a.direction, &b.direction)
        && a.propagate == b.propagate && a.protected == b.protected && a.version == b.version
        && opt_nullable_string_eq(&a.vocab, &b.vocab)) {
        return false;
    }
    match (&a.type_, &b.type_) {
        (Some(x), Some(y)) => {
            if x.container_set != y.container_set || x.protected != y.protected {
                return false;
            }
        },
        (None, None) => {},
        _ => {
            return false;
        },
    }
    if a.bindings.len() != b.bindings.len() {
        return false;
    }
    let mut i: usize = 0;
    while i < a.bindings.len()
        invariant
            i <= a.bindings@.len(),
            a.bindings@.len() == b.bindings@.len(),
            bindings_view(a.bindings@).len() == a.bindings@.len(),
            bindings_view(b.bindings@).len() == b.bindings@.len(),
            forall|j: int| 0 <= j < a.bindings@.len() ==> #[trigger] bindings_view(a.bindings@)[j] == binding_view(a.bindings@[j]),
            forall|j: int| 0 <= j < b.bindings@.len() ==> #[trigger] bindings_view(b.bindings@)[j] == binding_view(b.bindings@[j]),
            forall|j: int| 0 <= j < i ==> binding_view(a.bindings@[j]) == binding_view(b.bindings@[j]),
        decreases a.bindings@.len() - i,
    {
        let (ka, da) = &a.bindings[i];
        let (kb, db) = &b.bindings[i];
        let kac = chars_of(ka.as_str());
        let kbc = chars_of(kb.as_str());
        if !chars_eq(&kac, &kbc) {
            proof {
                assert(bindings_view(a.bindings@)[i as int] != bindings_view(b.bindings@)[i as int]);
            }
            return false;
        }
        match (da, db) {
            (Nullable::Null, Nullable::Null) => {},
            (Nullable::Value(x), Nullable::Value(y)) => {
                proof {
                    assert(decreases_to!(a => a.bindings@[i as int].1));
                }
                if !term_definition_eq(x, y) {
                    proof {
                        assert(bindings_view(a.bindings@)[i as int] != bindings_view(b.bindings@)[i as int]);
                    }
                    return false;
                }
            },
            _ => {
                proof {
                    assert(bindings_view(a.bindings@)[i as int] != bindings_view(b.bindings@)[i as int]);
                }
                return false;
            },
        }
        i = i + 1;
    }
    proof {
        assert(bindings_view(a.bindings@) =~= bindings_view(b.bindings@));
    }
    true
}

/// Whether two term definitions are written the same.
pub fn term_definition_eq(a: &TermDefinitionSyntax, b: &TermDefinitionSyntax) -> (r: bool)
    ensures
        r == (syntax_view(*a) == syntax_view(*b)),
    decreases a,
{
    match (a, b) {
        (TermDefinitionSyntax::Simple(x), TermDefinitionSyntax::Simple(y)) => {
            let xc = chars_of(x.as_str());
            let yc = chars_of(y.as_str());
            chars_eq(&xc, &yc)
        },
        (TermDefinitionSyntax::Expanded(x), TermDefinitionSyntax::Expanded(y)) => {
            let x: &ExpandedDefinition = &**x;
            let y: &ExpandedDefinition = &**y;
            if !(opt_nullable_string_eq(&x.id, &y.id) && opt_nullable_string_eq(&x.type_, &y.type_)
                && opt_string_eq(&x.reverse, &y.reverse) && opt_string_eq(&x.index, &y.index)
                && opt_nullable_string_eq(&x.language, &y.language) && opt_direction_eq(&x.direction, &y.direction)
                && opt_string_eq(&x.nest, &y.nest) && x.prefix == y.prefix && x.propagate == y.propagate
                && x.protected == y.protected) {
                return false;
            }
            let containers_equal = match (&x.container, &y.container) {
                (Some(Nullable::Value(p)), Some(Nullable::Value(q))) => container_syntax_eq(p, q),
                (Some(Nullable::Null), Some(Nullable::Null)) => true,
                (None, None) => true,
                _ => false,
            };
            if !containers_equal {
                return false;
            }
            match (&x.context, &y.context) {
                (Some(p), Some(q)) => local_context_eq(&**p, &**q),
                (None, None) => true,
                _ => false,
            }
        },
        _ => false,
    }
}

/// A copy of an optional string.
pub fn clone_opt_string(a: &Option<String>) -> (r: Option<String>)
    ensures
        match (r, a) {
            (Some(x), Some(y)) => x@ == y@,
            (None, None) => true,
            _ => false,
        },
{
    match a {
        Some(s) => Some(s.clone()),
        None => None,
    }
}

fn clone_opt_nullable_string(a: &Option<Nullable<String>>) -> (r: Option<Nullable<String>>)
    ensures
        nullable_str_opt_view(r) == nullable_str_opt_view(*a),
{
    match a {
        Some(Nullable::Value(s)) => Some(Nullable::Value(s.clone())),
        Some(Nullable::Null) => Some(Nullable::Null),
        None => None,
    }
}

/// A copy of a local context.
pub fn clone_local_context(c: &LocalContext) -> (r: LocalContext)
    ensures
        local_view(r) == local_view(*c),
    decreases c,
{
    match c {
        LocalContext::One(e) => LocalContext::One(clone_entry(e)),
        LocalContext::Many(v) => {
            let mut out: Vec<ContextEntry> = Vec::new();
            let mut i: usize = 0;
            proof {
                assert(v@.subrange(0, 0) =~= Seq::<ContextEntry>::empty());
                assert(entry_seq_view(out@) =~= entry_seq_view(v@.subrange(0, 0)));
            }
            while i < v.len()
                invariant
                    i <= v@.len(),
                    *c == LocalContext::Many(*v),
                    entry_seq_view(out@) == entry_seq_view(v@.subrange(0, i as int)),
                decreases v@.len() - i,
            {
                proof {
                    assert(decreases_to!(c => c->Many_0));
                    assert(decreases_to!(c->Many_0 => c->Many_0@));
                    assert(decreases_to!(c->Many_0@ => c->Many_0@[i as int]));
                }
                let e = clone_entry(&v[i]);
                proof {
                    assert(out@.push(e).subrange(0, out@.len() as int) =~= out@);
                    let pre = v@.subrange(0, i as int);
                    assert(v@.subrange(0, i + 1).subrange(0, i as int) =~= pre);
                }
                out.push(e);
                i = i + 1;
            }
            proof {
                assert(v@.subrange(0, i as int) =~= v@);
            }
            LocalContext::Many(out)
        },
    }
}

/// A copy of a context entry.
pub fn clone_entry(e: &ContextEntry) -> (r: ContextEntry)
    ensures
        entry_view(r) == entry_view(*e),
    decreases e,
{
    match e {
        ContextEntry::Null => ContextEntry::Null,
        ContextEntry::IriRef(s) => ContextEntry::IriRef(s.clone()),
        ContextEntry::Definition(d) => ContextEntry::Definition(clone_definition(d)),
    }
}

/// A copy of a context definition.
pub fn clone_definition(d: &ContextDefinition) -> (r: ContextDefinition)
    ensures
        definition_view(r) == definition_view(*d),
    decreases d,
{
    let mut bindings: Vec<(String, Nullable<TermDefinitionSyntax>)> = Vec::new();
    let mut i: usize = 0;
    proof {
        assert(d.bindings@.subrange(0, 0) =~= Seq::<(String, Nullable<TermDefinitionSyntax>)>::empty());
        assert(bindings_view(bindings@) =~= bindings_view(d.bindings@.subrange(0, 0)));
    }
    while i < d.bindings.len()
        invariant
            i <= d.bindings@.len(),
            bindings_view(bindings@) == bindings_view(d.bindings@.subrange(0, i as int)),
        decreases d.bindings@.len() - i,
    {
        let (k, t) = &d.bindings[i];
        let t2 = match t {
            Nullable::Null => Nullable::Null,
            Nullable::Value(t) => {
                proof {
                    assert(decreases_to!(d => d.bindings@[i as int].1));
                }
                Nullable::Value(clone_term_definition(t))
            },
        };
        let k2 = k.clone();
        proof {
            assert(bindings@.push((k2, t2)).subrange(0, bindings@.len() as int) =~= bindings@);
            let pre = d.bindings@.subrange(0, i as int);
            assert(d.bindings@.subrange(0, i + 1).subrange(0, i as int) =~= pre);
        }
        bindings.push((k2, t2));
        i = i + 1;
    }
    proof {
        assert(d.bindings@.subrange(0, i as int) =~= d.bindings@);
    }
    ContextDefinition {
        base: clone_opt_nullable_string(&d.base),
        import: clone_opt_string(&d.import),
        language: clone_opt_nullable_string(&d.language),
        direction: d.direction,
        propagate: d.propagate,
        protected: d.protected,
        type_: d.type_,
        version: d.version,
        vocab: clone_opt_nullable_string(&d.vocab),
        bindings,
    }
}

/// A copy of a `@container` entry.
fn clone_container(c: &ContainerSyntax) -> (r: ContainerSyntax)
    ensures
        container_view(r) == container_view(*c),
{
    match c {
        ContainerSyntax::One(k) => ContainerSyntax::One(*k),
        ContainerSyntax::Many(v) => {
            let mut out: Vec<ContainerKind> = Vec::new();
            let mut i: usize = 0;
            while i < v.len()
                invariant
                    i <= v@.len(),
                    out@ == v@.subrange(0, i as int),
                decreases v@.len() - i,
            {
                out.push(v[i]);
                proof {
                    assert(out@ =~= v@.subrange(0, i + 1));
                }
                i = i + 1;
            }
            proof {
                assert(out@ =~= v@);
            }
            ContainerSyntax::Many(out)
        },
    }
}

/// A copy of a term definition.
pub fn clone_term_definition(t: &TermDefinitionSyntax) -> (r: TermDefinitionSyntax)
    ensures
        syntax_view(r) == syntax_view(*t),
    decreases t,
{
    match t {
        TermDefinitionSyntax::Simple(s) => TermDefinitionSyntax::Simple(s.clone()),
        TermDefinitionSyntax::Expanded(x) => {
            let x: &ExpandedDefinition = &**x;
            let context = match &x.context {
                Some(c) => Some(Box::new(clone_local_context(&**c))),
                None => None,
            };
            TermDefinitionSyntax::Expanded(
                Box::new(
                    ExpandedDefinition {
                        id: clone_opt_nullable_string(&x.id),
                        type_: clone_opt_nullable_string(&x.type_),
                        context,
                        reverse: clone_opt_string(&x.reverse),
                        index: clone_opt_string(&x.index),
                        language: clone_opt_nullable_string(&x.language),
                        direction: x.direction,
                        container: match &x.container {
                            Some(Nullable::Value(c)) => Some(Nullable::Value(clone_container(c))),
                            Some(Nullable::Null) => Some(Nullable::Null),
                            None => None,
                        },
                        nest: clone_opt_string(&x.nest),
                        prefix: x.prefix,
                        propagate: x.propagate,
                        protected: x.protected,
                    },
                ),
            )
        },
    }
}

} // verus!

//! Container mappings of term definitions.
use vstd::prelude::*;

verus! {

/// Single `@container` keyword value.
#[derive(Clone, Copy, PartialEq, Eq, Structural, Hash, Debug)]
pub enum ContainerKind {
    /// `@graph`.
    Graph,
    /// `@id`.
    Id,
    /// `@index`.
    Index,
    /// `@language`.
    Language,
    /// `@list`.
    List,
    /// `@set`.
    AtSet,
    /// `@type`.
    Type,
}

impl ContainerKind {
    /// Bit standing for this keyword in the mask of a container mapping.
    pub open spec fn bit(self) -> u8 {
        match self {
            ContainerKind::Graph => 1,
            ContainerKind::Id => 2,
            ContainerKind::Index => 4,
            ContainerKind::Language => 8,
            ContainerKind::List => 16,
            ContainerKind::AtSet => 32,
            ContainerKind::Type => 64,
        }
    }
}

/// Error raised when a set of `@container` values cannot be combined.
#[derive(Debug, Clone, Copy)]
pub struct InvalidContainer;

/// Container mapping of a term: the combination of `@container` values it
/// was defined with.
#[derive(Clone, Copy, PartialEq, Eq, Structural, Hash, Debug)]
pub enum Container {
    /// Empty container: no `@container` value.
    Empty,
    /// `@graph`.
    Graph,
    /// `@id`.
    Id,
    /// `@index`.
    Index,
    /// `@language`.
    Language,
    /// `@list`.
    List,
    /// `@set` alone.
    SetOnly,
    /// `@type`.
    Type,
    /// `@graph` and `@set`.
    GraphSet,
    /// `@graph` and `@id`.
    GraphId,
    /// `@graph` and `@index`.
    GraphIndex,
    /// `@id` and `@set`.
    IdSet,
    /// `@index` and `@set`.
    IndexSet,
    /// `@language` and `@set`.
    LanguageSet,
    /// `@set` and `@type`.
    SetType,
    /// `@graph`, `@id` and `@set`.
    GraphIdSet,
    /// `@graph`, `@index` and `@set`.
    GraphIndexSet,
}

/// Syntactic form of a `@container` entry: one keyword or an array of them.
#[derive(Clone, PartialEq, Eq, Debug)]
pub enum ContainerSyntax {
    /// A single `@container` value.
    One(ContainerKind),
    /// An array of `@container` values.
    Many(Vec<ContainerKind>),
}

/// A value that may be explicitly `null`.
#[derive(Clone, Copy, PartialEq, Eq, Structural, Hash, Debug)]
pub enum Nullable<T> {
    /// Explicit `null`.
    Null,
    /// A value.
    Value(T),
}

/// The keyword values of a container mapping, in their canonical order.
pub open spec fn kinds_of(c: Container) -> Seq<ContainerKind> {
    match c {
        Container::Empty => seq![],
        Container::Graph => seq![ContainerKind::Graph],
        Container::Id => seq![ContainerKind::Id],
        Container::Index => seq![ContainerKind::Index],
        Container::Language => seq![ContainerKind::Language],
        Container::List => seq![ContainerKind::List],
        Container::SetOnly => seq![ContainerKind::AtSet],
        Container::Type => seq![ContainerKind::Type],
        Container::GraphSet => seq![ContainerKind::Graph, ContainerKind::AtSet],
        Container::GraphId => seq![ContainerKind::Graph, ContainerKind::Id],
        Container::GraphIndex => seq![ContainerKind::Graph, ContainerKind::Index],
        Container::IdSet => seq![ContainerKind::Id, ContainerKind::AtSet],
        Container::IndexSet => seq![ContainerKind::Index, ContainerKind::AtSet],
        Container::LanguageSet => seq![ContainerKind::Language, ContainerKind::AtSet],
        Container::SetType => seq![ContainerKind::Type, ContainerKind::AtSet],
        Container::GraphIdSet => seq![ContainerKind::Graph, ContainerKind::Id, ContainerKind::AtSet],
        Container::GraphIndexSet => seq![ContainerKind::Graph, ContainerKind::Index, ContainerKind::AtSet],
    }
}

/// Whether the keyword `k` is among the bits of the mask `m`.
pub open spec fn mask_has(m: int, k: ContainerKind) -> bool {
    match k {
        ContainerKind::Graph => m % 2 == 1,
        ContainerKind::Id => (m / 2) % 2 == 1,
        ContainerKind::Index => (m / 4) % 2 == 1,
        ContainerKind::Language => (m / 8) % 2 == 1,
        ContainerKind::List => (m / 16) % 2 == 1,
        ContainerKind::AtSet => (m / 32) % 2 == 1,
        ContainerKind::Type => (m / 64) % 2 == 1,
    }
}

/// The mask `m` with the bit of `k` set.
pub open spec fn with_bit(m: int, k: ContainerKind) -> int {
    if mask_has(m, k) { m } else { m + k.bit() }
}

/// The container mapping whose keywords are exactly the bits of `m`, if the
/// JSON-LD grammar allows that combination.
pub open spec fn from_mask(m: int) -> Option<Container> {
    if m == 0 { Some(Container::Empty) }
    else if m == 1 { Some(Container::Graph) }
    else if m == 2 { Some(Container::Id) }
    else if m == 4 { Some(Container::Index) }
    else if m == 8 { Some(Container::Language) }
    else if m == 16 { Some(Container::List) }
    else if m == 32 { Some(Container::SetOnly) }
    else if m == 64 { Some(Container::Type) }
    else if m == 33 { Some(Container::GraphSet) }
    else if m == 3 { Some(Container::GraphId) }
    else if m == 5 { Some(Container::GraphIndex) }
    else if m == 34 { Some(Container::IdSet) }
    else if m == 36 { Some(Container::IndexSet) }
    else if m == 40 { Some(Container::LanguageSet) }
    else if m == 96 { Some(Container::SetType) }
    else if m == 35 { Some(Container::GraphIdSet) }
    else if m == 37 { Some(Container::GraphIndexSet) }
    else { None }
}

impl Container {
    /// Set of keyword bits combined by this mapping.
    pub open spec fn mask(self) -> u8 {
        match self {
            Container::Empty => 0,
            Container::Graph => 1,
            Container::Id => 2,
            Container::Index => 4,
            Container::Language => 8,
            Container::List => 16,
            Container::SetOnly => 32,
            Container::Type => 64,
            Container::GraphSet => 33,
            Container::GraphId => 3,
            Container::GraphIndex => 5,
            Container::IdSet => 34,
            Container::IndexSet => 36,
            Container::LanguageSet => 40,
            Container::SetType => 96,
            Container::GraphIdSet => 35,
            Container::GraphIndexSet => 37,
        }
    }

    /// Whether the mapping combines the keyword `k`.
    pub open spec fn has(self, k: ContainerKind) -> bool {
        mask_has(self.mask() as int, k)
    }

    /// The mapping extended with `c`, when the grammar allows it.
    pub open spec fn spec_with(self, c: ContainerKind) -> Option<Container> {
        from_mask(with_bit(self.mask() as int, c))
    }

    /// Creates the empty container mapping.
    pub fn new() -> (c: Container)
        ensures
            c == Container::Empty,
            kinds_of(c).len() == 0,
    {
        Container::Empty
    }

    /// Returns the combined `@container` values, in canonical order.
    pub fn as_slice(&self) -> (r: Vec<ContainerKind>)
        ensures
            r@ == kinds_of(*self),
    {
        match self {
            Container::Empty => vec![],
            Container::Graph => vec![ContainerKind::Graph],
            Container::Id => vec![ContainerKind::Id],
            Container::Index => vec![ContainerKind::Index],
            Container::Language => vec![ContainerKind::Language],
            Container::List => vec![ContainerKind::List],
            Container::SetOnly => vec![ContainerKind::AtSet],
            Container::Type => vec![ContainerKind::Type],
            Container::GraphSet => vec![ContainerKind::Graph, ContainerKind::AtSet],
            Container::GraphId => vec![ContainerKind::Graph, ContainerKind::Id],
            Container::GraphIndex => vec![ContainerKind::Graph, ContainerKind::Index],
            Container::IdSet => vec![ContainerKind::Id, ContainerKind::AtSet],
            Container::IndexSet => vec![ContainerKind::Index, ContainerKind::AtSet],
            Container::LanguageSet => vec![ContainerKind::Language, ContainerKind::AtSet],
            Container::SetType => vec![ContainerKind::Type, ContainerKind::AtSet],
            Container::GraphIdSet => vec![ContainerKind::Graph, ContainerKind::Id, ContainerKind::AtSet],
            Container::GraphIndexSet => vec![ContainerKind::Graph, ContainerKind::Index, ContainerKind::AtSet],
        }
    }

    /// Returns the number of combined `@container` values.
    pub fn len(&self) -> (n: usize)
        ensures
            n == kinds_of(*self).len(),
    {
        self.as_slice().len()
    }

    /// Checks whether the container mapping is empty.
    pub fn is_empty(&self) -> (b: bool)
        ensures
            b == (kinds_of(*self).len() == 0),
            b == (*self == Container::Empty),
    {
        match self {
            Container::Empty => true,
            _ => false,
        }
    }

    /// Checks whether the mapping includes the given `@container` value.
    pub fn contains(&self, c: ContainerKind) -> (b: bool)
        ensures
            b == self.has(c),
            b == kinds_of(*self).contains(c),
    {
        proof { lemma_kinds_match_mask(*self, c); }
        let v = self.as_slice();
        let mut i: usize = 0;
        while i < v.len()
            invariant
                v@ == kinds_of(*self),
                i <= v.len(),
                forall|j: int| 0 <= j < i ==> v@[j] != c,
            decreases v.len() - i,
        {
            if v[i] == c {
                return true;
            }
            i = i + 1;
        }
        false
    }

    /// Returns this mapping extended with the given `@container` value, or
    /// `None` if the combination is not allowed by the JSON-LD grammar.
    pub fn with(&self, c: ContainerKind) -> (r: Option<Container>)
        ensures
            r == self.spec_with(c),
    {
        match (self, c) {
            (Container::Empty, c) => Some(Container::from_kind(c)),
            (Container::Graph, ContainerKind::Graph) => Some(*self),
            (Container::Graph, ContainerKind::AtSet) => Some(Container::GraphSet),
            (Container::Graph, ContainerKind::Id) => Some(Container::GraphId),
            (Container::Graph, ContainerKind::Index) => Some(Container::GraphIndex),
            (Container::Id, ContainerKind::Id) => Some(*self),
            (Container::Id, ContainerKind::Graph) => Some(Container::GraphId),
            (Container::Id, ContainerKind::AtSet) => Some(Container::IdSet),
            (Container::Index, ContainerKind::Index) => Some(*self),
            (Container::Index, ContainerKind::Graph) => Some(Container::GraphIndex),
            (Container::Index, ContainerKind::AtSet) => Some(Container::IndexSet),
            (Container::Language, ContainerKind::Language) => Some(*self),
            (Container::Language, ContainerKind::AtSet) => Some(Container::LanguageSet),
            (Container::List, ContainerKind::List) => Some(*self),
            (Container::SetOnly, ContainerKind::AtSet) => Some(*self),
            (Container::SetOnly, ContainerKind::Graph) => Some(Container::GraphSet),
            (Container::SetOnly, ContainerKind::Id) => Some(Container::IdSet),
            (Container::SetOnly, ContainerKind::Index) => Some(Container::IndexSet),
            (Container::SetOnly, ContainerKind::Language) => Some(Container::LanguageSet),
            (Container::SetOnly, ContainerKind::Type) => Some(Container::SetType),
            (Container::Type, ContainerKind::Type) => Some(*self),
            (Container::Type, ContainerKind::AtSet) => Some(Container::SetType),
            (Container::GraphSet, ContainerKind::Graph) => Some(*self),
            (Container::GraphSet, ContainerKind::AtSet) => Some(*self),
            (Container::GraphSet, ContainerKind::Id) => Some(Container::GraphIdSet),
            (Container::GraphSet, ContainerKind::Index) => Some(Container::GraphIndexSet),
            (Container::GraphId, ContainerKind::Graph) => Some(*self),
            (Container::GraphId, ContainerKind::Id) => Some(*self),
            (Container::GraphId, ContainerKind::AtSet) => Some(Container::GraphIdSet),
            (Container::GraphIndex, ContainerKind::Graph) => Some(*self),
            (Container::GraphIndex, ContainerKind::Index) => Some(*self),
            (Container::GraphIndex, ContainerKind::AtSet) => Some(Container::GraphIndexSet),
            (Container::IdSet, ContainerKind::Id) => Some(*self),
            (Container::IdSet, ContainerKind::AtSet) => Some(*self),
            (Container::IdSet, ContainerKind::Graph) => Some(Container::GraphIdSet),
            (Container::IndexSet, ContainerKind::Index) => Some(*self),
            (Container::IndexSet, ContainerKind::AtSet) => Some(*self),
            (Container::IndexSet, ContainerKind::Graph) => Some(Container::GraphIndexSet),
            (Container::LanguageSet, ContainerKind::Language) => Some(*self),
            (Container::LanguageSet, ContainerKind::AtSet) => Some(*self),
            (Container::SetType, ContainerKind::AtSet) => Some(*self),
            (Container::SetType, ContainerKind::Type) => Some(*self),
            (Container::GraphIdSet, ContainerKind::Graph) => Some(*self),
            (Container::GraphIdSet, ContainerKind::Id) => Some(*self),
            (Container::GraphIdSet, ContainerKind::AtSet) => Some(*self),
            (Container::GraphIndexSet, ContainerKind::Graph) => Some(*self),
            (Container::GraphIndexSet, ContainerKind::Index) => Some(*self),
            (Container::GraphIndexSet, ContainerKind::AtSet) => Some(*self),
            _ => None,
        }
    }

    /// Adds the given `@container` value to the mapping in place. Returns
    /// `false` (leaving the mapping unchanged) if the combination is not
    /// allowed by the JSON-LD grammar.
    pub fn add(&mut self, c: ContainerKind) -> (b: bool)
        ensures
            b == old(self).spec_with(c) is Some,
            b ==> Some(*final(self)) == old(self).spec_with(c),
            !b ==> *final(self) == *old(self),
    {
        match self.with(c) {
            Some(container) => {
                *self = container;
                true
            },
            None => false,
        }
    }

    /// The single-keyword mapping of `c`.
    pub fn from_kind(c: ContainerKind) -> (r: Container)
        ensures
            r.mask() == c.bit(),
            Some(r) == from_mask(c.bit() as int),
            r == Container::from_kind_spec(c),
    {
        match c {
            ContainerKind::Graph => Container::Graph,
            ContainerKind::Id => Container::Id,
            ContainerKind::Index => Container::Index,
            ContainerKind::Language => Container::Language,
            ContainerKind::List => Container::List,
            ContainerKind::AtSet => Container::SetOnly,
            ContainerKind::Type => Container::Type,
        }
    }
}

/// Folds `with` over `items`, starting from `start`: the mapping they
/// combine into, or the first keyword that could not be added.
pub open spec fn combine(start: Container, items: Seq<ContainerKind>) -> Result<Container, ContainerKind>
    decreases items.len(),
{
    if items.len() == 0 {
        Ok(start)
    } else {
        match combine(start, items.drop_last()) {
            Ok(c) => match c.spec_with(items.last()) {
                Option::Some(d) => Ok(d),
                Option::None => Err(items.last()),
            },
            Err(k) => Err(k),
        }
    }
}

/// Once a keyword fails to combine, extending the list does not change the
/// outcome.
pub proof fn lemma_combine_err_extends(start: Container, items: Seq<ContainerKind>, n: int, k: ContainerKind)
    requires
        0 <= n <= items.len(),
        combine(start, items.subrange(0, n)) == Err::<Container, ContainerKind>(k),
    ensures
        combine(start, items) == Err::<Container, ContainerKind>(k),
    decreases items.len() - n,
{
    if n < items.len() {
        assert(items.subrange(0, n + 1).drop_last() =~= items.subrange(0, n));
        lemma_combine_err_extends(start, items, n + 1, k);
    } else {
        assert(items.subrange(0, n) =~= items);
    }
}

impl Container {
    /// Builds a container mapping from the `@container` values it combines,
    /// or returns the first value that cannot be combined with the previous
    /// ones.
    pub fn from(items: &[ContainerKind]) -> (r: Result<Container, ContainerKind>)
        ensures
            r == combine(Container::Empty, items@),
    {
        let mut container = Container::new();
        let mut i: usize = 0;
        while i < items.len()
            invariant
                i <= items.len(),
                combine(Container::Empty, items@.subrange(0, i as int)) == Ok::<Container, ContainerKind>(container),
            decreases items.len() - i,
        {
            let item = items[i];
            proof {
                assert(items@.subrange(0, i + 1).drop_last() =~= items@.subrange(0, i as int));
            }
            if !container.add(item) {
                proof { lemma_combine_err_extends(Container::Empty, items@, i + 1, item); }
                return Err(item);
            }
            i = i + 1;
        }
        proof {
            assert(items@.subrange(0, items.len() as int) =~= items@);
        }
        Ok(container)
    }

    /// Builds a container mapping from its syntactic form.
    pub fn from_syntax(r: Nullable<&ContainerSyntax>) -> (res: Result<Container, InvalidContainer>)
        ensures
            r is Null ==> res == Ok::<Container, InvalidContainer>(Container::Empty),
            r matches Nullable::Value(ContainerSyntax::One(c)) ==> res == Ok::<Container, InvalidContainer>(Container::from_kind_spec(*c)),
            r matches Nullable::Value(ContainerSyntax::Many(m)) ==> (res is Ok <==> combine(Container::Empty, m@) is Ok),
            r matches Nullable::Value(ContainerSyntax::Many(m)) ==> (res matches Ok(c) ==> combine(Container::Empty, m@) == Ok::<Container, ContainerKind>(c)),
    {
        match r {
            Nullable::Null => Ok(Container::Empty),
            Nullable::Value(ContainerSyntax::One(c)) => Ok(Container::from_kind(*c)),
            Nullable::Value(ContainerSyntax::Many(m)) => match Container::from(m.as_slice()) {
                Ok(c) => Ok(c),
                Err(_) => Err(InvalidContainer),
            },
        }
    }

    /// Converts the mapping into its syntactic form: a single `@container`
    /// value when it combines exactly one, an array when it combines several,
    /// and `None` when it is empty.
    pub fn into_syntax(self) -> (r: Option<ContainerSyntax>)
        ensures
            kinds_of(self).len() == 0 ==> r is None,
            kinds_of(self).len() == 1 ==> r == Some(ContainerSyntax::One(kinds_of(self)[0])),
            kinds_of(self).len() > 1 ==> (r matches Some(ContainerSyntax::Many(v)) && v@ == kinds_of(self)),
    {
        let slice = self.as_slice();
        if slice.len() == 0 {
            None
        } else if slice.len() == 1 {
            Some(ContainerSyntax::One(slice[0]))
        } else {
            Some(ContainerSyntax::Many(slice))
        }
    }

    /// The single-keyword mapping of `c`.
    pub open spec fn from_kind_spec(c: ContainerKind) -> Container {
        from_mask(c.bit() as int).unwrap()
    }
}

/// The keywords a mapping lists are exactly the bits of its mask.
pub proof fn lemma_kinds_match_mask(c: Container, k: ContainerKind)
    ensures
        kinds_of(c).contains(k) <==> c.has(k),
        from_mask(c.mask() as int) == Some(c),
{
    let s = kinds_of(c);
    assert(s.len() <= 3);
    if s.len() >= 1 { assert(s[0] == s[0]); }
    if s.len() >= 2 { assert(s[1] == s[1]); }
    if s.len() >= 3 { assert(s[2] == s[2]); }
    if c.has(k) {
        if s.len() >= 1 && s[0] == k { assert(s.contains(k)); }
        else if s.len() >= 2 && s[1] == k { assert(s.contains(k)); }
        else if s.len() >= 3 && s[2] == k { assert(s.contains(k)); }
    }
}

/// Adding a keyword the mapping already combines leaves it unchanged.
pub proof fn lemma_with_idempotent(c: Container, k: ContainerKind)
    requires
        c.has(k),
    ensures
        c.spec_with(k) == Some(c),
{
    lemma_kinds_match_mask(c, k);
}

/// A successful addition yields a mapping that combines exactly the previous
/// keywords and the added one.
pub proof fn lemma_with_adds_exactly(c: Container, k: ContainerKind, j: ContainerKind)
    requires
        c.spec_with(k) is Some,
    ensures
        c.spec_with(k).unwrap().has(j) <==> (c.has(j) || j == k),
{
    match k {
        ContainerKind::Graph => {},
        ContainerKind::Id => {},
        ContainerKind::Index => {},
        ContainerKind::Language => {},
        ContainerKind::List => {},
        ContainerKind::AtSet => {},
        ContainerKind::Type => {},
    }
}

/// A mask below 128 is determined by the keywords it has.
proof fn lemma_mask_determined(m1: u8, m2: u8)
    requires
        m1 < 128,
        m2 < 128,
        forall|k: ContainerKind| mask_has(m1 as int, k) == mask_has(m2 as int, k),
    ensures
        m1 == m2,
{
    assert(mask_has(m1 as int, ContainerKind::Graph) == mask_has(m2 as int, ContainerKind::Graph));
    assert(mask_has(m1 as int, ContainerKind::Id) == mask_has(m2 as int, ContainerKind::Id));
    assert(mask_has(m1 as int, ContainerKind::Index) == mask_has(m2 as int, ContainerKind::Index));
    assert(mask_has(m1 as int, ContainerKind::Language) == mask_has(m2 as int, ContainerKind::Language));
    assert(mask_has(m1 as int, ContainerKind::List) == mask_has(m2 as int, ContainerKind::List));
    assert(mask_has(m1 as int, ContainerKind::AtSet) == mask_has(m2 as int, ContainerKind::AtSet));
    assert(mask_has(m1 as int, ContainerKind::Type) == mask_has(m2 as int, ContainerKind::Type));
    assert(m1 == m2) by (bit_vector)
        requires
            m1 < 128,
            m2 < 128,
            (m1 % 2 == 1) == (m2 % 2 == 1),
            ((m1 / 2) % 2 == 1) == ((m2 / 2) % 2 == 1),
            ((m1 / 4) % 2 == 1) == ((m2 / 4) % 2 == 1),
            ((m1 / 8) % 2 == 1) == ((m2 / 8) % 2 == 1),
            ((m1 / 16) % 2 == 1) == ((m2 / 16) % 2 == 1),
            ((m1 / 32) % 2 == 1) == ((m2 / 32) % 2 == 1),
            ((m1 / 64) % 2 == 1) == ((m2 / 64) % 2 == 1),
    ;
}

/// Adding a keyword gives the one mapping that combines exactly the
/// keywords of the mapping and the added one, and fails exactly when no
/// mapping combines them: `d` is the result exactly when its keywords are
/// those of `c` and `k`.
#[verifier::rlimit(80)]
pub proof fn lemma_with_is_union(c: Container, k: ContainerKind, d: Container)
    ensures
        c.spec_with(k) == Some(d) <==> forall|j: ContainerKind| #[trigger] d.has(j) == (c.has(j) || j == k),
{
    if c.spec_with(k) == Some(d) {
        assert forall|j: ContainerKind| #[trigger] d.has(j) == (c.has(j) || j == k) by {
            lemma_with_adds_exactly(c, k, j);
        }
    }
    if forall|j: ContainerKind| #[trigger] d.has(j) == (c.has(j) || j == k) {
        let m = with_bit(c.mask() as int, k);
        assert(0 <= m < 128 && forall|j: ContainerKind| #[trigger] mask_has(m, j) == (c.has(j) || j == k)) by {
            match c {
            Container::Empty => {},
            Container::Graph => {},
            Container::Id => {},
            Container::Index => {},
            Container::Language => {},
            Container::List => {},
            Container::SetOnly => {},
            Container::Type => {},
            Container::GraphSet => {},
            Container::GraphId => {},
            Container::GraphIndex => {},
            Container::IdSet => {},
            Container::IndexSet => {},
            Container::LanguageSet => {},
            Container::SetType => {},
            Container::GraphIdSet => {},
            Container::GraphIndexSet => {},
            }
        }
        assert(d.mask() < 128);
        assert forall|j: ContainerKind| mask_has(m as u8 as int, j) == mask_has(d.mask() as int, j) by {
            assert(d.has(j) == (c.has(j) || j == k));
        }
        lemma_mask_determined(m as u8, d.mask());
        lemma_kinds_match_mask(d, k);
    }
}

/// In terms of the keywords a mapping lists: `d` is the result of adding
/// `k` to `c` exactly when it lists, as a set, the keywords of `c` and
/// `k`; so the result is the one mapping that lists them, and there is no
/// result when no mapping does.
pub proof fn lemma_with_lists_union(c: Container, k: ContainerKind, d: Container)
    ensures
        c.spec_with(k) == Some(d) <==> forall|j: ContainerKind| #[trigger] kinds_of(d).contains(j) == (kinds_of(c).contains(j) || j == k),
{
    lemma_with_is_union(c, k, d);
    if c.spec_with(k) == Some(d) {
        assert forall|j: ContainerKind| #[trigger] kinds_of(d).contains(j) == (kinds_of(c).contains(j) || j == k) by {
            lemma_kinds_match_mask(d, j);
            lemma_kinds_match_mask(c, j);
        }
    }
    if forall|j: ContainerKind| #[trigger] kinds_of(d).contains(j) == (kinds_of(c).contains(j) || j == k) {
        assert forall|j: ContainerKind| #[trigger] d.has(j) == (c.has(j) || j == k) by {
            lemma_kinds_match_mask(d, j);
            lemma_kinds_match_mask(c, j);
            assert(kinds_of(d).contains(j) == (kinds_of(c).contains(j) || j == k));
        }
    }
}

/// The order in which two keywords are added does not matter: both orders
/// succeed or fail together, and agree on the result.
#[verifier::rlimit(60)]
pub proof fn lemma_with_commutes(c: Container, a: ContainerKind, b: ContainerKind)
    ensures
        (match c.spec_with(a) { Option::Some(d) => d.spec_with(b), Option::None => None::<Container> })
            == (match c.spec_with(b) { Option::Some(d) => d.spec_with(a), Option::None => None::<Container> }),
{
    match (a, b) {
        (ContainerKind::Graph, _) => {},
        (ContainerKind::Id, _) => {},
        (ContainerKind::Index, _) => {},
        (ContainerKind::Language, _) => {},
        (ContainerKind::List, _) => {},
        (ContainerKind::AtSet, _) => {},
        (ContainerKind::Type, _) => {},
    }
}

} // verus!

//! A context definition read together with the definition it imports: the
//! importing definition wins over the imported one for every entry.
use vstd::prelude::*;
use crate::container::Nullable;
use crate::local::{ContextDefinition, ContextEntry, LocalContext, TermDefinitionSyntax, TypeEntry};
use crate::syntax::Direction;

verus! {

broadcast use vstd::string::group_string_axioms;

/// A context definition viewed together with the context it pulls in
/// through `@import`.
pub struct Merged<'a> {
    base: &'a ContextDefinition,
    imported: Option<LocalContext>,
}

/// One term definition of a context definition.
pub type BindingRef<'a> = (&'a String, &'a Nullable<TermDefinitionSyntax>);

/// The first entry of `fallback`, when `first` has none.
pub open spec fn or_else<T>(first: Option<T>, fallback: Option<T>) -> Option<T> {
    match first {
        Some(x) => Some(x),
        None => fallback,
    }
}

/// The imported definition, when what was imported is a single context
/// definition.
pub open spec fn imported_definition(imported: Option<LocalContext>) -> Option<ContextDefinition> {
    match imported {
        Some(LocalContext::One(ContextEntry::Definition(d))) => Some(d),
        _ => None,
    }
}

/// Whether `key` is bound in `bindings`.
pub open spec fn binds(bindings: Seq<(String, Nullable<TermDefinitionSyntax>)>, key: Seq<char>) -> bool {
    exists|i: int| 0 <= i < bindings.len() && bindings[i].0@ == key
}

/// The imported bindings whose key the importing definition does not bind,
/// in order.
pub open spec fn surviving(
    imported: Seq<(String, Nullable<TermDefinitionSyntax>)>,
    base: Seq<(String, Nullable<TermDefinitionSyntax>)>,
) -> Seq<(String, Nullable<TermDefinitionSyntax>)>
    decreases imported.len(),
{
    if imported.len() == 0 {
        Seq::empty()
    } else {
        let rest = surviving(imported.drop_last(), base);
        if binds(base, imported.last().0@) {
            rest
        } else {
            rest.push(imported.last())
        }
    }
}

/// The term definitions of a merged definition: the imported ones that are
/// not overridden, then the importing definition's own.
pub open spec fn merged_bindings(base: ContextDefinition, imported: Option<ContextDefinition>) -> Seq<(String, Nullable<TermDefinitionSyntax>)> {
    match imported {
        Some(i) => surviving(i.bindings@, base.bindings@) + base.bindings@,
        None => base.bindings@,
    }
}

/// The views of borrowed bindings.
pub open spec fn deref_bindings<'a>(s: Seq<BindingRef<'a>>) -> Seq<(String, Nullable<TermDefinitionSyntax>)> {
    s.map_values(|b: BindingRef<'a>| (*b.0, *b.1))
}

/// Whether `v` is the definition of the first binding of `key`.
pub open spec fn first_binding(bindings: Seq<(String, Nullable<TermDefinitionSyntax>)>, key: Seq<char>, v: Nullable<TermDefinitionSyntax>) -> bool {
    exists|i: int|
        0 <= i < bindings.len() && bindings[i].0@ == key && bindings[i].1 == v && forall|j: int| 0 <= j < i ==> bindings[j].0@ != key
}

/// The position of the binding of `key`, if any.
fn binding_position(bindings: &Vec<(String, Nullable<TermDefinitionSyntax>)>, key: &String) -> (r: Option<usize>)
    ensures
        match r {
            Some(i) => i < bindings@.len() && bindings@[i as int].0@ == key@
                && forall|j: int| 0 <= j < i ==> bindings@[j].0@ != key@,
            None => !binds(bindings@, key@),
        },
{
    let mut i: usize = 0;
    while i < bindings.len()
        invariant
            i <= bindings@.len(),
            forall|j: int| 0 <= j < i ==> bindings@[j].0@ != key@,
        decreases bindings@.len() - i,
    {
        if bindings[i].0 == *key {
            return Some(i);
        }
        i = i + 1;
    }
    None
}

impl<'a> Merged<'a> {
    /// The importing definition.
    pub closed spec fn base_spec(self) -> ContextDefinition {
        *self.base
    }

    /// The imported definition, if there is one.
    pub closed spec fn imported_spec(self) -> Option<ContextDefinition> {
        imported_definition(self.imported)
    }

    /// Views `base` together with the context it imports, `None` when it
    /// imports nothing.
    pub fn new(base: &'a ContextDefinition, imported: Option<LocalContext>) -> (m: Self)
        ensures
            m.base_spec() == *base,
            m.imported_spec() == imported_definition(imported),
    {
        Merged { base, imported }
    }

    /// Views `base` alone.
    pub fn from_definition(base: &'a ContextDefinition) -> (m: Self)
        ensures
            m.base_spec() == *base,
            m.imported_spec() is None,
    {
        Merged { base, imported: None }
    }

    /// Returns the imported context definition; `None` when nothing was
    /// imported, or when what was imported is not a single context
    /// definition.
    pub fn imported(&self) -> (r: Option<&ContextDefinition>)
        ensures
            match self.imported_spec() {
                Some(d) => r == Some(&d),
                None => r is None,
            },
    {
        match &self.imported {
            Some(LocalContext::One(ContextEntry::Definition(d))) => Some(d),
            _ => None,
        }
    }

    /// The `@base` entry, falling back to the imported definition's.
    pub fn base(&self) -> (r: Option<&Nullable<String>>)
        ensures
            r == or_else(
                match self.base_spec().base { Some(b) => Some(&b), None => None::<&Nullable<String>> },
                match self.imported_spec() {
                    Some(i) => match i.base { Some(b) => Some(&b), None => None::<&Nullable<String>> },
                    None => None::<&Nullable<String>>,
                },
            ),
    {
        match &self.base.base {
            Some(b) => Some(b),
            None => match self.imported() {
                Some(i) => i.base.as_ref(),
                None => None,
            },
        }
    }

    /// The `@vocab` entry, falling back to the imported definition's.
    pub fn vocab(&self) -> (r: Option<&Nullable<String>>)
        ensures
            r == or_else(
                match self.base_spec().vocab { Some(b) => Some(&b), None => None::<&Nullable<String>> },
                match self.imported_spec() {
                    Some(i) => match i.vocab { Some(b) => Some(&b), None => None::<&Nullable<String>> },
                    None => None::<&Nullable<String>>,
                },
            ),
    {
        match &self.base.vocab {
            Some(b) => Some(b),
            None => match self.imported() {
                Some(i) => i.vocab.as_ref(),
                None => None,
            },
        }
    }

    /// The `@language` entry, falling back to the imported definition's.
    pub fn language(&self) -> (r: Option<&Nullable<String>>)
        ensures
            r == or_else(
                match self.base_spec().language { Some(b) => Some(&b), None => None::<&Nullable<String>> },
                match self.imported_spec() {
                    Some(i) => match i.language { Some(b) => Some(&b), None => None::<&Nullable<String>> },
                    None => None::<&Nullable<String>>,
                },
            ),
    {
        match &self.base.language {
            Some(b) => Some(b),
            None => match self.imported() {
                Some(i) => i.language.as_ref(),
                None => None,
            },
        }
    }

    /// The `@direction` entry, falling back to the imported definition's.
    pub fn direction(&self) -> (r: Option<Nullable<Direction>>)
        ensures
            r == or_else(
                self.base_spec().direction,
                match self.imported_spec() {
                    Some(i) => i.direction,
                    None => None,
                },
            ),
    {
        match self.base.direction {
            Some(d) => Some(d),
            None => match self.imported() {
                Some(i) => i.direction,
                None => None,
            },
        }
    }

    /// The `@protected` entry, falling back to the imported definition's.
    pub fn protected(&self) -> (r: Option<bool>)
        ensures
            r == or_else(
                self.base_spec().protected,
                match self.imported_spec() {
                    Some(i) => i.protected,
                    None => None,
                },
            ),
    {
        match self.base.protected {
            Some(p) => Some(p),
            None => match self.imported() {
                Some(i) => i.protected,
                None => None,
            },
        }
    }

    /// The `@type` entry, falling back to the imported definition's.
    pub fn type_(&self) -> (r: Option<TypeEntry>)
        ensures
            r == or_else(
                self.base_spec().type_,
                match self.imported_spec() {
                    Some(i) => i.type_,
                    None => None,
                },
            ),
    {
        match self.base.type_ {
            Some(t) => Some(t),
            None => match self.imported() {
                Some(i) => i.type_,
                None => None,
            },
        }
    }

    /// The binding of `key`, preferring the importing definition's.
    pub fn get(&self, key: &String) -> (r: Option<&Nullable<TermDefinitionSyntax>>)
        ensures
            binds(self.base_spec().bindings@, key@) ==> (r matches Some(b) && first_binding(self.base_spec().bindings@, key@, *b)),
            !binds(self.base_spec().bindings@, key@) ==> match self.imported_spec() {
                Some(d) => if binds(d.bindings@, key@) {
                    r matches Some(b) && first_binding(d.bindings@, key@, *b)
                } else {
                    r is None
                },
                None => r is None,
            },
    {
        match binding_position(&self.base.bindings, key) {
            Some(i) => Some(&self.base.bindings[i].1),
            None => match self.imported() {
                Some(d) => match binding_position(&d.bindings, key) {
                    Some(i) => Some(&d.bindings[i].1),
                    None => None,
                },
                None => None,
            },
        }
    }

    /// Every term definition of both definitions, without repeating a term
    /// that the importing definition overrides: the imported ones first,
    /// then the importing definition's own.
    pub fn bindings(&self) -> (r: Vec<BindingRef<'_>>)
        ensures
            deref_bindings(r@) == merged_bindings(self.base_spec(), self.imported_spec()),
    {
        let mut out: Vec<BindingRef<'_>> = Vec::new();
        let ghost base = self.base_spec();
        if let Some(d) = self.imported() {
            let mut i: usize = 0;
            while i < d.bindings.len()
                invariant
                    i <= d.bindings@.len(),
                    base == self.base_spec(),
                    *self.base == base,
                    deref_bindings(out@) == surviving(d.bindings@.subrange(0, i as int), base.bindings@),
                decreases d.bindings@.len() - i,
            {
                let b = &d.bindings[i];
                proof {
                    let next = d.bindings@.subrange(0, i + 1);
                    assert(next.drop_last() =~= d.bindings@.subrange(0, i as int));
                    assert(next.last() == d.bindings@[i as int]);
                }
                if binding_position(&self.base.bindings, &b.0).is_none() {
                    proof {
                        assert(deref_bindings(out@.push((&b.0, &b.1))) =~= deref_bindings(out@).push(*b));
                    }
                    out.push((&b.0, &b.1));
                }
                i = i + 1;
            }
            proof {
                assert(d.bindings@.subrange(0, i as int) =~= d.bindings@);
            }
        } else {
            proof {
                assert(deref_bindings(out@) =~= Seq::<(String, Nullable<TermDefinitionSyntax>)>::empty());
            }
        }
        let ghost head = deref_bindings(out@);
        let mut j: usize = 0;
        while j < self.base.bindings.len()
            invariant
                j <= base.bindings@.len(),
                *self.base == base,
                deref_bindings(out@) == head + base.bindings@.subrange(0, j as int),
            decreases base.bindings@.len() - j,
        {
            let b = &self.base.bindings[j];
            proof {
                assert(deref_bindings(out@.push((&b.0, &b.1))) =~= deref_bindings(out@).push(*b));
                assert(base.bindings@.subrange(0, j + 1) =~= base.bindings@.subrange(0, j as int).push(*b));
                assert(head + base.bindings@.subrange(0, j as int).push(*b) =~= (head + base.bindings@.subrange(0, j as int)).push(*b));
            }
            out.push((&b.0, &b.1));
            j = j + 1;
        }
        proof {
            assert(base.bindings@.subrange(0, j as int) =~= base.bindings@);
        }
        out
    }
}

/// Whether no two bindings of `s` share a key.
pub open spec fn unique_binding_keys(s: Seq<(String, Nullable<TermDefinitionSyntax>)>) -> bool {
    forall|i: int, j: int| 0 <= i < s.len() && 0 <= j < s.len() && i != j ==> s[i].0@ != s[j].0@
}

proof fn lemma_surviving_members(
    imported: Seq<(String, Nullable<TermDefinitionSyntax>)>,
    base: Seq<(String, Nullable<TermDefinitionSyntax>)>,
)
    ensures
        forall|i: int| 0 <= i < surviving(imported, base).len() ==> !binds(base, #[trigger] surviving(imported, base)[i].0@)
            && imported.contains(surviving(imported, base)[i]),
        forall|k: Seq<char>| binds(imported, k) && !binds(base, k) ==> #[trigger] binds(surviving(imported, base), k),
        forall|k: Seq<char>| #[trigger] binds(surviving(imported, base), k) ==> binds(imported, k),
        unique_binding_keys(imported) ==> unique_binding_keys(surviving(imported, base)),
    decreases imported.len(),
{
    if imported.len() > 0 {
        let init = imported.drop_last();
        let last = imported.last();
        lemma_surviving_members(init, base);
        let rest = surviving(init, base);
        let out = surviving(imported, base);
        assert forall|i: int| 0 <= i < out.len() implies !binds(base, #[trigger] out[i].0@) && imported.contains(out[i]) by {
            if i < rest.len() {
                assert(out[i] == rest[i]);
                assert(!binds(base, rest[i].0@));
                assert(init.contains(rest[i]));
                let w = choose|j: int| 0 <= j < init.len() && init[j] == rest[i];
                assert(init[w] == imported[w]);
                assert(imported[w] == rest[i]);
            } else {
                assert(out[i] == last);
                assert(imported[imported.len() - 1] == last);
            }
        }
        assert forall|k: Seq<char>| binds(imported, k) && !binds(base, k) implies #[trigger] binds(out, k) by {
            let w = choose|j: int| 0 <= j < imported.len() && imported[j].0@ == k;
            if w < imported.len() - 1 {
                assert(init[w] == imported[w]);
                assert(binds(init, k));
                assert(binds(rest, k));
                let v = choose|j: int| 0 <= j < rest.len() && rest[j].0@ == k;
                assert(out[v] == rest[v]);
            } else {
                assert(out[out.len() - 1] == last);
            }
        }
        assert forall|k: Seq<char>| #[trigger] binds(out, k) implies binds(imported, k) by {
            let v = choose|j: int| 0 <= j < out.len() && out[j].0@ == k;
            if v < rest.len() {
                assert(out[v] == rest[v]);
                assert(binds(rest, k));
                assert(binds(init, k));
                let w = choose|j: int| 0 <= j < init.len() && init[j].0@ == k;
                assert(imported[w] == init[w]);
            } else {
                assert(imported[imported.len() - 1] == last);
            }
        }
        if unique_binding_keys(imported) {
            assert(unique_binding_keys(init)) by {
                assert forall|i: int, j: int| 0 <= i < init.len() && 0 <= j < init.len() && i != j implies init[i].0@ != init[j].0@ by {
                    assert(init[i] == imported[i]);
                    assert(init[j] == imported[j]);
                }
            }
            assert forall|i: int, j: int| 0 <= i < out.len() && 0 <= j < out.len() && i != j implies out[i].0@ != out[j].0@ by {
                if i < rest.len() && j < rest.len() {
                    assert(out[i] == rest[i]);
                    assert(out[j] == rest[j]);
                } else if i < rest.len() {
                    assert(out[i] == rest[i]);
                    assert(out[j] == last);
                    if out[i].0@ == last.0@ {
                        assert(binds(rest, last.0@));
                        assert(binds(init, last.0@));
                        let w = choose|x: int| 0 <= x < init.len() && init[x].0@ == last.0@;
                        assert(imported[w] == init[w]);
                    }
                } else if j < rest.len() {
                    assert(out[j] == rest[j]);
                    assert(out[i] == last);
                    if out[j].0@ == last.0@ {
                        assert(binds(rest, last.0@));
                        assert(binds(init, last.0@));
                        let w = choose|x: int| 0 <= x < init.len() && init[x].0@ == last.0@;
                        assert(imported[w] == init[w]);
                    }
                }
            }
        }
    }
}

/// Merging a definition with the one it imports keeps every term once,
/// bound to the definition that wins: when each definition binds each term
/// once, so do the merged bindings; they bind exactly the terms of either
/// definition; and a term of the importing definition comes from it.
pub proof fn lemma_merged_terms_once(base: ContextDefinition, imported: ContextDefinition)
    requires
        unique_binding_keys(base.bindings@),
        unique_binding_keys(imported.bindings@),
    ensures
        unique_binding_keys(merged_bindings(base, Some(imported))),
        forall|k: Seq<char>| #[trigger] binds(merged_bindings(base, Some(imported)), k) <==> binds(base.bindings@, k) || binds(imported.bindings@, k),
        forall|i: int| 0 <= i < merged_bindings(base, Some(imported)).len() && binds(base.bindings@, #[trigger] merged_bindings(base, Some(imported))[i].0@)
            ==> base.bindings@.contains(merged_bindings(base, Some(imported))[i]),
{
    let b = base.bindings@;
    let sv = surviving(imported.bindings@, b);
    let m = merged_bindings(base, Some(imported));
    lemma_surviving_members(imported.bindings@, b);
    assert(m == sv + b);
    assert forall|i: int, j: int| 0 <= i < m.len() && 0 <= j < m.len() && i != j implies m[i].0@ != m[j].0@ by {
        if i < sv.len() && j >= sv.len() {
            assert(m[j] == b[j - sv.len()]);
            assert(!binds(b, m[i].0@));
        } else if j < sv.len() && i >= sv.len() {
            assert(m[i] == b[i - sv.len()]);
            assert(!binds(b, m[j].0@));
        } else if i >= sv.len() && j >= sv.len() {
            assert(m[i] == b[i - sv.len()]);
            assert(m[j] == b[j - sv.len()]);
        } else {
            assert(m[i] == sv[i]);
            assert(m[j] == sv[j]);
        }
    }
    assert forall|k: Seq<char>| #[trigger] binds(m, k) <==> binds(b, k) || binds(imported.bindings@, k) by {
        if binds(m, k) {
            let v = choose|j: int| 0 <= j < m.len() && m[j].0@ == k;
            if v < sv.len() {
                assert(m[v] == sv[v]);
                assert(binds(sv, k));
            } else {
                assert(m[v] == b[v - sv.len()]);
            }
        }
        if binds(b, k) {
            let w = choose|j: int| 0 <= j < b.len() && b[j].0@ == k;
            assert(m[w + sv.len()] == b[w]);
        } else if binds(imported.bindings@, k) {
            assert(binds(sv, k));
            let w = choose|j: int| 0 <= j < sv.len() && sv[j].0@ == k;
            assert(m[w] == sv[w]);
        }
    }
    assert forall|i: int| 0 <= i < m.len() && binds(b, #[trigger] m[i].0@) implies b.contains(m[i]) by {
        if i < sv.len() {
            assert(m[i] == sv[i]);
        } else {
            assert(m[i] == b[i - sv.len()]);
        }
    }
}

} // verus!

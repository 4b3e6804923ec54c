//! Memoization of processed contexts: a result is served again only for
//! the very inputs it was computed from.
use vstd::prelude::*;
use std::collections::HashMap;
use crate::context::{agree_modulo_protected, opt_term_view, opt_view, same_context, Context};
use crate::inverse::{term_eq, term_view};
use crate::local::{clone_local_context, local_context_eq, local_view, opt_string_eq, LocalContext, LocalView};
use crate::process::Options;

verus! {

broadcast use vstd::std_specs::hash::group_hash_axioms;

fn opt_term_eq(a: Option<&crate::id::TermBuf>, b: Option<&crate::id::TermBuf>) -> (r: bool)
    ensures
        r == (match a {
            Some(x) => Some(term_view(*x)),
            None => None,
        } == match b {
            Some(x) => Some(term_view(*x)),
            None => None,
        }),
{
    match (a, b) {
        (Some(x), Some(y)) => term_eq(x, y),
        (None, None) => true,
        _ => false,
    }
}

fn opt_ref_string_eq(a: Option<&String>, b: Option<&String>) -> (r: bool)
    ensures
        r == (match a {
            Some(x) => Some(x@),
            None => None,
        } == match b {
            Some(x) => Some(x@),
            None => None,
        }),
{
    match (a, b) {
        (Some(x), Some(y)) => *x == *y,
        (None, None) => true,
        _ => false,
    }
}

/// Whether two active contexts have the same definitions and settings;
/// scoped contexts of definitions are compared as written, and the
/// contexts to revert to in the same way.
pub fn same_context_exec(a: &Context, b: &Context) -> (r: bool)
    ensures
        r == same_context(*a, *b),
    decreases a,
{
    let n = a.len();
    if n != b.len() {
        return false;
    }
    let mut i: usize = 0;
    while i < n
        invariant
            n == a.defs().len(),
            n == b.defs().len(),
            i <= n,
            forall|j: int|
                0 <= j < i ==> (#[trigger] a.defs()[j]).0@ == b.defs()[j].0@ && agree_modulo_protected(
                    a.defs()[j].1,
                    b.defs()[j].1,
                ) && a.defs()[j].1.protected == b.defs()[j].1.protected,
        decreases n - i,
    {
        let (ka, da) = a.definition_at(i);
        let (kb, db) = b.definition_at(i);
        if !(*ka == *kb && da.same_modulo_protected(db) && da.protected == db.protected) {
            proof {
                assert(!((a.defs()[i as int]).0@ == b.defs()[i as int].0@ && agree_modulo_protected(
                    a.defs()[i as int].1,
                    b.defs()[i as int].1,
                ) && a.defs()[i as int].1.protected == b.defs()[i as int].1.protected));
            }
            return false;
        }
        i = i + 1;
    }
    let types = match (a.get_type(), b.get_type()) {
        (Some(x), Some(y)) => x.container_set == y.container_set && x.protected == y.protected,
        (None, None) => true,
        _ => false,
    };
    types && a.processing_mode() == b.processing_mode() && opt_ref_string_eq(a.original_base_url(), b.original_base_url())
        && opt_ref_string_eq(a.base_iri(), b.base_iri()) && opt_term_eq(a.vocabulary(), b.vocabulary())
        && opt_ref_string_eq(a.default_language(), b.default_language())
        && a.default_base_direction() == b.default_base_direction() && match (a.previous_context(), b.previous_context()) {
        (Some(x), Some(y)) => {
            proof {
                crate::context::lemma_previous_decreases(*a);
            }
            same_context_exec(x, y)
        },
        (None, None) => true,
        _ => false,
    }
}

/// One memoized result with the inputs it was computed from.
pub struct CacheEntry {
    active: Context,
    local: LocalContext,
    base_url: Option<String>,
    options: Options,
    result: Context,
}

/// What a cache entry records of its inputs: the active context, the local
/// context as written, the base URL and the options.
pub closed spec fn entry_inputs(e: CacheEntry) -> (Context, LocalView, Option<Seq<char>>, Options) {
    (e.active, local_view(e.local), opt_view(e.base_url), e.options)
}

/// The memoized result of an entry.
pub closed spec fn entry_result(e: CacheEntry) -> Context {
    e.result
}

/// Whether `inputs` are the given inputs: the same active context, local
/// context, base URL and options.
pub open spec fn same_inputs(
    inputs: (Context, LocalView, Option<Seq<char>>, Options),
    active: Context,
    local: LocalView,
    base_url: Option<Seq<char>>,
    options: Options,
) -> bool {
    &&& same_context(inputs.0, active)
    &&& inputs.1 == local
    &&& inputs.2 == base_url
    &&& inputs.3 == options
}

/// Cache of processed contexts, keyed by a hash of the inputs; every hit
/// is checked against the inputs themselves, so colliding keys read as
/// misses. Entries are never evicted.
pub struct ProcessingCache {
    entries: HashMap<u64, CacheEntry>,
}

impl ProcessingCache {
    /// The keys holding an entry.
    pub closed spec fn keys(self) -> Set<u64> {
        self.entries@.dom()
    }

    /// The inputs recorded under `key`.
    pub closed spec fn inputs_at(self, key: u64) -> (Context, LocalView, Option<Seq<char>>, Options) {
        entry_inputs(self.entries@[key])
    }

    /// The context memoized under `key`.
    pub closed spec fn result_at(self, key: u64) -> Context {
        entry_result(self.entries@[key])
    }

    /// What a lookup of `key` with the given inputs finds: the memoized
    /// context when `key` holds an entry with these very inputs.
    pub open spec fn lookup(self, key: u64, active: Context, local: LocalView, base_url: Option<Seq<char>>, options: Options) -> Option<Context> {
        if self.keys().contains(key) && same_inputs(self.inputs_at(key), active, local, base_url, options) {
            Some(self.result_at(key))
        } else {
            None
        }
    }

    /// An empty cache.
    pub fn new() -> (c: Self)
        ensures
            c.keys() == Set::<u64>::empty(),
    {
        ProcessingCache { entries: HashMap::new() }
    }

    /// Discards every memoized context.
    pub fn clear(&mut self)
        ensures
            final(self).keys() == Set::<u64>::empty(),
    {
        self.entries.clear();
    }

    /// The number of memoized contexts.
    pub fn len(&self) -> (n: usize)
        ensures
            n == self.keys().len(),
    {
        self.entries.len()
    }

    /// Whether nothing is memoized.
    pub fn is_empty(&self) -> (b: bool)
        ensures
            b == (self.keys().len() == 0),
    {
        self.entries.len() == 0
    }

    /// The result memoized under `key`, if its inputs are the given ones: a
    /// colliding key with other inputs is a miss.
    pub fn get(&self, key: u64, active: &Context, local: &LocalContext, base_url: &Option<String>, options: Options) -> (r: Option<&Context>)
        ensures
            match self.lookup(key, *active, local_view(*local), opt_view(*base_url), options) {
                Some(c) => r == Some(&c),
                None => r is None,
            },
    {
        match self.entries.get(&key) {
            Some(entry) => {
                if same_context_exec(&entry.active, active) && local_context_eq(&entry.local, local)
                    && opt_string_eq(&entry.base_url, base_url) && entry.options == options {
                    Some(&entry.result)
                } else {
                    None
                }
            },
            None => None,
        }
    }

    /// Memoizes `result` under `key` with the inputs it was computed from;
    /// an entry already under `key` is replaced, and the others are kept.
    pub fn insert(&mut self, key: u64, active: &Context, local: &LocalContext, base_url: &Option<String>, options: Options, result: Context)
        ensures
            final(self).keys() == old(self).keys().insert(key),
            same_inputs(final(self).inputs_at(key), *active, local_view(*local), opt_view(*base_url), options),
            final(self).result_at(key) == result,
            final(self).lookup(key, *active, local_view(*local), opt_view(*base_url), options) == Some(result),
            forall|k: u64| k != key ==> #[trigger] final(self).inputs_at(k) == old(self).inputs_at(k) && final(self).result_at(k)
                == old(self).result_at(k),
    {
        let entry = CacheEntry {
            active: active.duplicate(),
            local: clone_local_context(local),
            base_url: crate::local::clone_opt_string(base_url),
            options,
            result,
        };
        self.entries.insert(key, entry);
    }
}

} // verus!

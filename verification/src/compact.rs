//! IRI compaction: the shortest key that expands back to an IRI under an
//! active context.
use vstd::prelude::*;
use vstd::utf8::encode_utf8;
use crate::container::Container;
use crate::context::{Context, NormalTermDefinition, type_key};
use crate::id::{Id, Term, TermBuf, ValidId, term_text};
use crate::inverse::{key_maps, lemma_select_sound, InverseContext, Selection, TypeSelection, select_spec, selection_view, term_eq, term_lt, term_view, defaults_of, TermView};
use crate::iri::{iri_relative_to, iri_valid, is_iri, relative_to};
use crate::order::{shortlex_less, lemma_shortlex_order};
use crate::syntax::{is_keyword, is_keyword_like, is_keyword_like_spec, is_keyword_spec, ProcessingMode};
use crate::text::{chars_of, find_char, first_index, is_prefix, push_char, slice_vec, starts_with, string_of};
use crate::value::SyntaxType;

verus! {

broadcast use vstd::string::group_string_axioms;

/// An IRI cannot be written out because it would be read back as a compact
/// IRI: its scheme is a term of the active context.
#[derive(Debug, Clone, Copy)]
pub struct IriConfusedWithPrefix;

/// Checks whether the candidate compact IRI is a better choice than the
/// current best: shorter, or of the same length and byte-wise less.
pub fn candidate_beats(candidate: &str, current: &str) -> (b: bool)
    ensures
        b == term_lt(candidate@, current@),
{
    shortlex_less(candidate.as_bytes(), current.as_bytes())
}

/// Whether `key` has a definition in `ctx`.
pub open spec fn defined(ctx: Context, key: Seq<char>) -> bool {
    if key == type_key() { ctx.type_def() is Some } else { ctx.lookup(key) is Some }
}

/// The suffix of `var` after the vocabulary mapping of `ctx`, when `var`
/// extends it and the suffix is not itself a defined term.
pub open spec fn vocab_suffix(ctx: Context, var: Seq<char>) -> Option<Seq<char>> {
    match ctx.vocab() {
        Some(vm) => {
            let m = term_text(vm);
            if is_prefix(m, var) && var.len() > m.len() && !defined(ctx, var.subrange(m.len() as int, var.len() as int)) {
                Some(var.subrange(m.len() as int, var.len() as int))
            } else {
                None
            }
        },
        None => None,
    }
}

/// Whether a compact IRI candidate may be used: it is not a defined term,
/// or it is one that maps to `var` itself and no value is being compacted.
pub open spec fn candidate_ok(ctx: Context, var: TermBuf, no_value: bool, cand: Seq<char>) -> bool {
    match ctx.lookup(cand) {
        None => true,
        Some(d) => (d.value matches Some(v) && term_view(v) == term_view(var)) && no_value,
    }
}

/// The compact IRI the definition `e` offers for `var`, if it is a prefix
/// whose mapping `var` strictly extends.
pub open spec fn offered(e: (String, NormalTermDefinition), var: Seq<char>) -> Option<Seq<char>> {
    if e.1.prefix && e.1.value is Some {
        let m = term_text(e.1.value.unwrap());
        if is_prefix(m, var) && var.len() > m.len() {
            Some(e.0@ + seq![':'] + var.subrange(m.len() as int, var.len() as int))
        } else {
            None
        }
    } else {
        None
    }
}

/// The best compact IRI for `var` among the definitions `defs`: the
/// preferred one among the usable offers.
pub open spec fn best_compact(defs: Seq<(String, NormalTermDefinition)>, ctx: Context, var: TermBuf, no_value: bool) -> Option<Seq<char>>
    decreases defs.len(),
{
    if defs.len() == 0 {
        None
    } else {
        let held = best_compact(defs.drop_last(), ctx, var, no_value);
        match offered(defs.last(), term_text(var)) {
            Some(cand) => if candidate_ok(ctx, var, no_value, cand) && (held is None || term_lt(cand, held.unwrap())) {
                Some(cand)
            } else {
                held
            },
            None => held,
        }
    }
}

/// The IRI `var` stands for, if it is one.
pub open spec fn iri_of(var: TermBuf) -> Option<Seq<char>> {
    match var {
        Term::Id(Id::Valid(ValidId::Iri(i))) => Some(i@),
        _ => None,
    }
}

/// The scheme of an IRI: the characters before its first colon.
pub open spec fn scheme_of(iri: Seq<char>) -> Option<Seq<char>> {
    match first_index(iri, ':') {
        Some(i) => Some(iri.subrange(0, i)),
        None => None,
    }
}

/// The last `/`-separated segment of `s`.
pub open spec fn last_segment(s: Seq<char>) -> Seq<char>
    decreases s.len(),
{
    if s.len() == 0 {
        s
    } else if s.last() == '/' {
        Seq::empty()
    } else {
        last_segment(s.drop_last()).push(s.last())
    }
}

/// `s`, prefixed with `./` when it would otherwise read as a keyword.
pub open spec fn disambiguated(s: Seq<char>) -> Seq<char> {
    if is_keyword_like_spec(s) && !is_keyword_spec(s) { seq!['.', '/'] + s } else { s }
}

/// The relative reference `var` compacts to against `base`.
pub open spec fn relative_form(iri: Seq<char>, base: Seq<char>) -> Seq<char> {
    let rel = iri_relative_to(iri, base);
    if rel.len() == 0 {
        if last_segment(base).len() > 0 { last_segment(base) } else { seq!['.', '/'] }
    } else {
        rel
    }
}

/// What compaction makes of `var` when no term of the inverse context was
/// selected.
pub open spec fn fallback_spec(ctx: Context, var: TermBuf, no_value: bool, vocab: bool) -> Result<Option<Seq<char>>, ()> {
    let text = term_text(var);
    if vocab && vocab_suffix(ctx, text) is Some {
        Ok(vocab_suffix(ctx, text))
    } else if best_compact(ctx.defs(), ctx, var, no_value) is Some {
        Ok(best_compact(ctx.defs(), ctx, var, no_value))
    } else if iri_of(var) is Some && iri_valid(iri_of(var).unwrap())
        && scheme_of(iri_of(var).unwrap()) is Some && defined(ctx, scheme_of(iri_of(var).unwrap()).unwrap()) {
        Err(())
    } else if !vocab && ctx.base() is Some && iri_of(var) is Some {
        let b = ctx.base().unwrap()@;
        let i = iri_of(var).unwrap();
        if iri_valid(i) && iri_valid(b) {
            Ok(Some(disambiguated(relative_form(i, b))))
        } else {
            Ok(None)
        }
    } else {
        Ok(Some(text))
    }
}

/// The compact IRI the definition `e` offers for `var` when it may be used.
pub open spec fn usable_offer(e: (String, NormalTermDefinition), ctx: Context, var: TermBuf, no_value: bool) -> Option<Seq<char>> {
    match offered(e, term_text(var)) {
        Some(cand) => if candidate_ok(ctx, var, no_value, cand) {
            Some(cand)
        } else {
            None
        },
        None => None,
    }
}

/// The compact IRI built from prefix terms is the shortest, then byte-wise
/// least, of all usable offers: there is none exactly when no definition
/// offers a usable one, and otherwise it is the offer of some definition
/// and no usable offer is preferred over it.
pub proof fn lemma_best_compact_is_min(defs: Seq<(String, NormalTermDefinition)>, ctx: Context, var: TermBuf, no_value: bool)
    ensures
        best_compact(defs, ctx, var, no_value) is None <==> !exists|i: int| 0 <= i < defs.len() && (#[trigger] usable_offer(defs[i], ctx, var, no_value)) is Some,
        best_compact(defs, ctx, var, no_value) matches Some(k) ==> (exists|i: int| 0 <= i < defs.len() && #[trigger] usable_offer(defs[i], ctx, var, no_value) == Some(k)),
        best_compact(defs, ctx, var, no_value) matches Some(k) ==> (forall|j: int| 0 <= j < defs.len() && (#[trigger] usable_offer(defs[j], ctx, var, no_value)) is Some ==> !term_lt(usable_offer(defs[j], ctx, var, no_value)->0, k)),
    decreases defs.len(),
{
    if defs.len() > 0 {
        let p = defs.drop_last();
        lemma_best_compact_is_min(p, ctx, var, no_value);
        let last = defs.last();
        assert(forall|j: int| 0 <= j < p.len() ==> p[j] == defs[j]);
        assert(usable_offer(defs[defs.len() - 1], ctx, var, no_value) == usable_offer(last, ctx, var, no_value));
        match usable_offer(last, ctx, var, no_value) {
            Some(k) => {
                lemma_shortlex_order(encode_utf8(k), encode_utf8(k), encode_utf8(k));
                match best_compact(p, ctx, var, no_value) {
                    None => {
                        assert forall|j: int| 0 <= j < defs.len() && (#[trigger] usable_offer(defs[j], ctx, var, no_value)) is Some implies !term_lt(usable_offer(defs[j], ctx, var, no_value)->0, k) by {
                            if j < defs.len() - 1 {
                                assert(usable_offer(p[j], ctx, var, no_value) is Some);
                            }
                        }
                    },
                    Some(h) => {
                        if term_lt(k, h) {
                            assert forall|j: int| 0 <= j < defs.len() && (#[trigger] usable_offer(defs[j], ctx, var, no_value)) is Some implies !term_lt(usable_offer(defs[j], ctx, var, no_value)->0, k) by {
                                if j < defs.len() - 1 {
                                    assert(usable_offer(p[j], ctx, var, no_value) is Some);
                                    let o = usable_offer(defs[j], ctx, var, no_value)->0;
                                    assert(!term_lt(o, h));
                                    lemma_shortlex_order(encode_utf8(o), encode_utf8(k), encode_utf8(h));
                                }
                            }
                        } else {
                            let i = choose|i: int| 0 <= i < p.len() && #[trigger] usable_offer(p[i], ctx, var, no_value) == Some(h);
                            assert(defs[i] == p[i]);
                            assert forall|j: int| 0 <= j < defs.len() && (#[trigger] usable_offer(defs[j], ctx, var, no_value)) is Some implies !term_lt(usable_offer(defs[j], ctx, var, no_value)->0, h) by {
                                if j < defs.len() - 1 {
                                    assert(usable_offer(p[j], ctx, var, no_value) is Some);
                                }
                            }
                        }
                    },
                }
            },
            None => {
                if exists|i: int| 0 <= i < defs.len() && (#[trigger] usable_offer(defs[i], ctx, var, no_value)) is Some {
                    let i = choose|i: int| 0 <= i < defs.len() && (#[trigger] usable_offer(defs[i], ctx, var, no_value)) is Some;
                    assert(i < defs.len() - 1);
                    assert(usable_offer(p[i], ctx, var, no_value) is Some);
                }
                if let Some(k) = best_compact(p, ctx, var, no_value) {
                    let i = choose|i: int| 0 <= i < p.len() && #[trigger] usable_offer(p[i], ctx, var, no_value) == Some(k);
                    assert(defs[i] == p[i]);
                    assert forall|j: int| 0 <= j < defs.len() && (#[trigger] usable_offer(defs[j], ctx, var, no_value)) is Some implies !term_lt(usable_offer(defs[j], ctx, var, no_value)->0, k) by {
                        if j < defs.len() - 1 {
                            assert(usable_offer(p[j], ctx, var, no_value) is Some);
                        }
                    }
                }
            },
        }
    }
}

/// Prefixes `./` to a relative IRI reference that would otherwise be read
/// back as a keyword.
pub fn disambiguate_keyword(s: String) -> (r: String)
    ensures
        r@ == disambiguated(s@),
{
    let chars = chars_of(s.as_str());
    if is_keyword_like(chars.as_slice()) && !is_keyword(chars.as_slice()) {
        let mut out = String::new();
        push_char(&mut out, '.');
        push_char(&mut out, '/');
        let mut i: usize = 0;
        while i < chars.len()
            invariant
                i <= chars@.len(),
                out@ == seq!['.', '/'] + chars@.subrange(0, i as int),
            decreases chars@.len() - i,
        {
            push_char(&mut out, chars[i]);
            proof {
                assert(chars@.subrange(0, i + 1) =~= chars@.subrange(0, i as int).push(chars@[i as int]));
                assert(seq!['.', '/'] + chars@.subrange(0, i + 1) =~= (seq!['.', '/'] + chars@.subrange(0, i as int)).push(chars@[i as int]));
            }
            i = i + 1;
        }
        proof {
            assert(chars@.subrange(0, chars@.len() as int) =~= chars@);
        }
        out
    } else {
        s
    }
}

/// The last `/`-separated segment of `s`.
fn last_segment_of(s: &[char]) -> (r: Vec<char>)
    ensures
        r@ == last_segment(s@),
{
    let mut i = s.len();
    proof {
        assert(s@.subrange(0, s@.len() as int) =~= s@);
        assert(last_segment(s@) + s@.subrange(s@.len() as int, s@.len() as int) =~= last_segment(s@));
    }
    while i > 0 && s[i - 1] != '/'
        invariant
            i <= s@.len(),
            last_segment(s@) == last_segment(s@.subrange(0, i as int)) + s@.subrange(i as int, s@.len() as int),
        decreases i,
    {
        proof {
            let p = s@.subrange(0, i as int);
            assert(p.drop_last() =~= s@.subrange(0, i - 1));
            assert(p.last() == s@[i - 1]);
            assert(last_segment(s@.subrange(0, i - 1)).push(s@[i - 1]) + s@.subrange(i as int, s@.len() as int)
                =~= last_segment(s@.subrange(0, i - 1)) + s@.subrange(i - 1, s@.len() as int));
        }
        i = i - 1;
    }
    proof {
        let p = s@.subrange(0, i as int);
        if i > 0 {
            assert(p.last() == '/');
        }
        assert(last_segment(p).len() == 0);
        assert(last_segment(s@) =~= s@.subrange(i as int, s@.len() as int));
    }
    slice_vec(s, i, s.len())
}

/// Runs the tail of IRI compaction on `var`, when no term of the inverse
/// context was selected.
///
/// Tries, in order: a suffix relative to the vocabulary mapping, the best
/// compact IRI built from a prefix term, then either an IRI reference
/// relative to the base IRI (when `vocab` is false) or `var` written out in
/// full.
pub fn compact_iri_fallback(ctx: &Context, var: &TermBuf, no_value: bool, vocab: bool) -> (r: Result<Option<String>, IriConfusedWithPrefix>)
    ensures
        match (r, fallback_spec(*ctx, *var, no_value, vocab)) {
            (Ok(Some(s)), Ok(Some(t))) => s@ == t,
            (Ok(None), Ok(None)) => true,
            (Err(_), Err(_)) => true,
            _ => false,
        },
{
    let var_text = chars_of(var.as_str());
    let ghost text = term_text(*var);
    if vocab {
        if let Some(vm) = ctx.vocabulary() {
            let m = chars_of(vm.as_str());
            if starts_with(var_text.as_slice(), m.as_slice()) && var_text.len() > m.len() {
                let suffix = slice_vec(var_text.as_slice(), m.len(), var_text.len());
                if !ctx.contains_term(suffix.as_slice()) {
                    return Ok(Some(string_of(suffix.as_slice())));
                }
            }
        }
    }
    let best = best_compact_iri(ctx, var, var_text.as_slice(), no_value);
    if let Some(c) = best {
        return Ok(Some(c));
    }
    if let Term::Id(Id::Valid(ValidId::Iri(iri))) = var {
        if is_iri(iri.as_str()) {
            let iri_chars = chars_of(iri.as_str());
            if let Some(colon) = find_char(iri_chars.as_slice(), ':') {
                let scheme = slice_vec(iri_chars.as_slice(), 0, colon);
                if ctx.contains_term(scheme.as_slice()) {
                    return Err(IriConfusedWithPrefix);
                }
            }
        }
    }
    if !vocab {
        if let Some(base) = ctx.base_iri() {
            if let Term::Id(Id::Valid(ValidId::Iri(iri))) = var {
                if !is_iri(iri.as_str()) || !is_iri(base.as_str()) {
                    return Ok(None);
                }
                let rel = relative_to(iri.as_str(), base.as_str());
                let out = if rel.as_str().is_empty() {
                    let base_chars = chars_of(base.as_str());
                    let seg = last_segment_of(base_chars.as_slice());
                    if seg.len() > 0 {
                        string_of(seg.as_slice())
                    } else {
                        let mut dot = String::new();
                        push_char(&mut dot, '.');
                        push_char(&mut dot, '/');
                        proof { assert(dot@ =~= seq!['.', '/']); }
                        dot
                    }
                } else {
                    rel
                };
                return Ok(Some(disambiguate_keyword(out)));
            }
        }
    }
    Ok(Some(string_of(var_text.as_slice())))
}

/// The best compact IRI for `var` built from a prefix term of `ctx`.
fn best_compact_iri(ctx: &Context, var: &TermBuf, var_text: &[char], no_value: bool) -> (r: Option<String>)
    requires
        var_text@ == term_text(*var),
    ensures
        match r {
            Some(s) => best_compact(ctx.defs(), *ctx, *var, no_value) == Some(s@),
            None => best_compact(ctx.defs(), *ctx, *var, no_value) is None,
        },
{
    let ghost defs = ctx.defs();
    let n = ctx.len();
    let mut best: Option<String> = None;
    let mut i: usize = 0;
    while i < n
        invariant
            i <= n,
            n == defs.len(),
            defs == ctx.defs(),
            var_text@ == term_text(*var),
            match best {
                Some(s) => best_compact(defs.subrange(0, i as int), *ctx, *var, no_value) == Some(s@),
                None => best_compact(defs.subrange(0, i as int), *ctx, *var, no_value) is None,
            },
        decreases n - i,
    {
        let (key, def) = ctx.definition_at(i);
        proof {
            assert(defs.subrange(0, i + 1).drop_last() =~= defs.subrange(0, i as int));
            assert(defs.subrange(0, i + 1).last() == (*key, *def));
        }
        if def.prefix {
            if let Some(mapping) = &def.value {
                let m = chars_of(mapping.as_str());
                if starts_with(var_text, m.as_slice()) && var_text.len() > m.len() {
                    let suffix = slice_vec(var_text, m.len(), var_text.len());
                    let mut cand_chars = chars_of(key.as_str());
                    cand_chars.push(':');
                    let mut j: usize = 0;
                    while j < suffix.len()
                        invariant
                            j <= suffix@.len(),
                            cand_chars@ == key@ + seq![':'] + suffix@.subrange(0, j as int),
                        decreases suffix@.len() - j,
                    {
                        cand_chars.push(suffix[j]);
                        proof {
                            assert(suffix@.subrange(0, j + 1) =~= suffix@.subrange(0, j as int).push(suffix@[j as int]));
                            assert(key@ + seq![':'] + suffix@.subrange(0, j + 1) =~= (key@ + seq![':'] + suffix@.subrange(0, j as int)).push(suffix@[j as int]));
                        }
                        j = j + 1;
                    }
                    proof {
                        assert(suffix@.subrange(0, suffix@.len() as int) =~= suffix@);
                    }
                    let candidate = string_of(cand_chars.as_slice());
                    let beats = match &best {
                        Some(current) => candidate_beats(candidate.as_str(), current.as_str()),
                        None => true,
                    };
                    if beats {
                        let ok = match ctx.get_normal(cand_chars.as_slice()) {
                            None => true,
                            Some(d) => match &d.value {
                                Some(v) => term_eq(v, var) && no_value,
                                None => false,
                            },
                        };
                        if ok {
                            best = Some(candidate);
                        }
                    }
                }
            }
        }
        i = i + 1;
    }
    proof {
        assert(defs.subrange(0, n as int) =~= defs);
    }
    best
}

/// Whether some definition of `ctx` has the IRI mapping `var`.
pub open spec fn maps_to(ctx: Context, var: TermView) -> bool {
    exists|i: int| 0 <= i < ctx.defs().len() && #[trigger] has_mapping(ctx.defs()[i], var)
}

/// Whether the definition `e` has the IRI mapping `var`.
pub open spec fn has_mapping(e: (String, NormalTermDefinition), var: TermView) -> bool {
    e.1.value matches Some(v) && term_view(v) == var
}

/// The containers preferred for a key compacted without a value.
pub open spec fn keyless_containers(reverse: bool, mode: ProcessingMode) -> Seq<Container> {
    let head = if reverse {
        seq![Container::SetOnly, Container::Empty]
    } else {
        seq![Container::Id, Container::IdSet, Container::Type, Container::SetType, Container::SetOnly, Container::Empty]
    };
    if mode != ProcessingMode::JsonLd1_0 { head + seq![Container::Index, Container::IndexSet] } else { head }
}

/// The type criteria preferred for a key compacted without a value.
pub open spec fn keyless_selection(reverse: bool) -> Seq<TypeSelection> {
    if reverse {
        seq![TypeSelection::Reverse, TypeSelection::Reverse, TypeSelection::Type(SyntaxType::Nothing), TypeSelection::Any]
    } else {
        seq![TypeSelection::Type(SyntaxType::Id), TypeSelection::Type(SyntaxType::Nothing), TypeSelection::Any]
    }
}

pub(crate) fn maps_to_exec(ctx: &Context, var: &TermBuf) -> (b: bool)
    ensures
        b == maps_to(*ctx, term_view(*var)),
{
    let n = ctx.len();
    let mut i: usize = 0;
    while i < n
        invariant
            i <= n,
            n == ctx.defs().len(),
            forall|j: int| 0 <= j < i ==> !has_mapping(#[trigger] ctx.defs()[j], term_view(*var)),
        decreases n - i,
    {
        let (_, def) = ctx.definition_at(i);
        if let Some(v) = &def.value {
            if term_eq(v, var) {
                proof { assert(has_mapping(ctx.defs()[i as int], term_view(*var))); }
                return true;
            }
        }
        i = i + 1;
    }
    false
}

/// Runs the IRI compaction algorithm on `var` with no value: the shortest
/// key that expands back to `var` under `ctx`. This is how keys, `@type`
/// values and `@id` values are compacted.
///
/// `vocab` says the result is used where `@vocab` applies; `reverse` that
/// `var` is compacted as a reverse property. The processing mode matters:
/// an `@index` container term is only eligible for an index-less value
/// under JSON-LD 1.1.
pub fn compact_iri(ctx: &Context, var: &TermBuf, vocab: bool, reverse: bool, mode: ProcessingMode) -> (r: Result<Option<String>, IriConfusedWithPrefix>)
    ensures
        match (r, compact_iri_spec(*ctx, *var, vocab, reverse, mode)) {
            (Ok(Some(s)), Ok(Some(t))) => s@ == t,
            (Ok(None), Ok(None)) => true,
            (Err(_), Err(_)) => true,
            _ => false,
        },
{
    if var.is_null() {
        return Ok(None);
    }
    if vocab && maps_to_exec(ctx, var) {
        let inverse = InverseContext::from_context(ctx);
        let mut containers: Vec<Container> = Vec::new();
        let mut prefs: Vec<TypeSelection> = Vec::new();
        if reverse {
            containers.push(Container::SetOnly);
            prefs.push(TypeSelection::Reverse);
            prefs.push(TypeSelection::Reverse);
        } else {
            containers.push(Container::Id);
            containers.push(Container::IdSet);
            containers.push(Container::Type);
            containers.push(Container::SetType);
            containers.push(Container::SetOnly);
            prefs.push(TypeSelection::Type(SyntaxType::Id));
        }
        containers.push(Container::Empty);
        if mode != ProcessingMode::JsonLd1_0 {
            containers.push(Container::Index);
            containers.push(Container::IndexSet);
        }
        prefs.push(TypeSelection::Type(SyntaxType::Nothing));
        prefs.push(TypeSelection::Any);
        proof {
            assert(containers@ =~= keyless_containers(reverse, mode));
            assert(prefs@.map_values(|t: TypeSelection| crate::inverse::type_selection_slot(t))
                =~= keyless_selection(reverse).map_values(|t: TypeSelection| crate::inverse::type_selection_slot(t)));
        }
        let selection = Selection::Type(prefs);
        match inverse.select(var, containers.as_slice(), &selection) {
            Some(term) => Ok(Some(term.clone())),
            None => compact_iri_fallback(ctx, var, true, vocab),
        }
    } else {
        compact_iri_fallback(ctx, var, true, vocab)
    }
}

/// What IRI compaction makes of `var` when no value is being compacted.
pub open spec fn compact_iri_spec(ctx: Context, var: TermBuf, vocab: bool, reverse: bool, mode: ProcessingMode) -> Result<Option<Seq<char>>, ()> {
    if var is Null {
        Ok(None)
    } else if vocab && maps_to(ctx, term_view(var)) {
        match select_spec(ctx.defs(), defaults_of(ctx), term_view(var), keyless_containers(reverse, mode),
            crate::inverse::SelectionView::Slots(keyless_selection(reverse).map_values(|t: TypeSelection| crate::inverse::type_selection_slot(t)))) {
            Some(t) => Ok(Some(t)),
            None => fallback_spec(ctx, var, true, vocab),
        }
    } else {
        fallback_spec(ctx, var, true, vocab)
    }
}


/// Compacting with `vocab` (a key, an `@type` value) never gives a reference
/// relative to the base IRI: the result is a term of the context whose IRI
/// mapping is `var`, the suffix after the `@vocab` mapping, a compact IRI
/// built from a prefix term, or the full text of `var`; and when no term
/// maps `var` and neither the suffix nor a compact IRI applies, it is the
/// full text (unless the IRI would be confused with a compact IRI).
pub proof fn lemma_vocab_compaction_is_never_relative(ctx: Context, var: TermBuf, reverse: bool, mode: ProcessingMode)
    ensures
        compact_iri_spec(ctx, var, true, reverse, mode) matches Ok(Some(s)) ==> s == term_text(var) || vocab_suffix(ctx, term_text(var))
            == Some(s) || best_compact(ctx.defs(), ctx, var, true) == Some(s) || exists|i: int| 0 <= i < ctx.defs().len()
            && #[trigger] key_maps(ctx.defs()[i], s, term_view(var)),
        !(var is Null) && !maps_to(ctx, term_view(var)) && vocab_suffix(ctx, term_text(var)) is None && best_compact(ctx.defs(), ctx, var, true)
            is None && compact_iri_spec(ctx, var, true, reverse, mode) is Ok ==> compact_iri_spec(ctx, var, true, reverse, mode) == Ok::<
            Option<Seq<char>>,
            (),
        >(Some(term_text(var))),
{
    if !(var is Null) && maps_to(ctx, term_view(var)) {
        lemma_select_sound(
            ctx.defs(),
            defaults_of(ctx),
            term_view(var),
            keyless_containers(reverse, mode),
            crate::inverse::SelectionView::Slots(keyless_selection(reverse).map_values(|t: TypeSelection| crate::inverse::type_selection_slot(t))),
        );
    }
}

} // verus!

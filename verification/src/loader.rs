//! Document loaders: their errors, the profiles of `application/ld+json`,
//! and the decisions of the chained and HTTP loaders. The loaders' own I/O
//! and waiting are left to the caller, which hands each outcome back.
use vstd::prelude::*;
use crate::iri::{iri_eq, iri_equivalent, iri_resolved, iri_ref_valid, iri_valid, is_iri, resolve_reference};
use crate::link::{Link, links_view, rel_key, type_key};
use crate::text::{bytes_eq, chars_of, string_of, utf8_text};
use vstd::utf8::{decode_utf8, encode_utf8};

verus! {

broadcast use vstd::string::group_string_axioms;

/// Loader that never loads anything: every load fails with [`CannotLoad`].
#[derive(Debug, Default)]
pub struct NoLoader;

/// Error raised by a loader that never loads anything.
#[derive(Debug)]
pub struct CannotLoad;

/// Error of a loader serving documents from a map, when the requested
/// document is not in it.
#[derive(Debug)]
pub struct EntryNotFound;

/// Loader that tries a first loader and falls back on a second one.
#[derive(Debug, Clone)]
pub struct ChainLoader<L1, L2>(pub L1, pub L2);

/// Combined error of two chained loaders: the second is only asked after
/// the first has failed, so a failure carries both errors.
#[derive(Debug)]
pub enum ChainError<A, B> {
    /// Both loaders failed.
    Both(A, B),
}

/// What a chained loader does once its first loader has answered.
pub enum ChainStep<D, E> {
    /// The first loader gave the document.
    Done(D),
    /// The first loader failed with this error: ask the second one.
    Fallback(E),
}

impl<L1, L2> ChainLoader<L1, L2> {
    /// Builds a chain loader.
    pub fn new(l1: L1, l2: L2) -> (c: Self)
        ensures
            c.0 == l1,
            c.1 == l2,
    {
        ChainLoader(l1, l2)
    }

    /// The decision after the first loader's answer: keep its document, or
    /// fall back on the second loader.
    pub fn after_first<D, E1>(first: Result<D, E1>) -> (s: ChainStep<D, E1>)
        ensures
            match first {
                Ok(d) => s == ChainStep::<D, E1>::Done(d),
                Err(e) => s == ChainStep::<D, E1>::Fallback(e),
            },
    {
        match first {
            Ok(d) => ChainStep::Done(d),
            Err(e) => ChainStep::Fallback(e),
        }
    }

    /// The outcome after the second loader's answer, the first having
    /// failed with `e1`.
    pub fn after_second<D, E1, E2>(e1: E1, second: Result<D, E2>) -> (r: Result<D, ChainError<E1, E2>>)
        ensures
            match second {
                Ok(d) => r == Ok::<D, ChainError<E1, E2>>(d),
                Err(e2) => r == Err::<D, ChainError<E1, E2>>(ChainError::Both(e1, e2)),
            },
    {
        match second {
            Ok(d) => Ok(d),
            Err(e2) => Err(ChainError::Both(e1, e2)),
        }
    }
}

/// A `profile` value of `application/ld+json` that the JSON-LD
/// specification registers.
#[derive(Debug, Clone, Copy, PartialEq, Eq, Structural, Hash)]
pub enum StandardProfile {
    /// Expanded document form.
    Expanded,
    /// Compacted document form.
    Compacted,
    /// A context document.
    Context,
    /// Flattened document form.
    Flattened,
    /// Framed document.
    Framed,
}

/// The IRI of a standard profile.
pub open spec fn standard_profile_iri(p: StandardProfile) -> Seq<char> {
    match p {
        StandardProfile::Expanded => "http://www.w3.org/ns/json-ld#expanded"@,
        StandardProfile::Compacted => "http://www.w3.org/ns/json-ld#compacted"@,
        StandardProfile::Context => "http://www.w3.org/ns/json-ld#context"@,
        StandardProfile::Flattened => "http://www.w3.org/ns/json-ld#flattened"@,
        StandardProfile::Framed => "http://www.w3.org/ns/json-ld#framed"@,
    }
}

/// Whether `iri` denotes the standard profile `p`.
pub open spec fn denotes(iri: Seq<char>, p: StandardProfile) -> bool {
    iri_valid(standard_profile_iri(p)) && iri_equivalent(iri, standard_profile_iri(p))
}

/// The standard profile that the IRI `iri` denotes, the profiles being
/// tried in the order of their declaration.
pub open spec fn standard_profile_of(iri: Seq<char>) -> Option<StandardProfile> {
    if denotes(iri, StandardProfile::Expanded) {
        Some(StandardProfile::Expanded)
    } else if denotes(iri, StandardProfile::Compacted) {
        Some(StandardProfile::Compacted)
    } else if denotes(iri, StandardProfile::Context) {
        Some(StandardProfile::Context)
    } else if denotes(iri, StandardProfile::Flattened) {
        Some(StandardProfile::Flattened)
    } else if denotes(iri, StandardProfile::Framed) {
        Some(StandardProfile::Framed)
    } else {
        None
    }
}

impl StandardProfile {
    /// The IRI that identifies this profile.
    pub fn iri(&self) -> (s: &'static str)
        ensures
            s@ == standard_profile_iri(*self),
    {
        match self {
            StandardProfile::Expanded => "http://www.w3.org/ns/json-ld#expanded",
            StandardProfile::Compacted => "http://www.w3.org/ns/json-ld#compacted",
            StandardProfile::Context => "http://www.w3.org/ns/json-ld#context",
            StandardProfile::Flattened => "http://www.w3.org/ns/json-ld#flattened",
            StandardProfile::Framed => "http://www.w3.org/ns/json-ld#framed",
        }
    }

    /// Whether the IRI `iri` denotes this profile.
    fn is_denoted_by(&self, iri: &str) -> (b: bool)
        requires
            iri_valid(iri@),
        ensures
            b == denotes(iri@, *self),
    {
        let own = self.iri();
        is_iri(own) && iri_eq(iri, own)
    }

    /// The standard profile that the IRI `iri` denotes, if any.
    pub fn from_iri(iri: &str) -> (r: Option<StandardProfile>)
        requires
            iri_valid(iri@),
        ensures
            r == standard_profile_of(iri@),
    {
        if StandardProfile::Expanded.is_denoted_by(iri) {
            Some(StandardProfile::Expanded)
        } else if StandardProfile::Compacted.is_denoted_by(iri) {
            Some(StandardProfile::Compacted)
        } else if StandardProfile::Context.is_denoted_by(iri) {
            Some(StandardProfile::Context)
        } else if StandardProfile::Flattened.is_denoted_by(iri) {
            Some(StandardProfile::Flattened)
        } else if StandardProfile::Framed.is_denoted_by(iri) {
            Some(StandardProfile::Framed)
        } else {
            None
        }
    }
}

/// A `profile` value of `application/ld+json`: a registered one, or any
/// other IRI.
#[derive(Debug, Clone, PartialEq, Eq, Hash)]
pub enum Profile {
    /// A profile registered by the JSON-LD specification.
    Standard(StandardProfile),
    /// Any other profile IRI.
    Custom(String),
}

/// The IRI of a profile.
pub open spec fn profile_iri(p: Profile) -> Seq<char> {
    match p {
        Profile::Standard(s) => standard_profile_iri(s),
        Profile::Custom(c) => c@,
    }
}

impl Profile {
    /// The profile that the IRI `iri` stands for: a registered one when it
    /// denotes one, else `iri` itself.
    pub fn new(iri: &str) -> (p: Profile)
        requires
            iri_valid(iri@),
        ensures
            match standard_profile_of(iri@) {
                Some(s) => p == Profile::Standard(s),
                None => p matches Profile::Custom(c) && c@ == iri@,
            },
    {
        match StandardProfile::from_iri(iri) {
            Some(p) => Profile::Standard(p),
            None => Profile::Custom(iri.to_string()),
        }
    }

    /// The IRI that identifies this profile.
    pub fn iri(&self) -> (s: &str)
        ensures
            s@ == profile_iri(*self),
    {
        match self {
            Profile::Standard(s) => s.iri(),
            Profile::Custom(c) => c.as_str(),
        }
    }
}

/// Why the HTTP loader failed, apart from the transport and the JSON
/// parser.
#[derive(Debug, Clone, Copy, PartialEq, Eq, Structural)]
pub enum FetchError {
    /// The loader followed as many `Link` headers as allowed without
    /// reaching a JSON-LD document.
    TooManyRedirections,
    /// The server answered with this non-success status code.
    QueryFailed(u16),
    /// The response is not JSON and points to no JSON-LD alternate.
    InvalidContentType,
    /// More than one `Link` header points at a JSON-LD context.
    MultipleContextLinkHeaders,
    /// The response body exceeds this limit, in bytes.
    TooLarge(usize),
}

/// A link's view: its target bytes and its parameters.
pub type LinkView = (Seq<u8>, Map<Seq<u8>, Seq<u8>>);

/// The `rel` value of a link to the context of a plain JSON document.
pub open spec fn context_rel() -> Seq<u8> {
    encode_utf8("http://www.w3.org/ns/json-ld#context"@)
}

/// The `rel` value of a link to an alternate representation.
pub open spec fn alternate_rel() -> Seq<u8> {
    encode_utf8("alternate"@)
}

/// The `type` value of a link to a JSON-LD document.
pub open spec fn ld_json_type() -> Seq<u8> {
    encode_utf8("application/ld+json"@)
}

/// Whether the link `l` has the parameter `key` set to `value`.
pub open spec fn has_param(l: LinkView, key: Seq<u8>, value: Seq<u8>) -> bool {
    l.1.contains_key(key) && l.1[key] == value
}

/// The absolute IRI that a link target names against the IRI `base`, if
/// it resolves to one.
pub open spec fn link_target(href: Seq<u8>, base: Seq<char>) -> Option<Seq<char>> {
    if iri_valid(base) {
        match iri_resolved(decode_utf8(href), base) {
            Some(r) => if iri_valid(r) {
                Some(r)
            } else {
                None
            },
            None => None,
        }
    } else {
        None
    }
}

/// The context that the links point a plain JSON document to, read in
/// order: a context link that resolves is kept, and a second one after it
/// is an error.
pub open spec fn context_url_of(base: Seq<char>, links: Seq<LinkView>) -> Result<Option<Seq<char>>, FetchError>
    decreases links.len(),
{
    if links.len() == 0 {
        Ok(None)
    } else {
        match context_url_of(base, links.drop_last()) {
            Err(e) => Err(e),
            Ok(cur) => {
                let l = links.last();
                if has_param(l, rel_key(), context_rel()) {
                    if cur is Some {
                        Err(FetchError::MultipleContextLinkHeaders)
                    } else {
                        Ok(link_target(l.0, base))
                    }
                } else {
                    Ok(cur)
                }
            },
        }
    }
}

/// Whether `l` points to a JSON-LD alternate representation.
pub open spec fn is_alternate(l: LinkView) -> bool {
    has_param(l, rel_key(), alternate_rel()) && has_param(l, type_key(), ld_json_type())
}

/// The target of the first link to a JSON-LD alternate that resolves.
pub open spec fn alternate_of(base: Seq<char>, links: Seq<LinkView>) -> Option<Seq<char>>
    decreases links.len(),
{
    if links.len() == 0 {
        None
    } else {
        match alternate_of(base, links.drop_last()) {
            Some(t) => Some(t),
            None => if is_alternate(links.last()) {
                link_target(links.last().0, base)
            } else {
                None
            },
        }
    }
}

/// What the HTTP loader does with a successful response.
#[derive(Debug)]
pub enum OkAction {
    /// Read the body as a JSON-LD document, with this context IRI if any.
    Read(Option<String>),
    /// Load this IRI instead.
    Follow(String),
    /// Fail.
    Fail(FetchError),
}

/// What the HTTP loader does with a successful response from `url`, whose
/// JSON-LD content type is `json_ld` (`Some(true)` for exactly
/// `application/ld+json`, `Some(false)` for another JSON type, `None` for
/// none) and whose `Link` headers hold `links`.
pub open spec fn ok_action(url: Seq<char>, json_ld: Option<bool>, links: Seq<LinkView>) -> (
    bool,
    Option<Seq<char>>,
    Option<FetchError>,
) {
    // (read, iri, error): read the body with context `iri`, follow `iri`,
    // or fail with `error`.
    match json_ld {
        Some(true) => (true, None, None),
        Some(false) => match context_url_of(url, links) {
            Ok(c) => (true, c, None),
            Err(e) => (false, None, Some(e)),
        },
        None => match alternate_of(url, links) {
            Some(t) => (false, Some(t), None),
            None => (false, None, Some(FetchError::InvalidContentType)),
        },
    }
}

/// The view of an action, in the shape of [`ok_action`].
pub open spec fn action_view(a: OkAction) -> (bool, Option<Seq<char>>, Option<FetchError>) {
    match a {
        OkAction::Read(c) => (true, match c {
            Some(s) => Some(s@),
            None => None,
        }, None),
        OkAction::Follow(t) => (false, Some(t@), None),
        OkAction::Fail(e) => (false, None, Some(e)),
    }
}

/// The absolute IRI that the target of `link` names against `base`.
fn target_of(link: &Link, base: &str) -> (r: Option<String>)
    ensures
        r matches Some(s) ==> link_target(link@.0, base@) == Some(s@),
        r is None ==> link_target(link@.0, base@) is None,
{
    if !is_iri(base) {
        return None;
    }
    let href = link.href();
    proof {
        vstd::utf8::encode_utf8_decode_utf8(href@);
    }
    match resolve_reference(href, base) {
        Some(r) => {
            if is_iri(r.as_str()) {
                Some(r)
            } else {
                None
            }
        },
        None => None,
    }
}

/// Whether `link` has the parameter `key` set to `value`.
fn link_has(link: &Link, key: &[u8], value: &[u8]) -> (b: bool)
    ensures
        b == has_param(link@, key@, value@),
{
    match link.param(key) {
        Some(v) => bytes_eq(v, value),
        None => false,
    }
}

/// The decision of the HTTP loader on a successful response from `url`:
/// read the body (with the context that a plain JSON document's links
/// point to), follow a link to a JSON-LD alternate, or fail.
pub fn on_ok_response(url: &str, json_ld: Option<bool>, links: &[Link]) -> (a: OkAction)
    ensures
        action_view(a) == ok_action(url@, json_ld, links_view(links@)),
{
    let rel: [u8; 3] = [114u8, 101u8, 108u8];
    let typ: [u8; 4] = [116u8, 121u8, 112u8, 101u8];
    proof {
        assert(rel@ =~= rel_key());
        assert(typ@ =~= type_key());
    }
    let ghost lv = links_view(links@);
    match json_ld {
        Some(true) => OkAction::Read(None),
        Some(false) => {
            let context = "http://www.w3.org/ns/json-ld#context".as_bytes();
            let mut found: Option<String> = None;
            let mut i: usize = 0;
            while i < links.len()
                invariant
                    i <= links@.len(),
                    lv == links_view(links@),
                    json_ld == Some(false),
                    rel@ == rel_key(),
                    context@ == context_rel(),
                    context_url_of(url@, lv.take(i as int)) == Ok::<Option<Seq<char>>, FetchError>(
                        match found {
                            Some(s) => Some(s@),
                            None => None,
                        },
                    ),
                decreases links@.len() - i,
            {
                proof {
                    assert(lv.take(i + 1).drop_last() =~= lv.take(i as int));
                }
                if link_has(&links[i], &rel, context) {
                    if found.is_some() {
                        proof {
                            assert(context_url_of(url@, lv.take(i + 1)) == Err::<Option<Seq<char>>, FetchError>(
                                FetchError::MultipleContextLinkHeaders,
                            ));
                            lemma_context_error_stays(url@, lv, i + 1);
                        }
                        return OkAction::Fail(FetchError::MultipleContextLinkHeaders);
                    }
                    found = target_of(&links[i], url);
                }
                i = i + 1;
            }
            proof {
                assert(lv.take(i as int) =~= lv);
            }
            OkAction::Read(found)
        },
        None => {
            let alternate = "alternate".as_bytes();
            let ld_json = "application/ld+json".as_bytes();
            let mut i: usize = 0;
            while i < links.len()
                invariant
                    i <= links@.len(),
                    lv == links_view(links@),
                    json_ld is None,
                    rel@ == rel_key(),
                    typ@ == type_key(),
                    alternate@ == alternate_rel(),
                    ld_json@ == ld_json_type(),
                    alternate_of(url@, lv.take(i as int)) is None,
                decreases links@.len() - i,
            {
                proof {
                    assert(lv.take(i + 1).drop_last() =~= lv.take(i as int));
                }
                if link_has(&links[i], &rel, alternate) && link_has(&links[i], &typ, ld_json) {
                    match target_of(&links[i], url) {
                        Some(t) => {
                            proof {
                                lemma_alternate_found_stays(url@, lv, i + 1);
                            }
                            return OkAction::Follow(t);
                        },
                        None => {},
                    }
                }
                i = i + 1;
            }
            proof {
                assert(lv.take(i as int) =~= lv);
            }
            OkAction::Fail(FetchError::InvalidContentType)
        },
    }
}

proof fn lemma_context_error_stays(base: Seq<char>, links: Seq<LinkView>, i: int)
    requires
        0 <= i <= links.len(),
        context_url_of(base, links.take(i)) is Err,
    ensures
        context_url_of(base, links) == context_url_of(base, links.take(i)),
    decreases links.len() - i,
{
    if i < links.len() {
        assert(links.take(i + 1).drop_last() =~= links.take(i));
        lemma_context_error_stays(base, links, i + 1);
    } else {
        assert(links.take(i) =~= links);
    }
}

proof fn lemma_alternate_found_stays(base: Seq<char>, links: Seq<LinkView>, i: int)
    requires
        0 <= i <= links.len(),
        alternate_of(base, links.take(i)) is Some,
    ensures
        alternate_of(base, links) == alternate_of(base, links.take(i)),
    decreases links.len() - i,
{
    if i < links.len() {
        assert(links.take(i + 1).drop_last() =~= links.take(i));
        lemma_alternate_found_stays(base, links, i + 1);
    } else {
        assert(links.take(i) =~= links);
    }
}

/// Reads `s` from the left: the pieces ended by a space so far and the one
/// being read.
pub open spec fn space_scan(s: Seq<u8>) -> (Seq<Seq<u8>>, Seq<u8>)
    decreases s.len(),
{
    if s.len() == 0 {
        (Seq::empty(), Seq::empty())
    } else {
        let (done, cur) = space_scan(s.drop_last());
        if s.last() == 32 {
            (done.push(cur), Seq::empty())
        } else {
            (done, cur.push(s.last()))
        }
    }
}

/// The pieces of `s` between spaces, empty ones included.
pub open spec fn space_pieces(s: Seq<u8>) -> Seq<Seq<u8>> {
    let (done, cur) = space_scan(s);
    done.push(cur)
}

/// The IRIs among a list of byte pieces: each piece that is UTF-8 text
/// and an absolute IRI, in order.
pub open spec fn iris_among(pieces: Seq<Seq<u8>>) -> Seq<Seq<char>>
    decreases pieces.len(),
{
    if pieces.len() == 0 {
        Seq::empty()
    } else {
        let rest = iris_among(pieces.drop_last());
        let p = pieces.last();
        if vstd::utf8::valid_utf8(p) && iri_valid(decode_utf8(p)) {
            rest.push(decode_utf8(p))
        } else {
            rest
        }
    }
}

/// Whether `p` is the profile that the IRI `iri` stands for.
pub open spec fn is_profile_of(p: Profile, iri: Seq<char>) -> bool {
    match standard_profile_of(iri) {
        Some(s) => p == Profile::Standard(s),
        None => p matches Profile::Custom(c) && c@ == iri,
    }
}

/// The profile that the byte piece `piece` names, if it is UTF-8 text and
/// an absolute IRI.
fn piece_profile(piece: &Vec<u8>) -> (r: Option<Profile>)
    ensures
        (r is Some) == (vstd::utf8::valid_utf8(piece@) && iri_valid(decode_utf8(piece@))),
        r matches Some(p) ==> is_profile_of(p, decode_utf8(piece@)),
{
    match utf8_text(piece.as_slice()) {
        Some(text) => {
            proof {
                vstd::utf8::encode_utf8_decode_utf8(text@);
            }
            if is_iri(text.as_str()) {
                Some(Profile::new(text.as_str()))
            } else {
                None
            }
        },
        None => None,
    }
}

/// Whether two profiles are the same one: the same registered profile, or
/// two other IRIs that `iri-rs` finds equal.
pub open spec fn profile_same(p: Profile, q: Profile) -> bool {
    match (p, q) {
        (Profile::Standard(a), Profile::Standard(b)) => a == b,
        (Profile::Custom(a), Profile::Custom(b)) => iri_equivalent(a@, b@),
        _ => false,
    }
}

/// Whether `p` is, or is the same as (see [`profile_same`]), the profile
/// that the IRI `iri` stands for.
pub open spec fn profile_matches(p: Profile, iri: Seq<char>) -> bool {
    match standard_profile_of(iri) {
        Some(s) => p == Profile::Standard(s),
        None => p matches Profile::Custom(c) && (c@ == iri || iri_equivalent(c@, iri)),
    }
}

/// Whether a profile other than a registered one is an absolute IRI.
pub open spec fn profile_valid(p: Profile) -> bool {
    p matches Profile::Custom(c) ==> iri_valid(c@)
}

/// Whether `ps` holds no profile twice (see [`profile_same`]).
pub open spec fn distinct_profiles(ps: Seq<Profile>) -> bool {
    forall|k1: int, k2: int| 0 <= k1 < k2 < ps.len() ==> !profile_same(#[trigger] ps[k1], #[trigger] ps[k2])
}

/// Whether `ps` is the set of profiles that the IRIs `iris` stand for:
/// each profile stands for one of them, each of them is matched by one of
/// the profiles, and no profile occurs twice.
pub open spec fn profile_set_of(ps: Seq<Profile>, iris: Seq<Seq<char>>) -> bool {
    &&& profiles_from(ps, iris)
    &&& profiles_cover(ps, iris)
    &&& distinct_profiles(ps)
    &&& forall|k: int| 0 <= k < ps.len() ==> profile_valid(#[trigger] ps[k])
}

/// Whether each profile of `ps` stands for one of the IRIs `iris`.
pub open spec fn profiles_from(ps: Seq<Profile>, iris: Seq<Seq<char>>) -> bool {
    forall|k: int| 0 <= k < ps.len() ==> #[trigger] stands_for_one(ps[k], iris)
}

/// Whether `p` is the profile one of the IRIs `iris` stands for.
pub open spec fn stands_for_one(p: Profile, iris: Seq<Seq<char>>) -> bool {
    exists|j: int| 0 <= j < iris.len() && is_profile_of(p, #[trigger] iris[j])
}

/// Whether each of the IRIs `iris` is matched by a profile of `ps`.
pub open spec fn profiles_cover(ps: Seq<Profile>, iris: Seq<Seq<char>>) -> bool {
    forall|j: int| 0 <= j < iris.len() ==> #[trigger] matched_by_one(ps, iris[j])
}

/// Whether one of the profiles `ps` matches the IRI `iri`.
pub open spec fn matched_by_one(ps: Seq<Profile>, iri: Seq<char>) -> bool {
    exists|k: int| 0 <= k < ps.len() && profile_matches(#[trigger] ps[k], iri)
}

/// Whether two profiles are the same one (see [`profile_same`]).
fn same_profile(p: &Profile, q: &Profile) -> (b: bool)
    requires
        profile_valid(*p),
        profile_valid(*q),
    ensures
        b == profile_same(*p, *q),
{
    match (p, q) {
        (Profile::Standard(a), Profile::Standard(b)) => *a == *b,
        (Profile::Custom(a), Profile::Custom(b)) => iri_eq(a.as_str(), b.as_str()),
        _ => false,
    }
}

/// Adds `p` to the profiles `ps` unless the same profile is there.
fn add_profile(ps: &mut Vec<Profile>, p: Profile)
    requires
        distinct_profiles(old(ps)@),
        forall|k: int| 0 <= k < old(ps)@.len() ==> profile_valid(#[trigger] old(ps)@[k]),
        profile_valid(p),
    ensures
        distinct_profiles(final(ps)@),
        forall|k: int| 0 <= k < final(ps)@.len() ==> profile_valid(#[trigger] final(ps)@[k]),
        final(ps)@ == old(ps)@ || final(ps)@ == old(ps)@.push(p),
        exists|k: int| 0 <= k < final(ps)@.len() && (#[trigger] final(ps)@[k] == p || profile_same(final(ps)@[k], p)),
{
    let mut i: usize = 0;
    while i < ps.len()
        invariant
            i <= ps@.len(),
            ps@ == old(ps)@,
            distinct_profiles(ps@),
            forall|k: int| 0 <= k < ps@.len() ==> profile_valid(#[trigger] ps@[k]),
            profile_valid(p),
            forall|k: int| 0 <= k < i ==> !profile_same(#[trigger] ps@[k], p),
        decreases ps@.len() - i,
    {
        if same_profile(&ps[i], &p) {
            assert(profile_same(ps@[i as int], p));
            return;
        }
        i = i + 1;
    }
    let ghost before = ps@;
    ps.push(p);
    proof {
        assert(ps@[before.len() as int] == p);
        assert forall|k1: int, k2: int| 0 <= k1 < k2 < ps@.len() implies !profile_same(#[trigger] ps@[k1], #[trigger] ps@[k2]) by {
            if k2 < before.len() {
                assert(ps@[k1] == before[k1] && ps@[k2] == before[k2]);
            } else {
                assert(ps@[k1] == before[k1]);
            }
        }
    }
}

/// The profiles named by the `profile` parameter of a content type: those
/// of its space-separated pieces that are absolute IRIs, each profile
/// once.
pub fn profiles_of(param: &[u8]) -> (r: Vec<Profile>)
    ensures
        profile_set_of(r@, iris_among(space_pieces(param@))),
{
    let mut r: Vec<Profile> = Vec::new();
    let mut cur: Vec<u8> = Vec::new();
    let ghost mut done: Seq<Seq<u8>> = Seq::empty();
    let mut i: usize = 0;
    while i < param.len()
        invariant
            i <= param@.len(),
            space_scan(param@.take(i as int)) == (done, cur@),
            profile_set_of(r@, iris_among(done)),
        decreases param@.len() - i,
    {
        proof {
            assert(param@.take(i + 1).drop_last() =~= param@.take(i as int));
        }
        if param[i] == 32 {
            let p = piece_profile(&cur);
            proof {
                assert(done.push(cur@).drop_last() =~= done);
            }
            let ghost r0 = r@;
            let ghost iris0 = iris_among(done);
            match p {
                Some(p) => {
                    add_profile(&mut r, p);
                    proof {
                        assert(iris_among(done.push(cur@)) == iris0.push(decode_utf8(cur@)));
                        lemma_profile_set_step(r0, r@, iris0, decode_utf8(cur@), p);
                    }
                },
                None => {
                    assert(iris_among(done.push(cur@)) == iris0);
                },
            }
            proof {
                done = done.push(cur@);
            }
            cur = Vec::new();
        } else {
            cur.push(param[i]);
        }
        i = i + 1;
    }
    let p = piece_profile(&cur);
    proof {
        assert(param@.take(i as int) =~= param@);
        assert(done.push(cur@).drop_last() =~= done);
    }
    let ghost r0 = r@;
    let ghost iris0 = iris_among(done);
    match p {
        Some(p) => {
            add_profile(&mut r, p);
            proof {
                assert(iris_among(done.push(cur@)) == iris0.push(decode_utf8(cur@)));
                lemma_profile_set_step(r0, r@, iris0, decode_utf8(cur@), p);
            }
        },
        None => {
            assert(iris_among(done.push(cur@)) == iris0);
        },
    }
    r
}

/// One more IRI keeps a profile set: its profile was added unless the
/// same one was there.
proof fn lemma_profile_set_step(r0: Seq<Profile>, r1: Seq<Profile>, iris0: Seq<Seq<char>>, x: Seq<char>, q: Profile)
    requires
        profile_set_of(r0, iris0),
        is_profile_of(q, x),
        r1 == r0 || r1 == r0.push(q),
        distinct_profiles(r1),
        forall|k: int| 0 <= k < r1.len() ==> profile_valid(#[trigger] r1[k]),
        exists|k: int| 0 <= k < r1.len() && (#[trigger] r1[k] == q || profile_same(r1[k], q)),
    ensures
        profile_set_of(r1, iris0.push(x)),
{
    let iris1 = iris0.push(x);
    assert forall|k: int| 0 <= k < r1.len() implies #[trigger] stands_for_one(r1[k], iris1) by {
        if k < r0.len() {
            assert(r1[k] == r0[k]);
            assert(stands_for_one(r0[k], iris0));
            let j = choose|j: int| 0 <= j < iris0.len() && is_profile_of(r0[k], #[trigger] iris0[j]);
            assert(iris1[j] == iris0[j]);
        } else {
            assert(r1[k] == q);
            assert(iris1[iris0.len() as int] == x);
        }
    }
    let kq = choose|k: int| 0 <= k < r1.len() && (#[trigger] r1[k] == q || profile_same(r1[k], q));
    assert(profile_matches(r1[kq], x));
    assert forall|j: int| 0 <= j < iris1.len() implies #[trigger] matched_by_one(r1, iris1[j]) by {
        if j < iris0.len() {
            assert(iris1[j] == iris0[j]);
            assert(matched_by_one(r0, iris0[j]));
            let k = choose|k: int| 0 <= k < r0.len() && profile_matches(#[trigger] r0[k], iris0[j]);
            assert(r1[k] == r0[k]);
        } else {
            assert(iris1[j] == x);
        }
    }
}

/// The space-separated IRIs of a list of profiles.
pub open spec fn profile_list(ps: Seq<Profile>) -> Seq<char>
    decreases ps.len(),
{
    if ps.len() == 0 {
        Seq::empty()
    } else if ps.len() == 1 {
        profile_iri(ps[0])
    } else {
        profile_list(ps.drop_last()).push(' ') + profile_iri(ps.last())
    }
}

/// The `Accept` header that asks for JSON-LD with the given profiles, then
/// for plain JSON.
pub open spec fn accept_header_of(ps: Seq<Profile>) -> Seq<char> {
    let quote = if ps.len() > 1 {
        seq!['"']
    } else {
        Seq::empty()
    };
    let params = if ps.len() == 0 {
        Seq::empty()
    } else {
        "; profile="@ + quote + profile_list(ps) + quote
    };
    "application/ld+json"@ + params + ", application/json"@
}

/// Appends the characters of `s` to `out`.
fn push_str(out: &mut Vec<char>, s: &str)
    ensures
        final(out)@ == old(out)@ + s@,
{
    let mut cs = chars_of(s);
    out.append(&mut cs);
}

/// The `Accept` header of the HTTP loader for the requested profiles.
pub fn accept_header(profiles: &[Profile]) -> (h: String)
    ensures
        h@ == accept_header_of(profiles@),
{
    let mut out: Vec<char> = Vec::new();
    push_str(&mut out, "application/ld+json");
    let ghost head = out@;
    if profiles.len() > 0 {
        push_str(&mut out, "; profile=");
        if profiles.len() > 1 {
            out.push('"');
        }
        let ghost start = out@;
        let mut i: usize = 0;
        while i < profiles.len()
            invariant
                i <= profiles@.len(),
                out@ == start + profile_list(profiles@.take(i as int)),
            decreases profiles@.len() - i,
        {
            proof {
                assert(profiles@.take(i + 1).drop_last() =~= profiles@.take(i as int));
            }
            if i > 0 {
                out.push(' ');
            }
            push_str(&mut out, profiles[i].iri());
            proof {
                if i == 0 {
                    assert(profile_list(profiles@.take(1)) == profile_iri(profiles@[0]));
                    assert(profile_list(profiles@.take(0)) =~= Seq::<char>::empty());
                }
                assert(out@ =~= start + profile_list(profiles@.take(i + 1)));
            }
            i = i + 1;
        }
        proof {
            assert(profiles@.take(i as int) =~= profiles@);
        }
        if profiles.len() > 1 {
            out.push('"');
        }
    }
    push_str(&mut out, ", application/json");
    proof {
        assert(out@ =~= accept_header_of(profiles@));
    }
    string_of(&out)
}

/// Whether a response that declares `content_length` bytes is over the
/// size limit `limit`.
pub fn declared_too_large(limit: Option<usize>, content_length: Option<u64>) -> (b: bool)
    ensures
        b == (limit is Some && content_length is Some && content_length->0 > limit->0),
{
    match (limit, content_length) {
        (Some(limit), Some(len)) => len as u128 > limit as u128,
        _ => false,
    }
}

/// Whether a body of `have` bytes grown by a chunk of `chunk` bytes is over
/// the size limit `limit`.
pub fn chunk_too_large(limit: Option<usize>, have: usize, chunk: usize) -> (b: bool)
    ensures
        b == (limit is Some && have + chunk > limit->0),
{
    match limit {
        Some(limit) => have > limit || chunk > limit - have,
        None => false,
    }
}

/// The HTTP loader's position: the IRI it is about to load and how many
/// `Link` headers it has followed so far.
pub struct Fetch {
    pub url: String,
    pub redirections: usize,
}

impl Fetch {
    /// Starts loading `url`.
    pub fn start(url: String) -> (f: Fetch)
        ensures
            f.url == url,
            f.redirections == 0,
    {
        Fetch { url, redirections: 0 }
    }

    /// Checks that another request is allowed: at most `max_redirections`
    /// links may have been followed.
    pub fn check(&self, max_redirections: usize) -> (r: Result<(), FetchError>)
        ensures
            r is Ok <==> self.redirections <= max_redirections,
            r matches Err(e) ==> e == FetchError::TooManyRedirections,
    {
        if self.redirections > max_redirections {
            Err(FetchError::TooManyRedirections)
        } else {
            Ok(())
        }
    }

    /// Follows a link to `next`, counting one more redirection.
    pub fn follow(&mut self, next: String)
        requires
            old(self).redirections < usize::MAX,
        ensures
            final(self).url == next,
            final(self).redirections == old(self).redirections + 1,
    {
        self.url = next;
        self.redirections = self.redirections + 1;
    }
}

} // verus!

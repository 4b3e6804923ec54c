//! The HTTP `Link` header (RFC 8288), as a remote document loader reads it
//! to find the context that a plain JSON document points to.
use vstd::prelude::*;
use crate::iri::{iri_ref_bytes_valid, iri_ref_from_bytes, iri_ref_valid};
use crate::text::bytes_eq;

verus! {

/// The map that a list of key/value entries stands for: a later entry for a
/// key replaces an earlier one.
pub open spec fn entries_map(s: Seq<(Vec<u8>, Vec<u8>)>) -> Map<Seq<u8>, Seq<u8>>
    decreases s.len(),
{
    if s.len() == 0 {
        Map::empty()
    } else {
        entries_map(s.drop_last()).insert(s.last().0@, s.last().1@)
    }
}

proof fn lemma_entries_map_last(s: Seq<(Vec<u8>, Vec<u8>)>, i: int)
    requires
        0 <= i < s.len(),
        forall|j: int| i < j < s.len() ==> s[j].0@ != s[i].0@,
    ensures
        entries_map(s).contains_key(s[i].0@),
        entries_map(s)[s[i].0@] == s[i].1@,
    decreases s.len(),
{
    if i < s.len() - 1 {
        lemma_entries_map_last(s.drop_last(), i);
    }
}

proof fn lemma_entries_map_absent(s: Seq<(Vec<u8>, Vec<u8>)>, k: Seq<u8>)
    requires
        forall|j: int| 0 <= j < s.len() ==> s[j].0@ != k,
    ensures
        !entries_map(s).contains_key(k),
    decreases s.len(),
{
    if s.len() > 0 {
        lemma_entries_map_absent(s.drop_last(), k);
    }
}

proof fn lemma_entries_map_update(s: Seq<(Vec<u8>, Vec<u8>)>, i: int, e: (Vec<u8>, Vec<u8>))
    requires
        0 <= i < s.len(),
        s[i].0@ == e.0@,
        forall|j: int| i < j < s.len() ==> s[j].0@ != e.0@,
    ensures
        entries_map(s.update(i, e)) == entries_map(s).insert(e.0@, e.1@),
    decreases s.len(),
{
    let t = s.update(i, e);
    if i == s.len() - 1 {
        assert(t.drop_last() =~= s.drop_last());
        assert(entries_map(t) =~= entries_map(s).insert(e.0@, e.1@));
    } else {
        assert(t.drop_last() =~= s.drop_last().update(i, e));
        lemma_entries_map_update(s.drop_last(), i, e);
        assert(entries_map(t) =~= entries_map(s).insert(e.0@, e.1@));
    }
}

/// The index of the last entry named `key`, if any.
fn entry_position(entries: &Vec<(Vec<u8>, Vec<u8>)>, key: &[u8]) -> (r: Option<usize>)
    ensures
        match r {
            Some(i) => i < entries@.len() && entries@[i as int].0@ == key@ && forall|j: int|
                i < j < entries@.len() ==> entries@[j].0@ != key@,
            None => forall|j: int| 0 <= j < entries@.len() ==> entries@[j].0@ != key@,
        },
{
    let mut i = entries.len();
    while i > 0
        invariant
            i <= entries@.len(),
            forall|j: int| i <= j < entries@.len() ==> entries@[j].0@ != key@,
        decreases i,
    {
        i = i - 1;
        if bytes_eq(entries[i].0.as_slice(), key) {
            return Some(i);
        }
    }
    None
}

/// The parameters of a link: a map from parameter names to values, both
/// raw bytes.
pub struct Params {
    entries: Vec<(Vec<u8>, Vec<u8>)>,
}

impl View for Params {
    type V = Map<Seq<u8>, Seq<u8>>;

    closed spec fn view(&self) -> Map<Seq<u8>, Seq<u8>> {
        entries_map(self.entries@)
    }
}

impl Params {
    /// No name occurs twice among the entries.
    #[verifier::type_invariant]
    closed spec fn keys_unique(self) -> bool {
        forall|i: int, j: int|
            0 <= i < j < self.entries@.len() ==> #[trigger] self.entries@[i].0@ != #[trigger] self.entries@[j].0@
    }

    /// The empty parameter map.
    pub fn new() -> (p: Self)
        ensures
            p@ == Map::<Seq<u8>, Seq<u8>>::empty(),
    {
        Params { entries: Vec::new() }
    }


    /// The value of the parameter named `key`, if any.
    pub fn get(&self, key: &[u8]) -> (r: Option<&[u8]>)
        ensures
            r is Some <==> self@.contains_key(key@),
            r matches Some(v) ==> v@ == self@[key@],
    {
        match entry_position(&self.entries, key) {
            Some(i) => {
                proof {
                    lemma_entries_map_last(self.entries@, i as int);
                }
                Some(self.entries[i].1.as_slice())
            },
            None => {
                proof {
                    lemma_entries_map_absent(self.entries@, key@);
                }
                None
            },
        }
    }

    /// Sets the parameter `key` to `value`, replacing any earlier value.
    pub fn insert(&mut self, key: Vec<u8>, value: Vec<u8>)
        ensures
            final(self)@ == old(self)@.insert(key@, value@),
    {
        proof {
            use_type_invariant(&*self);
        }
        let mut entries: Vec<(Vec<u8>, Vec<u8>)> = Vec::new();
        std::mem::swap(&mut entries, &mut self.entries);
        let ghost before = entries@;
        let found = entry_position(&entries, key.as_slice());
        match found {
            Some(i) => {
                let ghost e = (key, value);
                proof {
                    lemma_entries_map_update(before, i as int, e);
                }
                entries.set(i, (key, value));
            },
            None => {
                entries.push((key, value));
                proof {
                    assert(entries@.drop_last() =~= before);
                }
            },
        }
        self.entries = entries;
    }
}

/// Where the `Link` header scanner stands.
#[derive(Clone, Copy, PartialEq, Eq, Structural)]
pub enum Phase {
    /// Before a link value: spaces and commas are skipped until `<`.
    BeginHref,
    /// Inside `<...>`.
    Href,
    /// After the target or a quoted value: `;` starts a parameter, `,` ends
    /// the link.
    NextParam,
    /// Before a parameter name.
    BeginKey,
    /// Inside a parameter name.
    Key,
    /// Right after `=`.
    BeginValue,
    /// Inside a quoted value.
    QuotedValue,
    /// Right after a backslash in a quoted value.
    QuotedEscape,
    /// Inside an unquoted value.
    Value,
    /// Malformed input was met: the rest of the header is ignored.
    Stopped,
}

/// What the scanner holds after reading part of a header: the phase, the
/// target, name and value read so far, the parameters of the current link
/// and the links finished so far (each as its target bytes and parameters).
pub struct Scan {
    pub phase: Phase,
    pub href: Seq<u8>,
    pub key: Seq<u8>,
    pub value: Seq<u8>,
    pub params: Map<Seq<u8>, Seq<u8>>,
    pub links: Seq<(Seq<u8>, Map<Seq<u8>, Seq<u8>>)>,
}

/// The scanner before the first byte.
pub open spec fn scan_start() -> Scan {
    Scan {
        phase: Phase::BeginHref,
        href: Seq::empty(),
        key: Seq::empty(),
        value: Seq::empty(),
        params: Map::empty(),
        links: Seq::empty(),
    }
}

/// Moves to phase `p`.
pub open spec fn goto(s: Scan, p: Phase) -> Scan {
    Scan { phase: p, ..s }
}

/// Stores the parameter read so far, replacing any earlier value of it.
pub open spec fn store_param(s: Scan) -> Scan {
    Scan { params: s.params.insert(s.key, s.value), key: Seq::empty(), value: Seq::empty(), ..s }
}

/// Ends the current link: it is kept, with its parameters, when its target
/// is a valid IRI reference; the target is cleared either way, while the
/// parameters of a dropped link stay for the next one.
pub open spec fn finish_link(s: Scan) -> Scan {
    if iri_ref_bytes_valid(s.href) {
        Scan { links: s.links.push((s.href, s.params)), href: Seq::empty(), params: Map::empty(), ..s }
    } else {
        Scan { href: Seq::empty(), ..s }
    }
}

/// The scanner after reading one more byte `b`.
pub open spec fn scan_step(s: Scan, b: u8) -> Scan {
    match s.phase {
        Phase::BeginHref => if b == 32 || b == 44 {
            s
        } else if b == 60 {
            goto(s, Phase::Href)
        } else {
            goto(s, Phase::Stopped)
        },
        Phase::Href => if b == 62 {
            goto(s, Phase::NextParam)
        } else {
            Scan { href: s.href.push(b), ..s }
        },
        Phase::NextParam => if b == 32 {
            s
        } else if b == 59 {
            goto(s, Phase::BeginKey)
        } else if b == 44 {
            goto(finish_link(s), Phase::BeginHref)
        } else {
            goto(s, Phase::Stopped)
        },
        Phase::BeginKey => if b == 32 {
            s
        } else if b == 44 {
            goto(finish_link(s), Phase::BeginHref)
        } else {
            Scan { key: s.key.push(b), phase: Phase::Key, ..s }
        },
        Phase::Key => if b == 61 {
            goto(s, Phase::BeginValue)
        } else if b == 59 {
            goto(store_param(s), Phase::BeginKey)
        } else if b == 44 {
            goto(finish_link(store_param(s)), Phase::BeginHref)
        } else {
            Scan { key: s.key.push(b), ..s }
        },
        Phase::BeginValue => if b == 34 {
            goto(s, Phase::QuotedValue)
        } else {
            Scan { value: s.value.push(b), phase: Phase::Value, ..s }
        },
        Phase::QuotedValue => if b == 34 {
            goto(store_param(s), Phase::NextParam)
        } else if b == 92 {
            goto(s, Phase::QuotedEscape)
        } else {
            Scan { value: s.value.push(b), ..s }
        },
        Phase::QuotedEscape => Scan { value: s.value.push(b), phase: Phase::QuotedValue, ..s },
        Phase::Value => if b == 59 {
            goto(store_param(s), Phase::BeginKey)
        } else if b == 44 {
            goto(finish_link(store_param(s)), Phase::BeginHref)
        } else if b == 32 {
            goto(store_param(s), Phase::NextParam)
        } else {
            Scan { value: s.value.push(b), ..s }
        },
        Phase::Stopped => s,
    }
}

/// The scanner at the end of the header: a link whose target was closed is
/// finished, with the parameter being read; one cut inside its target or
/// inside a quoted value is dropped.
pub open spec fn scan_end(s: Scan) -> Scan {
    match s.phase {
        Phase::NextParam | Phase::BeginKey => finish_link(s),
        Phase::Key | Phase::BeginValue | Phase::Value => finish_link(store_param(s)),
        _ => s,
    }
}

/// The scanner after reading `bytes`.
pub open spec fn scan(bytes: Seq<u8>) -> Scan
    decreases bytes.len(),
{
    if bytes.len() == 0 {
        scan_start()
    } else {
        scan_step(scan(bytes.drop_last()), bytes.last())
    }
}

/// The links of a `Link` header value, each as its target bytes and its
/// parameters.
pub open spec fn header_links(bytes: Seq<u8>) -> Seq<(Seq<u8>, Map<Seq<u8>, Seq<u8>>)> {
    scan_end(scan(bytes)).links
}

proof fn lemma_scan_stays_stopped(bytes: Seq<u8>, i: int)
    requires
        0 <= i <= bytes.len(),
        scan(bytes.take(i)).phase == Phase::Stopped,
    ensures
        scan(bytes) == scan(bytes.take(i)),
    decreases bytes.len() - i,
{
    if i < bytes.len() {
        assert(bytes.take(i + 1).drop_last() =~= bytes.take(i));
        lemma_scan_stays_stopped(bytes, i + 1);
    } else {
        assert(bytes.take(i) =~= bytes);
    }
}

/// Once malformed input is met, the rest of the header changes nothing:
/// the links of `p` followed by anything are the links of `p`.
pub proof fn lemma_malformed_rest_ignored(p: Seq<u8>, rest: Seq<u8>)
    requires
        scan(p).phase == Phase::Stopped,
    ensures
        header_links(p + rest) == header_links(p),
{
    assert((p + rest).take(p.len() as int) =~= p);
    lemma_scan_stays_stopped(p + rest, p.len() as int);
}

/// Whether `a` is a prefix of `b`.
pub open spec fn links_prefix(
    a: Seq<(Seq<u8>, Map<Seq<u8>, Seq<u8>>)>,
    b: Seq<(Seq<u8>, Map<Seq<u8>, Seq<u8>>)>,
) -> bool {
    a.len() <= b.len() && b.take(a.len() as int) == a
}

proof fn lemma_step_keeps_links(s: Scan, b: u8)
    ensures
        links_prefix(s.links, scan_step(s, b).links),
        links_prefix(s.links, scan_end(s).links),
{
    let a = s.links;
    assert(a.push((s.href, s.params)).take(a.len() as int) =~= a);
    assert(a.push((s.href, s.params.insert(s.key, s.value))).take(a.len() as int) =~= a);
    assert(a.take(a.len() as int) =~= a);
}

proof fn lemma_scan_keeps_links(bytes: Seq<u8>, i: int)
    requires
        0 <= i <= bytes.len(),
    ensures
        links_prefix(scan(bytes.take(i)).links, scan(bytes).links),
    decreases bytes.len() - i,
{
    let a = scan(bytes.take(i)).links;
    if i == bytes.len() {
        assert(bytes.take(i) =~= bytes);
        assert(a.take(a.len() as int) =~= a);
    } else {
        assert(bytes.take(i + 1).drop_last() =~= bytes.take(i));
        lemma_step_keeps_links(scan(bytes.take(i)), bytes[i]);
        lemma_scan_keeps_links(bytes, i + 1);
        let m = scan(bytes.take(i + 1)).links;
        let c = scan(bytes).links;
        assert(c.take(a.len() as int) =~= m.take(a.len() as int));
    }
}

/// A link, once finished, is never lost: the links finished after reading
/// `p` are the first links of `p` followed by anything.
pub proof fn lemma_finished_links_kept(p: Seq<u8>, rest: Seq<u8>)
    ensures
        links_prefix(scan(p).links, header_links(p + rest)),
{
    let q = p + rest;
    assert(q.take(p.len() as int) =~= p);
    lemma_scan_keeps_links(q, p.len() as int);
    lemma_step_keeps_links(scan(q), 0);
    let a = scan(p).links;
    let m = scan(q).links;
    let c = header_links(q);
    assert(c.take(a.len() as int) =~= m.take(a.len() as int));
}

/// One link of a `Link` header: its target and its parameters.
pub struct Link {
    href: String,
    params: Params,
}

impl Link {
    /// The target is an IRI reference.
    #[verifier::type_invariant]
    closed spec fn href_is_reference(self) -> bool {
        iri_ref_valid(self.href@)
    }
}

impl View for Link {
    type V = (Seq<u8>, Map<Seq<u8>, Seq<u8>>);

    /// The target, as the bytes that spelled it, and the parameters.
    closed spec fn view(&self) -> (Seq<u8>, Map<Seq<u8>, Seq<u8>>) {
        (vstd::utf8::encode_utf8(self.href@), self.params@)
    }
}

/// The views of a list of links.
pub open spec fn links_view(links: Seq<Link>) -> Seq<(Seq<u8>, Map<Seq<u8>, Seq<u8>>)> {
    links.map_values(|l: Link| l@)
}

/// The name `rel`.
pub open spec fn rel_key() -> Seq<u8> {
    seq![114u8, 101u8, 108u8]
}

/// The name `type`.
pub open spec fn type_key() -> Seq<u8> {
    seq![116u8, 121u8, 112u8, 101u8]
}

/// The scanner's exec state.
struct Scanner {
    phase: Phase,
    href: Vec<u8>,
    key: Vec<u8>,
    value: Vec<u8>,
    params: Params,
    links: Vec<Link>,
}

impl View for Scanner {
    type V = Scan;

    closed spec fn view(&self) -> Scan {
        Scan {
            phase: self.phase,
            href: self.href@,
            key: self.key@,
            value: self.value@,
            params: self.params@,
            links: links_view(self.links@),
        }
    }
}

impl Scanner {
    fn new() -> (s: Self)
        ensures
            s@ == scan_start(),
    {
        let s = Scanner {
            phase: Phase::BeginHref,
            href: Vec::new(),
            key: Vec::new(),
            value: Vec::new(),
            params: Params::new(),
            links: Vec::new(),
        };
        proof {
            assert(links_view(s.links@) =~= Seq::empty());
        }
        s
    }

    fn store_param(&mut self)
        ensures
            final(self)@ == store_param(old(self)@),
    {
        let mut key: Vec<u8> = Vec::new();
        let mut value: Vec<u8> = Vec::new();
        std::mem::swap(&mut key, &mut self.key);
        std::mem::swap(&mut value, &mut self.value);
        self.params.insert(key, value);
    }

    fn finish_link(&mut self)
        ensures
            final(self)@ == finish_link(old(self)@),
    {
        let mut href: Vec<u8> = Vec::new();
        std::mem::swap(&mut href, &mut self.href);
        match iri_ref_from_bytes(href) {
            Some(href) => {
                let mut params = Params::new();
                std::mem::swap(&mut params, &mut self.params);
                let ghost before = self.links@;
                let link = Link { href, params };
                self.links.push(link);
                proof {
                    assert(links_view(self.links@) =~= links_view(before).push(link@));
                }
            },
            None => {},
        }
    }

    fn push_href(&mut self, b: u8)
        ensures
            final(self)@ == (Scan { href: old(self)@.href.push(b), ..old(self)@ }),
    {
        self.href.push(b);
    }

    fn push_key(&mut self, b: u8)
        ensures
            final(self)@ == (Scan { key: old(self)@.key.push(b), ..old(self)@ }),
    {
        self.key.push(b);
    }

    fn push_value(&mut self, b: u8)
        ensures
            final(self)@ == (Scan { value: old(self)@.value.push(b), ..old(self)@ }),
    {
        self.value.push(b);
    }

    fn step(&mut self, b: u8)
        ensures
            final(self)@ == scan_step(old(self)@, b),
    {
        match self.phase {
            Phase::BeginHref => {
                if b == 60 {
                    self.phase = Phase::Href;
                } else if b != 32 && b != 44 {
                    self.phase = Phase::Stopped;
                }
            },
            Phase::Href => {
                if b == 62 {
                    self.phase = Phase::NextParam;
                } else {
                    self.push_href(b);
                }
            },
            Phase::NextParam => {
                if b == 59 {
                    self.phase = Phase::BeginKey;
                } else if b == 44 {
                    self.finish_link();
                    self.phase = Phase::BeginHref;
                } else if b != 32 {
                    self.phase = Phase::Stopped;
                }
            },
            Phase::BeginKey => {
                if b == 44 {
                    self.finish_link();
                    self.phase = Phase::BeginHref;
                } else if b != 32 {
                    self.push_key(b);
                    self.phase = Phase::Key;
                }
            },
            Phase::Key => {
                if b == 61 {
                    self.phase = Phase::BeginValue;
                } else if b == 59 {
                    self.store_param();
                    self.phase = Phase::BeginKey;
                } else if b == 44 {
                    self.store_param();
                    self.finish_link();
                    self.phase = Phase::BeginHref;
                } else {
                    self.push_key(b);
                }
            },
            Phase::BeginValue => {
                if b == 34 {
                    self.phase = Phase::QuotedValue;
                } else {
                    self.push_value(b);
                    self.phase = Phase::Value;
                }
            },
            Phase::QuotedValue => {
                if b == 34 {
                    self.store_param();
                    self.phase = Phase::NextParam;
                } else if b == 92 {
                    self.phase = Phase::QuotedEscape;
                } else {
                    self.push_value(b);
                }
            },
            Phase::QuotedEscape => {
                self.push_value(b);
                self.phase = Phase::QuotedValue;
            },
            Phase::Value => {
                if b == 59 {
                    self.store_param();
                    self.phase = Phase::BeginKey;
                } else if b == 44 {
                    self.store_param();
                    self.finish_link();
                    self.phase = Phase::BeginHref;
                } else if b == 32 {
                    self.store_param();
                    self.phase = Phase::NextParam;
                } else {
                    self.push_value(b);
                }
            },
            Phase::Stopped => {},
        }
    }

    fn end(&mut self)
        ensures
            final(self)@ == scan_end(old(self)@),
    {
        match self.phase {
            Phase::NextParam | Phase::BeginKey => {
                self.finish_link();
            },
            Phase::Key | Phase::BeginValue | Phase::Value => {
                self.store_param();
                self.finish_link();
            },
            _ => {},
        }
    }
}

impl Link {
    /// Parses every link value in a `Link` header.
    ///
    /// A header may carry several comma-separated link values; parameter
    /// values may be quoted, with backslash escapes, or plain tokens. Parsing
    /// is best-effort: on malformed input the links parsed so far are
    /// returned and the rest of the header is ignored, and a link whose
    /// target is not an IRI reference is left out.
    pub fn parse_header(value: &[u8]) -> (links: Vec<Link>)
        ensures
            links_view(links@) == header_links(value@),
    {
        let mut scanner = Scanner::new();
        let mut i: usize = 0;
        while i < value.len() && scanner.phase != Phase::Stopped
            invariant
                i <= value@.len(),
                scanner@ == scan(value@.take(i as int)),
            decreases value@.len() - i,
        {
            scanner.step(value[i]);
            proof {
                assert(value@.take(i + 1).drop_last() =~= value@.take(i as int));
            }
            i = i + 1;
        }
        proof {
            if i < value@.len() {
                lemma_scan_stays_stopped(value@, i as int);
            } else {
                assert(value@.take(i as int) =~= value@);
            }
        }
        scanner.end();
        scanner.links
    }

    /// The target of the link.
    pub fn href(&self) -> (r: &str)
        ensures
            vstd::utf8::encode_utf8(r@) == self@.0,
            iri_ref_valid(r@),
    {
        proof {
            use_type_invariant(self);
        }
        self.href.as_str()
    }

    /// The value of the parameter named `key`, if the link has one.
    pub fn param(&self, key: &[u8]) -> (r: Option<&[u8]>)
        ensures
            r is Some <==> self@.1.contains_key(key@),
            r matches Some(v) ==> v@ == self@.1[key@],
    {
        self.params.get(key)
    }

    /// The `rel` parameter, if any.
    pub fn rel(&self) -> (r: Option<&[u8]>)
        ensures
            r is Some <==> self@.1.contains_key(rel_key()),
            r matches Some(v) ==> v@ == self@.1[rel_key()],
    {
        let key: [u8; 3] = [114u8, 101u8, 108u8];
        proof {
            assert(key@ =~= rel_key());
        }
        self.params.get(&key)
    }

    /// The `type` parameter, if any.
    pub fn type_(&self) -> (r: Option<&[u8]>)
        ensures
            r is Some <==> self@.1.contains_key(type_key()),
            r matches Some(v) ==> v@ == self@.1[type_key()],
    {
        let key: [u8; 4] = [116u8, 121u8, 112u8, 101u8];
        proof {
            assert(key@ =~= type_key());
        }
        self.params.get(&key)
    }
}

} // verus!

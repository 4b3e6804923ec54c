//! Mount points of the file-system document loader: which local file an
//! IRI is read from.
use vstd::prelude::*;
use crate::text::{chars_of, is_prefix, starts_with, string_of};

verus! {

/// Whether `url` falls under the mount point IRI `target`: `target` is a
/// prefix of `url` and ends at a path boundary (the rest of `url` is empty
/// or starts with `/`, or `target` itself ends with `/`).
pub open spec fn at_boundary(url: Seq<char>, target: Seq<char>) -> bool {
    &&& is_prefix(target, url)
    &&& url.len() == target.len() || url[target.len() as int] == '/' || (target.len() > 0
        && target.last() == '/')
}

/// The first mount point that `url` falls under, if any.
pub open spec fn first_mount(mounts: Seq<(Seq<char>, Seq<char>)>, url: Seq<char>) -> Option<int> {
    if exists|i: int| 0 <= i < mounts.len() && at_boundary(url, #[trigger] mounts[i].1) {
        Some(
            choose|i: int|
                0 <= i < mounts.len() && at_boundary(url, #[trigger] mounts[i].1) && forall|j: int|
                    0 <= j < i ==> !at_boundary(url, #[trigger] mounts[j].1),
        )
    } else {
        None
    }
}

/// Reads `s` from the left: the segments completed so far and the one being
/// read, a `/` ending a non-empty segment.
pub open spec fn split_scan(s: Seq<char>) -> (Seq<Seq<char>>, Seq<char>)
    decreases s.len(),
{
    if s.len() == 0 {
        (Seq::empty(), Seq::empty())
    } else {
        let (done, cur) = split_scan(s.drop_last());
        if s.last() == '/' {
            if cur.len() > 0 {
                (done.push(cur), Seq::empty())
            } else {
                (done, cur)
            }
        } else {
            (done, cur.push(s.last()))
        }
    }
}

/// The non-empty `/`-separated segments of `s`, in order.
pub open spec fn path_segments(s: Seq<char>) -> Seq<Seq<char>> {
    let (done, cur) = split_scan(s);
    if cur.len() > 0 {
        done.push(cur)
    } else {
        done
    }
}

/// Whether a segment is a single normal path component: neither `.` nor
/// `..`.
pub open spec fn is_normal_segment(seg: Seq<char>) -> bool {
    seg != seq!['.'] && seg != seq!['.', '.']
}

/// Whether a character may stand in a plain segment: an ASCII letter or
/// digit, `-`, `_` or `.`.
pub open spec fn plain_char(c: char) -> bool {
    ('a' <= c && c <= 'z') || ('A' <= c && c <= 'Z') || ('0' <= c && c <= '9') || c == '-' || c == '_' || c == '.'
}

/// Whether a segment is plain: non-empty, made of [`plain_char`]s only, and
/// neither `.` nor `..`; every platform reads it as one normal component.
pub open spec fn plain_segment(seg: Seq<char>) -> bool {
    &&& seg.len() > 0
    &&& forall|i: int| 0 <= i < seg.len() ==> plain_char(#[trigger] seg[i])
    &&& is_normal_segment(seg)
}

/// Whether `url` falls under a mount point of `mounts` and every segment
/// of the rest of `url` is plain.
pub open spec fn plainly_mounted(mounts: Seq<(Seq<char>, Seq<char>)>, url: Seq<char>) -> bool {
    match first_mount(mounts, url) {
        None => false,
        Some(i) => {
            let segs = path_segments(url.skip(mounts[i].1.len() as int));
            forall|k: int| 0 <= k < segs.len() ==> plain_segment(#[trigger] segs[k])
        },
    }
}

/// The path `p` extended by the relative component `seg`, with a `/`
/// between them unless `p` is empty or already ends with one.
pub open spec fn push_segment(p: Seq<char>, seg: Seq<char>) -> Seq<char> {
    if p.len() == 0 || p.last() == '/' {
        p + seg
    } else {
        p.push('/') + seg
    }
}

/// The path `base` extended by each of `segs` in turn.
pub open spec fn join_segments(base: Seq<char>, segs: Seq<Seq<char>>) -> Seq<char>
    decreases segs.len(),
{
    if segs.len() == 0 {
        base
    } else {
        push_segment(join_segments(base, segs.drop_last()), segs.last())
    }
}

/// The local path that `url` is read from under the mount points `mounts`
/// (each a directory and an IRI prefix): found through the first mount
/// point that `url` falls under, and refused when a segment of the rest of
/// `url` is `.` or `..`.
pub open spec fn mounted_path(mounts: Seq<(Seq<char>, Seq<char>)>, url: Seq<char>) -> Option<Seq<char>> {
    match first_mount(mounts, url) {
        None => None,
        Some(i) => {
            let segs = path_segments(url.skip(mounts[i].1.len() as int));
            if forall|k: int| 0 <= k < segs.len() ==> is_normal_segment(#[trigger] segs[k]) {
                Some(join_segments(mounts[i].0, segs))
            } else {
                None
            }
        },
    }
}

proof fn lemma_split_scan_step(s: Seq<char>, c: char)
    ensures
        split_scan(s.push(c)) == ({
            let (done, cur) = split_scan(s);
            if c == '/' {
                if cur.len() > 0 {
                    (done.push(cur), Seq::<char>::empty())
                } else {
                    (done, cur)
                }
            } else {
                (done, cur.push(c))
            }
        }),
{
    assert(s.push(c).drop_last() =~= s);
}

proof fn lemma_split_scan_components(s: Seq<char>)
    ensures
        ({
            let (done, cur) = split_scan(s);
            &&& !cur.contains('/')
            &&& forall|k: int| 0 <= k < done.len() ==> (#[trigger] done[k]).len() > 0 && !done[k].contains('/')
        }),
    decreases s.len(),
{
    if s.len() > 0 {
        lemma_split_scan_components(s.drop_last());
        let (done, cur) = split_scan(s.drop_last());
        if s.last() != '/' {
            assert forall|c: char| cur.push(s.last()).contains(c) implies c != '/' by {
                let j = choose|j: int| 0 <= j < cur.push(s.last()).len() && cur.push(s.last())[j] == c;
                if j < cur.len() {
                    assert(cur.contains(cur[j]));
                }
            }
        } else if cur.len() > 0 {
            let d2 = done.push(cur);
            assert forall|k: int| 0 <= k < d2.len() implies (#[trigger] d2[k]).len() > 0 && !d2[k].contains('/') by {
                if k < done.len() {
                    assert(d2[k] == done[k]);
                }
            }
        }
    }
}

/// The segments of a path are non-empty and hold no `/`.
pub proof fn lemma_segments_are_components(s: Seq<char>)
    ensures
        forall|k: int|
            0 <= k < path_segments(s).len() ==> (#[trigger] path_segments(s)[k]).len() > 0
                && !path_segments(s)[k].contains('/'),
{
    lemma_split_scan_components(s);
    let (done, cur) = split_scan(s);
    let segs = path_segments(s);
    if cur.len() > 0 {
        assert forall|k: int| 0 <= k < segs.len() implies (#[trigger] segs[k]).len() > 0 && !segs[k].contains('/') by {
            if k < done.len() {
                assert(segs[k] == done[k]);
            }
        }
    }
}

proof fn lemma_join_extends_base(base: Seq<char>, segs: Seq<Seq<char>>)
    ensures
        is_prefix(base, join_segments(base, segs)),
    decreases segs.len(),
{
    if segs.len() == 0 {
        assert(base.subrange(0, base.len() as int) =~= base);
    } else {
        lemma_join_extends_base(base, segs.drop_last());
        let p = join_segments(base, segs.drop_last());
        let q = join_segments(base, segs);
        assert(p.subrange(0, base.len() as int) == base);
        assert forall|j: int| 0 <= j < base.len() implies q[j] == p[j] by {
            assert(p[j] == p.subrange(0, base.len() as int)[j]);
        }
        assert(q.subrange(0, base.len() as int) =~= base);
    }
}

proof fn lemma_first_mount_from(mounts: Seq<(Seq<char>, Seq<char>)>, url: Seq<char>, k: int) -> (i: int)
    requires
        0 <= k <= mounts.len(),
        exists|i: int| k <= i < mounts.len() && at_boundary(url, #[trigger] mounts[i].1),
        forall|j: int| 0 <= j < k ==> !at_boundary(url, #[trigger] mounts[j].1),
    ensures
        0 <= i < mounts.len(),
        at_boundary(url, mounts[i].1),
        forall|j: int| 0 <= j < i ==> !at_boundary(url, #[trigger] mounts[j].1),
    decreases mounts.len() - k,
{
    if at_boundary(url, mounts[k].1) {
        k
    } else {
        assert forall|j: int| 0 <= j < k + 1 implies !at_boundary(url, #[trigger] mounts[j].1) by {
            if j == k {
            }
        }
        let w = choose|i: int| k <= i < mounts.len() && at_boundary(url, #[trigger] mounts[i].1);
        assert(w != k);
        lemma_first_mount_from(mounts, url, k + 1)
    }
}

/// A path found under the mount points stays inside a mounted directory:
/// it is that directory extended by non-empty components, none of them
/// `.` or `..` and none holding a `/`.
pub proof fn lemma_mounted_path_stays_inside(mounts: Seq<(Seq<char>, Seq<char>)>, url: Seq<char>)
    requires
        mounted_path(mounts, url) is Some,
    ensures
        exists|i: int, segs: Seq<Seq<char>>|
            0 <= i < mounts.len() && mounted_path(mounts, url) == Some(join_segments(mounts[i].0, segs))
                && is_prefix(mounts[i].0, join_segments(mounts[i].0, segs)) && forall|k: int|
                0 <= k < segs.len() ==> is_normal_segment(#[trigger] segs[k]) && segs[k].len() > 0
                    && !segs[k].contains('/'),
{
    let w = choose|i: int| 0 <= i < mounts.len() && at_boundary(url, #[trigger] mounts[i].1);
    let first = lemma_first_mount_from(mounts, url, 0);
    let i = first_mount(mounts, url)->0;
    let segs = path_segments(url.skip(mounts[i].1.len() as int));
    lemma_segments_are_components(url.skip(mounts[i].1.len() as int));
    lemma_join_extends_base(mounts[i].0, segs);
    assert(0 <= i < mounts.len());
}

/// A file-system document loader: directories attached to IRI prefixes.
pub struct FsLoader {
    mount_points: Vec<(String, String)>,
}

impl View for FsLoader {
    type V = Seq<(Seq<char>, Seq<char>)>;

    /// The mount points in the order they were added, each as its
    /// directory and its IRI prefix.
    closed spec fn view(&self) -> Seq<(Seq<char>, Seq<char>)> {
        self.mount_points@.map_values(|m: (String, String)| (m.0@, m.1@))
    }
}

/// Whether `seg` is a single normal component of a path on this
/// platform, as `std::path::Path::components` reads it.
///
/// Trusted: as the documentation of `Path::components` says, `.` and `..`
/// are never normal components, and a non-empty name with no separator,
/// no prefix and no `.`/`..` meaning (here: ASCII letters, digits, `-`,
/// `_` and `.`) is one normal component on every platform. What else the
/// platform refuses (a separator of its own, a drive prefix) is left open.
#[verifier::external_body]
fn single_normal_component(seg: &str) -> (b: bool)
    ensures
        b ==> is_normal_segment(seg@),
        plain_segment(seg@) ==> b,
{
    let mut components = std::path::Path::new(seg).components();
    match (components.next(), components.next()) {
        (Some(std::path::Component::Normal(_)), None) => true,
        _ => false,
    }
}

/// Whether `cur` is accepted as a single normal path component.
fn normal_segment(cur: &Vec<char>) -> (r: bool)
    ensures
        r ==> is_normal_segment(cur@),
        plain_segment(cur@) ==> r,
{
    let s = string_of(cur.as_slice());
    single_normal_component(s.as_str())
}

/// Extends the path `out` by the component `seg`.
fn push_path_segment(out: &mut Vec<char>, seg: &Vec<char>)
    ensures
        final(out)@ == push_segment(old(out)@, seg@),
{
    if out.len() > 0 && out[out.len() - 1] != '/' {
        out.push('/');
    }
    let mut copy = seg.clone();
    proof {
        assert(copy@ =~= seg@);
    }
    out.append(&mut copy);
}

/// The path under `base` that the rest of `url` from `start` names, or
/// `None` when one of its segments is `.` or `..`.
fn build_path(base: &str, url: &Vec<char>, start: usize) -> (r: Option<String>)
    requires
        start <= url@.len(),
    ensures
        ({
            let segs = path_segments(url@.skip(start as int));
            match r {
                Some(p) => (forall|k: int| 0 <= k < segs.len() ==> is_normal_segment(#[trigger] segs[k]))
                    && p@ == join_segments(base@, segs),
                None => true,
            }
        }),
        (forall|k: int| 0 <= k < path_segments(url@.skip(start as int)).len() ==> plain_segment(
            #[trigger] path_segments(url@.skip(start as int))[k],
        )) ==> r is Some,
{
    let mut out = chars_of(base);
    let mut cur: Vec<char> = Vec::new();
    let mut ok = true;
    let mut i = start;
    let ghost mut done: Seq<Seq<char>> = Seq::empty();
    while i < url.len()
        invariant
            start <= i <= url@.len(),
            split_scan(url@.subrange(start as int, i as int)) == (done, cur@),
            ok ==> (forall|k: int| 0 <= k < done.len() ==> is_normal_segment(#[trigger] done[k])),
            ok ==> out@ == join_segments(base@, done),
            (forall|k: int| 0 <= k < done.len() ==> plain_segment(#[trigger] done[k])) ==> ok,
            forall|k: int| 0 <= k < done.len() ==> (#[trigger] done[k]).len() > 0,
        decreases url@.len() - i,
    {
        let c = url[i];
        proof {
            assert(url@.subrange(start as int, i + 1) =~= url@.subrange(start as int, i as int).push(c));
            lemma_split_scan_step(url@.subrange(start as int, i as int), c);
        }
        if c == '/' {
            if cur.len() > 0 {
                let good = normal_segment(&cur);
                if ok && good {
                    push_path_segment(&mut out, &cur);
                }
                proof {
                    let d2 = done.push(cur@);
                    assert(d2.drop_last() =~= done);
                    if ok && good {
                        assert forall|k: int| 0 <= k < d2.len() implies is_normal_segment(#[trigger] d2[k]) by {
                            if k < done.len() {
                                assert(d2[k] == done[k]);
                            }
                        }
                    }
                    if forall|k: int| 0 <= k < d2.len() ==> plain_segment(#[trigger] d2[k]) {
                        assert forall|k: int| 0 <= k < done.len() implies plain_segment(#[trigger] done[k]) by {
                            assert(d2[k] == done[k]);
                        }
                        assert(plain_segment(d2[done.len() as int]));
                    }
                    assert forall|k: int| 0 <= k < d2.len() implies (#[trigger] d2[k]).len() > 0 by {
                        if k < done.len() {
                            assert(d2[k] == done[k]);
                        }
                    }
                    done = d2;
                }
                ok = ok && good;
                cur = Vec::new();
            }
        } else {
            cur.push(c);
        }
        i = i + 1;
    }
    proof {
        assert(url@.subrange(start as int, url@.len() as int) =~= url@.skip(start as int));
    }
    if cur.len() > 0 {
        let good = normal_segment(&cur);
        proof {
            let d2 = done.push(cur@);
            assert(path_segments(url@.skip(start as int)) == d2);
            assert(d2.drop_last() =~= done);
            if ok && good {
                assert forall|k: int| 0 <= k < d2.len() implies is_normal_segment(#[trigger] d2[k]) by {
                    if k < done.len() {
                        assert(d2[k] == done[k]);
                    }
                }
            }
            if forall|k: int| 0 <= k < d2.len() ==> plain_segment(#[trigger] d2[k]) {
                assert forall|k: int| 0 <= k < done.len() implies plain_segment(#[trigger] done[k]) by {
                    assert(d2[k] == done[k]);
                }
                assert(plain_segment(d2[done.len() as int]));
            }
        }
        if !(ok && good) {
            return None;
        }
        push_path_segment(&mut out, &cur);
    } else if !ok {
        return None;
    }
    proof {
        if cur.len() == 0 {
            assert(path_segments(url@.skip(start as int)) == done);
        }
    }
    Some(string_of(&out))
}

impl FsLoader {
    /// A loader with no mount point.
    pub fn new() -> (l: Self)
        ensures
            l@ == Seq::<(Seq<char>, Seq<char>)>::empty(),
    {
        let l = FsLoader { mount_points: Vec::new() };
        proof {
            assert(l@ =~= Seq::<(Seq<char>, Seq<char>)>::empty());
        }
        l
    }

    /// Binds the IRI prefix `url` to the directory `path`: documents whose
    /// IRI falls under `url` are read from under `path`.
    pub fn mount(&mut self, url: String, path: String)
        ensures
            final(self)@ == old(self)@.push((path@, url@)),
    {
        let ghost before = self.mount_points@;
        self.mount_points.push((path, url));
        proof {
            assert(self.mount_points@ =~= before.push((path, url)));
            assert(self@ =~= old(self)@.push((path@, url@)));
        }
    }

    /// The local file path of `url`, if any.
    ///
    /// `url` must fall under a mount point at a path boundary (mounting
    /// `http://example.com/a` does not capture `http://example.com/abc`),
    /// and the path is built from single normal components only: an IRI
    /// with a `.` or `..` segment gives `None`, and so does a segment that
    /// the platform reads as something else. Paths are joined with `/`.
    pub fn filepath(&self, url: &str) -> (r: Option<String>)
        ensures
            r matches Some(p) ==> mounted_path(self@, url@) == Some(p@),
            mounted_path(self@, url@) is None ==> r is None,
            plainly_mounted(self@, url@) ==> r is Some,
    {
        let url_chars = chars_of(url);
        let mut i: usize = 0;
        while i < self.mount_points.len()
            invariant
                i <= self@.len(),
                self@.len() == self.mount_points@.len(),
                url_chars@ == url@,
                forall|j: int| 0 <= j < i ==> !at_boundary(url@, #[trigger] self@[j].1),
            decreases self.mount_points@.len() - i,
        {
            let target = chars_of(self.mount_points[i].1.as_str());
            proof {
                assert(self@[i as int] == (self.mount_points@[i as int].0@, self.mount_points@[i as int].1@));
            }
            if starts_with(&url_chars, &target) {
                let n = target.len();
                if n == url_chars.len() || url_chars[n] == '/' || (n > 0 && target[n - 1] == '/') {
                    let ghost mounts = self@;
                    proof {
                        assert(at_boundary(url@, mounts[i as int].1));
                        let k = choose|k: int|
                            0 <= k < mounts.len() && at_boundary(url@, #[trigger] mounts[k].1) && forall|j: int|
                                0 <= j < k ==> !at_boundary(url@, #[trigger] mounts[j].1);
                        assert(k == i) by {
                            if k < i {
                                assert(!at_boundary(url@, mounts[k].1));
                            }
                            if k > i {
                                assert(!at_boundary(url@, mounts[i as int].1));
                            }
                        }
                    }
                    return build_path(self.mount_points[i].0.as_str(), &url_chars, n);
                }
            }
            i = i + 1;
        }
        None
    }
}

} // verus!

//! The chain of remote contexts being processed.
use vstd::prelude::*;
use vstd::laws_eq::obeys_concrete_eq;
use vstd::std_specs::cmp::PartialEqSpec;

verus! {

/// Maximum depth of the remote context chain.
///
/// Context processing must bound the number of entries in its `remote
/// contexts` array; exceeding it is a `context overflow` error.
pub const MAX_REMOTE_CONTEXTS: usize = 64;

/// The chain of remote context URLs currently being processed: the
/// specification's `remote contexts` array.
///
/// It spots a context that includes itself and bounds the length of a remote
/// context chain at [`MAX_REMOTE_CONTEXTS`]. Whether it is empty also tells
/// whether the context being processed came from a remote document.
#[derive(Clone)]
pub struct ProcessingStack<I> {
    frames: Vec<I>,
}

impl<I> View for ProcessingStack<I> {
    type V = Seq<I>;

    /// The URLs on the stack, oldest first.
    closed spec fn view(&self) -> Seq<I> {
        self.frames@
    }
}

impl<I> ProcessingStack<I> {
    /// Creates an empty stack, meaning no remote context is being processed.
    pub fn new() -> (s: Self)
        ensures
            s@ == Seq::<I>::empty(),
    {
        ProcessingStack { frames: Vec::new() }
    }

    /// Checks whether no remote context has been entered.
    pub fn is_empty(&self) -> (b: bool)
        ensures
            b == (self@.len() == 0),
    {
        self.frames.len() == 0
    }

    /// Returns the number of remote contexts on the stack.
    pub fn len(&self) -> (n: usize)
        ensures
            n == self@.len(),
    {
        self.frames.len()
    }
}

impl<I: PartialEq> ProcessingStack<I> {
    /// Checks whether `url` is already on the stack, meaning entering it would
    /// close a loop.
    pub fn cycle(&self, url: &I) -> (b: bool)
        ensures
            obeys_concrete_eq::<I>() ==> (b == self@.contains(*url)),
            I::obeys_eq_spec() ==> (b <==> exists|j: int| 0 <= j < self@.len() && (#[trigger] self@[j]).eq_spec(url)),
            self@.len() == 0 ==> !b,
    {
        let mut i: usize = 0;
        while i < self.frames.len()
            invariant
                i <= self.frames@.len(),
                obeys_concrete_eq::<I>() ==> forall|j: int| 0 <= j < i ==> self.frames@[j] != *url,
                I::obeys_eq_spec() ==> forall|j: int| 0 <= j < i ==> !(#[trigger] self.frames@[j]).eq_spec(url),
            decreases self.frames@.len() - i,
        {
            if self.frames[i] == *url {
                proof {
                    if I::obeys_eq_spec() {
                        assert(self@[i as int].eq_spec(url));
                    }
                    if obeys_concrete_eq::<I>() {
                        reveal(obeys_concrete_eq);
                        assert(self@[i as int] == *url);
                    }
                }
                return true;
            }
            proof {
                if obeys_concrete_eq::<I>() {
                    reveal(obeys_concrete_eq);
                }
            }
            i = i + 1;
        }
        false
    }

    /// Pushes `url` onto the stack, unless it is already there.
    ///
    /// Returns `true` when the URL was added, and `false` when it was already on
    /// the stack and nothing changed.
    pub fn push(&mut self, url: I) -> (added: bool)
        ensures
            obeys_concrete_eq::<I>() ==> (added == !old(self)@.contains(url)),
            added ==> final(self)@ == old(self)@.push(url),
            !added ==> final(self)@ == old(self)@,
    {
        if self.cycle(&url) {
            false
        } else {
            self.frames.push(url);
            true
        }
    }
}

/// Whether no value occurs twice in `s`.
pub open spec fn no_repeats<I>(s: Seq<I>) -> bool {
    forall|i: int, j: int| 0 <= i < j < s.len() ==> s[i] != s[j]
}

/// A stack built by pushes holds no URL twice: pushing a URL that is not on
/// a stack without repeats (the only case in which [`ProcessingStack::push`]
/// adds it) leaves a stack without repeats.
pub proof fn lemma_push_keeps_no_repeats<I>(before: Seq<I>, url: I)
    requires
        no_repeats(before),
        !before.contains(url),
    ensures
        no_repeats(before.push(url)),
{
    assert forall|i: int, j: int| 0 <= i < j < before.push(url).len() implies before.push(url)[i] != before.push(url)[j] by {
        if j == before.len() {
            assert(before[i] == before.push(url)[i]);
            if before[i] == url {
                assert(before.contains(url));
            }
        }
    }
}

/// The stack that pushing each of `urls` in turn onto an empty stack
/// leaves, each push refused when the URL is already there.
pub open spec fn pushed_all<I>(urls: Seq<I>) -> Seq<I>
    decreases urls.len(),
{
    if urls.len() == 0 {
        Seq::empty()
    } else {
        let before = pushed_all(urls.drop_last());
        if before.contains(urls.last()) {
            before
        } else {
            before.push(urls.last())
        }
    }
}

/// Over any sequence of pushes onto an empty stack, the stack holds no URL
/// twice and holds exactly the URLs pushed, so that its length is the
/// number of distinct URLs pushed and a URL makes a cycle exactly when it
/// was pushed.
pub proof fn lemma_pushed_all<I>(urls: Seq<I>)
    ensures
        no_repeats(pushed_all(urls)),
        forall|u: I| pushed_all(urls).contains(u) <==> urls.contains(u),
        pushed_all(urls).len() == urls.to_set().len(),
    decreases urls.len(),
{
    if urls.len() > 0 {
        let h = urls.drop_last();
        lemma_pushed_all(h);
        let before = pushed_all(h);
        if !before.contains(urls.last()) {
            lemma_push_keeps_no_repeats(before, urls.last());
        }
        assert forall|u: I| pushed_all(urls).contains(u) <==> urls.contains(u) by {
            if urls.contains(u) {
                let i = choose|i: int| 0 <= i < urls.len() && urls[i] == u;
                if i < h.len() {
                    assert(h[i] == u);
                    assert(h.contains(u));
                    let k = choose|k: int| 0 <= k < before.len() && before[k] == u;
                    if !before.contains(urls.last()) {
                        assert(before.push(urls.last())[k] == u);
                    }
                } else {
                    if !before.contains(urls.last()) {
                        assert(before.push(urls.last())[before.len() as int] == u);
                    }
                }
            }
            if pushed_all(urls).contains(u) {
                if before.contains(u) {
                    assert(h.contains(u));
                    let i = choose|i: int| 0 <= i < h.len() && h[i] == u;
                    assert(urls[i] == u);
                } else {
                    assert(u == urls.last());
                    assert(urls[urls.len() - 1] == u);
                }
            }
        }
    }
    lemma_no_repeats_set_len(pushed_all(urls));
    assert(pushed_all(urls).to_set() =~= urls.to_set());
}

/// A sequence with no value twice has as many values as its set.
proof fn lemma_no_repeats_set_len<I>(s: Seq<I>)
    requires
        no_repeats(s),
    ensures
        s.len() == s.to_set().len(),
{
    assert(s.no_duplicates());
    s.unique_seq_to_set();
}

/// Once `url` is pushed the stack holds it: entering it again is a cycle,
/// and a second push of it is refused.
pub proof fn lemma_push_then_cycle<I>(before: Seq<I>, url: I)
    ensures
        before.push(url).contains(url),
{
    assert(before.push(url)[before.len() as int] == url);
}

} // verus!

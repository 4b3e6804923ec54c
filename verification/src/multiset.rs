//! Multisets of values, compared without regard to order.
use vstd::prelude::*;
use vstd::laws_eq::obeys_concrete_eq;
use vstd::multiset::Multiset;
use vstd::std_specs::cmp::PartialEqSpec;


verus! {

broadcast use vstd::seq_lib::group_to_multiset_ensures, vstd::multiset::group_multiset_axioms;

/// Multi-set of values, kept in insertion order.
#[derive(Debug, Clone)]
pub struct MultiSet<T> {
    data: Vec<T>,
}

impl<T> View for MultiSet<T> {
    type V = Seq<T>;

    /// The values of the multiset in insertion order, duplicates included.
    closed spec fn view(&self) -> Seq<T> {
        self.data@
    }
}

impl<T> MultiSet<T> {
    /// The values of the multiset with their number of occurrences.
    pub open spec fn contents(&self) -> Multiset<T> {
        self@.to_multiset()
    }

    /// Creates an empty multiset.
    pub fn new() -> (m: Self)
        ensures
            m@ == Seq::<T>::empty(),
    {
        MultiSet { data: Vec::new() }
    }

    /// Creates an empty multiset with room for `cap` values.
    pub fn with_capacity(cap: usize) -> (m: Self)
        ensures
            m@ == Seq::<T>::empty(),
    {
        MultiSet { data: Vec::with_capacity(cap) }
    }

    /// Returns the number of values in the multiset, duplicates included.
    pub fn len(&self) -> (n: usize)
        ensures
            n == self@.len(),
    {
        self.data.len()
    }

    /// Checks whether the multiset holds no values.
    pub fn is_empty(&self) -> (b: bool)
        ensures
            b == (self@.len() == 0),
    {
        self.data.len() == 0
    }

    /// Returns the values of the multiset as a slice, in insertion order.
    pub fn as_slice(&self) -> (s: &[T])
        ensures
            s@ == self@,
    {
        self.data.as_slice()
    }

    /// An iterator over the values, in insertion order.
    pub fn iter(&self) -> (it: std::slice::Iter<'_, T>)
        ensures
            vstd::std_specs::iter::IteratorSpec::remaining(&it) == self@.as_ref(),
    {
        proof {
            broadcast use vstd::std_specs::slice::axiom_spec_slice_iter;
        }
        self.data.as_slice().iter()
    }

    /// Builds a multiset holding a single value.
    pub fn singleton(value: T) -> (m: Self)
        ensures
            m@ == seq![value],
    {
        let mut result = Self::new();
        result.insert(value);
        result
    }

    /// Inserts a value. Duplicates are kept: inserting a value already
    /// present adds another occurrence of it.
    pub fn insert(&mut self, value: T)
        ensures
            final(self)@ == old(self)@.push(value),
            final(self).contents() == old(self).contents().insert(value),
    {
        self.data.push(value);
    }

    /// Consumes the multiset, returning its values in insertion order.
    pub fn into_vec(self) -> (v: Vec<T>)
        ensures
            v@ == self@,
    {
        self.data
    }
}

impl<T: PartialEq> MultiSet<T> {
    /// Checks whether the multiset holds the given value.
    pub fn contains(&self, value: &T) -> (b: bool)
        ensures
            obeys_concrete_eq::<T>() ==> (b == self@.contains(*value)),
            T::obeys_eq_spec() ==> (b <==> exists|j: int| 0 <= j < self@.len() && (#[trigger] self@[j]).eq_spec(value)),
    {
        let mut i: usize = 0;
        while i < self.data.len()
            invariant
                i <= self.data@.len(),
                obeys_concrete_eq::<T>() ==> forall|j: int| 0 <= j < i ==> self.data@[j] != *value,
                T::obeys_eq_spec() ==> forall|j: int| 0 <= j < i ==> !(#[trigger] self.data@[j]).eq_spec(value),
            decreases self.data@.len() - i,
        {
            if self.data[i] == *value {
                proof {
                    if T::obeys_eq_spec() {
                        assert(self@[i as int].eq_spec(value));
                    }
                    if obeys_concrete_eq::<T>() {
                        reveal(obeys_concrete_eq);
                        assert(self@[i as int] == *value);
                    }
                }
                return true;
            }
            proof {
                if obeys_concrete_eq::<T>() {
                    reveal(obeys_concrete_eq);
                }
            }
            i = i + 1;
        }
        false
    }

    /// Inserts the value only if it is not already present. Returns `true`
    /// if it was inserted.
    pub fn insert_unique(&mut self, value: T) -> (b: bool)
        ensures
            obeys_concrete_eq::<T>() ==> (b == !old(self)@.contains(value)),
            T::obeys_eq_spec() ==> (b <==> !exists|j: int| 0 <= j < old(self)@.len() && (#[trigger] old(self)@[j]).eq_spec(&value)),
            b ==> final(self)@ == old(self)@.push(value),
            !b ==> final(self)@ == old(self)@,
    {
        if self.contains(&value) {
            false
        } else {
            self.insert(value);
            true
        }
    }

    /// Compares two multisets without regard to the order of their values.
    pub fn equivalent(&self, other: &MultiSet<T>) -> (b: bool)
        ensures
            obeys_concrete_eq::<T>() ==> (b <==> self.contents() == other.contents()),
            self@.len() != other@.len() ==> !b,
            T::obeys_eq_spec() && b ==> exists|p: Seq<int>| paired_by(self@, other@, p),
            T::obeys_eq_spec() && eq_is_equivalence::<T>() && (exists|p: Seq<int>| paired_by(self@, other@, p)) ==> b,
    {
        compare_unordered(self.data.as_slice(), other.data.as_slice())
    }
}

/// The values of `b` at the positions marked taken (`free[i]` false).
pub open spec fn taken<T>(b: Seq<T>, free: Seq<bool>) -> Multiset<T>
    decreases b.len(),
{
    if b.len() == 0 || free.len() == 0 {
        Multiset::empty()
    } else {
        let rest = taken(b.drop_last(), free.drop_last());
        if free.last() { rest } else { rest.insert(b.last()) }
    }
}

/// The values of `b` at the positions still free.
pub open spec fn left<T>(b: Seq<T>, free: Seq<bool>) -> Multiset<T>
    decreases b.len(),
{
    if b.len() == 0 || free.len() == 0 {
        Multiset::empty()
    } else {
        let rest = left(b.drop_last(), free.drop_last());
        if free.last() { rest.insert(b.last()) } else { rest }
    }
}

proof fn lemma_split<T>(b: Seq<T>, free: Seq<bool>)
    requires
        b.len() == free.len(),
    ensures
        taken(b, free).add(left(b, free)) =~= b.to_multiset(),
    decreases b.len(),
{
    if b.len() > 0 {
        lemma_split(b.drop_last(), free.drop_last());
        assert(b.drop_last().push(b.last()) =~= b);
    } else {
        assert(b.to_multiset() =~= Multiset::empty());
    }
}

proof fn lemma_take<T>(b: Seq<T>, free: Seq<bool>, j: int)
    requires
        b.len() == free.len(),
        0 <= j < b.len(),
        free[j],
    ensures
        taken(b, free.update(j, false)) =~= taken(b, free).insert(b[j]),
        left(b, free.update(j, false)) =~= left(b, free).remove(b[j]),
        left(b, free).count(b[j]) > 0,
    decreases b.len(),
{
    let f2 = free.update(j, false);
    if j == b.len() - 1 {
        assert(f2.drop_last() =~= free.drop_last());
    } else {
        assert(f2.drop_last() =~= free.drop_last().update(j, false));
        lemma_take(b.drop_last(), free.drop_last(), j);
    }
}

proof fn lemma_left_without<T>(b: Seq<T>, free: Seq<bool>, x: T)
    requires
        b.len() == free.len(),
        forall|j: int| 0 <= j < b.len() && free[j] ==> b[j] != x,
    ensures
        left(b, free).count(x) == 0,
    decreases b.len(),
{
    if b.len() > 0 {
        lemma_left_without(b.drop_last(), free.drop_last(), x);
    }
}

/// Whether `p` pairs each value of `a` with a value of `b` that `==` finds
/// equal to it, no value of `b` taken twice, and both have the same length.
pub open spec fn paired_by<T: PartialEq>(a: Seq<T>, b: Seq<T>, p: Seq<int>) -> bool {
    &&& p.len() == a.len()
    &&& a.len() == b.len()
    &&& forall|k: int| 0 <= k < p.len() ==> 0 <= #[trigger] p[k] < b.len() && a[k].eq_spec(&b[p[k]])
    &&& forall|k1: int, k2: int| 0 <= k1 < k2 < p.len() ==> #[trigger] p[k1] != #[trigger] p[k2]
}

/// Whether `==` on `T` is an equivalence: symmetric and transitive.
pub open spec fn eq_is_equivalence<T: PartialEq>() -> bool {
    &&& forall|x: T, y: T| #[trigger] x.eq_spec(&y) ==> y.eq_spec(&x)
    &&& forall|x: T, y: T, z: T| #[trigger] x.eq_spec(&y) && #[trigger] y.eq_spec(&z) ==> x.eq_spec(&z)
}

/// Compares two slices as multisets: they hold the same values, each the
/// same number of times, in any order.
///
/// Matches greedily: every value of `a` takes the first still-free equal
/// value of `b`. Whatever `==` is, a `true` answer comes with a pairing of
/// the values of `a` with those of `b`.
pub fn compare_unordered<T: PartialEq>(a: &[T], b: &[T]) -> (r: bool)
    ensures
        obeys_concrete_eq::<T>() ==> (r <==> a@.to_multiset() == b@.to_multiset()),
        a@.len() != b@.len() ==> !r,
        T::obeys_eq_spec() && r ==> exists|p: Seq<int>| paired_by(a@, b@, p),
        T::obeys_eq_spec() && eq_is_equivalence::<T>() && (exists|p: Seq<int>| paired_by(a@, b@, p)) ==> r,
{
    if a.len() != b.len() {
        proof {
            assert(a@.to_multiset().len() == a@.len());
            assert(b@.to_multiset().len() == b@.len());
        }
        return false;
    }
    let n = b.len();
    let mut free: Vec<bool> = Vec::new();
    let mut k: usize = 0;
    while k < n
        invariant
            k <= n,
            n == b@.len(),
            free@.len() == k,
            forall|j: int| 0 <= j < k ==> free@[j],
        decreases n - k,
    {
        free.push(true);
        k = k + 1;
    }
    proof {
        assert(taken(b@, free@) =~= Multiset::empty()) by {
            lemma_all_free(b@, free@);
        }
    }
    let mut i: usize = 0;
    let ghost mut pairing: Seq<int> = Seq::empty();
    let ghost eqv: bool = T::obeys_eq_spec() && eq_is_equivalence::<T>() && exists|p: Seq<int>| paired_by(a@, b@, p);
    let ghost mut q: Seq<int> = if eqv {
        choose|p: Seq<int>| paired_by(a@, b@, p)
    } else {
        Seq::empty()
    };
    while i < a.len()
        invariant
            eqv == (T::obeys_eq_spec() && eq_is_equivalence::<T>() && exists|p: Seq<int>| paired_by(a@, b@, p)),
            eqv ==> q.len() == n,
            eqv ==> forall|k: int| i <= k < n ==> 0 <= #[trigger] q[k] < n && free@[q[k]] && a@[k].eq_spec(&b@[q[k]]),
            eqv ==> forall|k1: int, k2: int| i <= k1 < k2 < n ==> #[trigger] q[k1] != #[trigger] q[k2],
            i <= a@.len(),
            a@.len() == n,
            n == b@.len(),
            free@.len() == n,
            obeys_concrete_eq::<T>() ==> taken(b@, free@) == a@.subrange(0, i as int).to_multiset(),
            pairing.len() == i,
            forall|k: int| 0 <= k < i ==> 0 <= #[trigger] pairing[k] < n && !free@[pairing[k]],
            T::obeys_eq_spec() ==> forall|k: int| 0 <= k < i ==> a@[k].eq_spec(&b@[#[trigger] pairing[k]]),
            forall|k1: int, k2: int| 0 <= k1 < k2 < i ==> #[trigger] pairing[k1] != #[trigger] pairing[k2],
        decreases a@.len() - i,
    {
        let item = &a[i];
        let mut j: usize = 0;
        let mut found = false;
        let ghost free_before = free@;
        while j < n && !found
            invariant
                j <= n,
                i < a@.len(),
                n == b@.len(),
                free@.len() == n,
                *item == a@[i as int],
                !found ==> (obeys_concrete_eq::<T>() ==> taken(b@, free@) == a@.subrange(0, i as int).to_multiset()),
                !found ==> (obeys_concrete_eq::<T>() ==> forall|m: int| 0 <= m < j && free@[m] ==> b@[m] != *item),
                found ==> (obeys_concrete_eq::<T>() ==> taken(b@, free@) == a@.subrange(0, i + 1).to_multiset()),
                !found ==> free@ == free_before,
                found ==> 0 < j <= n && free_before[j - 1] && free@ == free_before.update(j - 1, false),
                found ==> (T::obeys_eq_spec() ==> a@[i as int].eq_spec(&b@[j - 1])),
                !found ==> (T::obeys_eq_spec() ==> forall|m: int| 0 <= m < j && free@[m] ==> !a@[i as int].eq_spec(&b@[m])),
            decreases n - j + (if found { 0int } else { 1int }),
        {
            if free[j] && *item == b[j] {
                proof {
                    if obeys_concrete_eq::<T>() {
                        reveal(obeys_concrete_eq);
                        lemma_take(b@, free@, j as int);
                        assert(a@.subrange(0, i + 1) =~= a@.subrange(0, i as int).push(a@[i as int]));
                    }
                }
                free.set(j, false);
                found = true;
                j = j + 1;
            } else {
                proof {
                    if obeys_concrete_eq::<T>() {
                        reveal(obeys_concrete_eq);
                    }
                }
                j = j + 1;
            }
        }
        if !found {
            proof {
                if eqv {
                    let qi = q[i as int];
                    assert(free@[qi] && a@[i as int].eq_spec(&b@[qi]));
                }
                if obeys_concrete_eq::<T>() {
                    let x = a@[i as int];
                    lemma_left_without(b@, free@, x);
                    lemma_split(b@, free@);
                    assert(a@.subrange(0, i + 1) =~= a@.subrange(0, i as int).push(x));
                    lemma_prefix_count_le(a@, i + 1, x);
                    assert(a@.subrange(0, i + 1).to_multiset().count(x) == a@.subrange(0, i as int).to_multiset().count(x) + 1);
                    assert(b@.to_multiset().count(x) == taken(b@, free@).count(x));
                    assert(a@.to_multiset().count(x) != b@.to_multiset().count(x));
                }
            }
            return false;
        }
        proof {
            let jj = j - 1;
            assert forall|k: int| 0 <= k < i implies pairing[k] != jj by {
                assert(!free_before[pairing[k]]);
            }
            pairing = pairing.push(jj as int);
            if eqv {
                let qi = q[i as int];
                if exists|k: int| i < k < n && q[k] == jj {
                    let ks = choose|k: int| i < k < n && q[k] == jj;
                    assert(qi != jj);
                    assert(a@[ks].eq_spec(&b@[jj]));
                    assert(b@[jj].eq_spec(&a@[i as int]));
                    assert(a@[ks].eq_spec(&a@[i as int]));
                    assert(a@[ks].eq_spec(&b@[qi]));
                    let q0 = q;
                    q = q.update(ks, qi);
                    assert forall|k1: int, k2: int| i + 1 <= k1 < k2 < n implies #[trigger] q[k1] != #[trigger] q[k2] by {
                        if k1 == ks {
                            assert(q0[k2] != q0[i as int]);
                        } else if k2 == ks {
                            assert(q0[k1] != q0[i as int]);
                        } else {
                            assert(q0[k1] != q0[k2]);
                        }
                    }
                    assert forall|k: int| i + 1 <= k < n implies 0 <= #[trigger] q[k] < n && free@[q[k]] && a@[k].eq_spec(&b@[q[k]]) by {
                        if k != ks {
                            assert(q0[k] != q0[ks]);
                        }
                    }
                } else {
                    assert forall|k: int| i + 1 <= k < n implies 0 <= #[trigger] q[k] < n && free@[q[k]] && a@[k].eq_spec(&b@[q[k]]) by {
                        assert(q[k] != jj);
                    }
                }
            }
        }
        i = i + 1;
    }
    proof {
        if obeys_concrete_eq::<T>() {
            assert(a@.subrange(0, n as int) =~= a@);
            lemma_split(b@, free@);
            assert(a@.to_multiset().len() == n);
            assert(b@.to_multiset().len() == n);
            assert(left(b@, free@).len() == 0);
            assert(left(b@, free@) =~= Multiset::empty());
            assert(taken(b@, free@).add(Multiset::empty()) =~= taken(b@, free@));
        }
        if T::obeys_eq_spec() {
            assert(paired_by(a@, b@, pairing));
        }
    }
    true
}

proof fn lemma_all_free<T>(b: Seq<T>, free: Seq<bool>)
    requires
        b.len() == free.len(),
        forall|j: int| 0 <= j < free.len() ==> free[j],
    ensures
        taken(b, free) =~= Multiset::empty(),
    decreases b.len(),
{
    if b.len() > 0 {
        lemma_all_free(b.drop_last(), free.drop_last());
    }
}

proof fn lemma_prefix_count_le<T>(a: Seq<T>, n: int, x: T)
    requires
        0 <= n <= a.len(),
    ensures
        a.subrange(0, n).to_multiset().count(x) <= a.to_multiset().count(x),
    decreases a.len() - n,
{
    if n < a.len() {
        lemma_prefix_count_le(a, n + 1, x);
        assert(a.subrange(0, n + 1) =~= a.subrange(0, n).push(a[n]));
    } else {
        assert(a.subrange(0, n) =~= a);
    }
}

/// Compares two optional slices as multisets; two absent slices are equal.
pub fn compare_unordered_opt<T: PartialEq>(a: Option<&[T]>, b: Option<&[T]>) -> (r: bool)
    ensures
        obeys_concrete_eq::<T>() ==> (r <==> match (a, b) {
            (Some(x), Some(y)) => x@.to_multiset() == y@.to_multiset(),
            (None, None) => true,
            _ => false,
        }),
        (a is Some) != (b is Some) ==> !r,
        T::obeys_eq_spec() && r ==> match (a, b) {
            (Some(x), Some(y)) => exists|p: Seq<int>| paired_by(x@, y@, p),
            _ => true,
        },
        T::obeys_eq_spec() && eq_is_equivalence::<T>() ==> match (a, b) {
            (Some(x), Some(y)) => (exists|p: Seq<int>| paired_by(x@, y@, p)) ==> r,
            _ => true,
        },
{
    match (a, b) {
        (Some(a), Some(b)) => compare_unordered(a, b),
        (None, None) => true,
        _ => false,
    }
}

} // verus!

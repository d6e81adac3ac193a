use vstd::prelude::*;

verus! {

use core::cmp::Ordering;

/// A value that can hand out an exact copy of itself.
///
/// The lock-aware insertion operations take the candidate element's value out
/// of its lock once, up front, and compare the stored elements against that
/// snapshot; `duplicate` is what takes the snapshot.
pub trait Duplicable: Sized {
    fn duplicate(&self) -> (r: Self)
        ensures
            r == *self,
    ;
}

/// A total order on a value type: a `le_spec` relation together with proofs
/// that the relation is total and transitive, and an executable comparison
/// that agrees with it.
pub trait TotalOrder: Duplicable {
    /// The "belongs no later than" relation of the order.
    spec fn le_spec(self, other: Self) -> bool;

    proof fn lemma_total(a: Self, b: Self)
        ensures
            a.le_spec(b) || b.le_spec(a),
    ;

    proof fn lemma_transitive(a: Self, b: Self, c: Self)
        requires
            a.le_spec(b),
            b.le_spec(c),
        ensures
            a.le_spec(c),
    ;

    fn le(&self, other: &Self) -> (r: bool)
        ensures
            r == self.le_spec(*other),
    ;

    /// Three-way comparison derived from `le`.
    fn compare_with(&self, other: &Self) -> (r: Ordering)
        ensures
            (r == Ordering::Less) == (self.le_spec(*other) && !other.le_spec(*self)),
            (r == Ordering::Equal) == (self.le_spec(*other) && other.le_spec(*self)),
            (r == Ordering::Greater) == (!self.le_spec(*other) && other.le_spec(*self)),
    {
        let le_ab = self.le(other);
        let le_ba = other.le(self);
        proof {
            Self::lemma_total(*self, *other);
        }
        if le_ab {
            if le_ba {
                Ordering::Equal
            } else {
                Ordering::Less
            }
        } else {
            Ordering::Greater
        }
    }
}

/// Two values that the order cannot tell apart.
pub open spec fn equiv<T: TotalOrder>(a: T, b: T) -> bool {
    a.le_spec(b) && b.le_spec(a)
}

/// Non-decreasing from front to back.
pub open spec fn sorted_asc<T: TotalOrder>(s: Seq<T>) -> bool {
    forall|i: int, j: int| 0 <= i <= j < s.len() ==> s[i].le_spec(s[j])
}

/// Non-increasing from front to back.
pub open spec fn sorted_desc<T: TotalOrder>(s: Seq<T>) -> bool {
    forall|i: int, j: int| 0 <= i <= j < s.len() ==> s[j].le_spec(s[i])
}

/// The position the ascending linear scan selects: every element from `i` on
/// belongs strictly after `e`, and the element just before `i` (if any) does
/// not.  For any `s` and `e` at most one index satisfies this.
pub open spec fn is_linear_asc_index<T: TotalOrder>(s: Seq<T>, e: T, i: int) -> bool {
    &&& 0 <= i <= s.len()
    &&& forall|j: int| i <= j < s.len() ==> !(#[trigger] s[j].le_spec(e))
    &&& i > 0 ==> s[i - 1].le_spec(e)
}

/// Mirror of `is_linear_asc_index` for descending order.
pub open spec fn is_linear_desc_index<T: TotalOrder>(s: Seq<T>, e: T, i: int) -> bool {
    &&& 0 <= i <= s.len()
    &&& forall|j: int| i <= j < s.len() ==> !(#[trigger] e.le_spec(s[j]))
    &&& i > 0 ==> e.le_spec(s[i - 1])
}

/// A position where `e` may be spliced into an ascending-sorted `s` without
/// breaking the order.  Unlike the linear characterization this one is not
/// unique when `s` holds elements tied with `e`.
pub open spec fn is_binary_asc_index<T: TotalOrder>(s: Seq<T>, e: T, i: int) -> bool {
    &&& 0 <= i <= s.len()
    &&& forall|j: int| 0 <= j < i ==> #[trigger] s[j].le_spec(e)
    &&& forall|j: int| i <= j < s.len() ==> #[trigger] e.le_spec(s[j])
}

/// Mirror of `is_binary_asc_index` for descending order.
pub open spec fn is_binary_desc_index<T: TotalOrder>(s: Seq<T>, e: T, i: int) -> bool {
    &&& 0 <= i <= s.len()
    &&& forall|j: int| 0 <= j < i ==> #[trigger] e.le_spec(s[j])
    &&& forall|j: int| i <= j < s.len() ==> #[trigger] s[j].le_spec(e)
}

/// The linear characterization picks one position: two indices that both
/// satisfy it are equal.  This is what makes the linear lock-wrapped and
/// plain operations agree whenever they see the same values.
pub proof fn lemma_linear_asc_index_unique<T: TotalOrder>(s: Seq<T>, e: T, i1: int, i2: int)
    requires
        is_linear_asc_index(s, e, i1),
        is_linear_asc_index(s, e, i2),
    ensures
        i1 == i2,
{
    if i1 < i2 {
        assert(s[i2 - 1].le_spec(e));
        assert(!s[i2 - 1].le_spec(e));
    }
    if i2 < i1 {
        assert(s[i1 - 1].le_spec(e));
        assert(!s[i1 - 1].le_spec(e));
    }
}

/// Descending mirror of `lemma_linear_asc_index_unique`.
pub proof fn lemma_linear_desc_index_unique<T: TotalOrder>(s: Seq<T>, e: T, i1: int, i2: int)
    requires
        is_linear_desc_index(s, e, i1),
        is_linear_desc_index(s, e, i2),
    ensures
        i1 == i2,
{
    if i1 < i2 {
        assert(e.le_spec(s[i2 - 1]));
        assert(!e.le_spec(s[i2 - 1]));
    }
    if i2 < i1 {
        assert(e.le_spec(s[i1 - 1]));
        assert(!e.le_spec(s[i1 - 1]));
    }
}

/// Stability of the ascending linear insert: when the sequence holds elements
/// tied with `e`, the selected position is directly after the last of them.
pub proof fn lemma_linear_asc_stable<T: TotalOrder>(s: Seq<T>, e: T, i: int)
    requires
        sorted_asc(s),
        is_linear_asc_index(s, e, i),
        exists|j: int| 0 <= j < s.len() && equiv(#[trigger] s[j], e),
    ensures
        i > 0,
        equiv(s[i - 1], e),
        forall|j: int| i <= j < s.len() ==> !equiv(#[trigger] s[j], e),
{
    let w = choose|j: int| 0 <= j < s.len() && equiv(#[trigger] s[j], e);
    assert(s[w].le_spec(e));
    assert(w < i);
    T::lemma_transitive(e, s[w], s[i - 1]);
    assert(s[i - 1].le_spec(e));
}

/// Descending mirror of `lemma_linear_asc_stable`.
pub proof fn lemma_linear_desc_stable<T: TotalOrder>(s: Seq<T>, e: T, i: int)
    requires
        sorted_desc(s),
        is_linear_desc_index(s, e, i),
        exists|j: int| 0 <= j < s.len() && equiv(#[trigger] s[j], e),
    ensures
        i > 0,
        equiv(s[i - 1], e),
        forall|j: int| i <= j < s.len() ==> !equiv(#[trigger] s[j], e),
{
    let w = choose|j: int| 0 <= j < s.len() && equiv(#[trigger] s[j], e);
    assert(e.le_spec(s[w]));
    assert(w < i);
    T::lemma_transitive(s[i - 1], s[w], e);
    assert(e.le_spec(s[i - 1]));
}

/// Splicing `e` at its linear ascending position keeps the sequence sorted.
pub proof fn lemma_sorted_asc_insert_linear<T: TotalOrder>(s: Seq<T>, e: T, i: int)
    requires
        sorted_asc(s),
        is_linear_asc_index(s, e, i),
    ensures
        sorted_asc(s.insert(i, e)),
{
    lemma_linear_asc_index_is_binary(s, e, i);
    lemma_sorted_asc_insert_binary(s, e, i);
}

/// Descending mirror of `lemma_sorted_asc_insert_linear`.
pub proof fn lemma_sorted_desc_insert_linear<T: TotalOrder>(s: Seq<T>, e: T, i: int)
    requires
        sorted_desc(s),
        is_linear_desc_index(s, e, i),
    ensures
        sorted_desc(s.insert(i, e)),
{
    lemma_linear_desc_index_is_binary(s, e, i);
    lemma_sorted_desc_insert_binary(s, e, i);
}

/// Splicing `e` at any valid ascending position keeps the sequence sorted.
pub proof fn lemma_sorted_asc_insert_binary<T: TotalOrder>(s: Seq<T>, e: T, i: int)
    requires
        sorted_asc(s),
        is_binary_asc_index(s, e, i),
    ensures
        sorted_asc(s.insert(i, e)),
{
    let t = s.insert(i, e);
    s.insert_ensures(i, e);
    assert forall|p: int, q: int| 0 <= p <= q < t.len() implies t[p].le_spec(t[q]) by {
        T::lemma_total(e, e);
        if q < i {
            assert(s[p].le_spec(s[q]));
        } else if p < i && q == i {
            assert(s[p].le_spec(e));
        } else if p < i && q > i {
            assert(s[p].le_spec(e));
            assert(e.le_spec(s[q - 1]));
            T::lemma_transitive(s[p], e, s[q - 1]);
        } else if p == i && q > i {
            assert(e.le_spec(s[q - 1]));
        } else if p > i {
            assert(s[p - 1].le_spec(s[q - 1]));
        }
    }
}

/// Descending mirror of `lemma_sorted_asc_insert_binary`.
pub proof fn lemma_sorted_desc_insert_binary<T: TotalOrder>(s: Seq<T>, e: T, i: int)
    requires
        sorted_desc(s),
        is_binary_desc_index(s, e, i),
    ensures
        sorted_desc(s.insert(i, e)),
{
    let t = s.insert(i, e);
    s.insert_ensures(i, e);
    assert forall|p: int, q: int| 0 <= p <= q < t.len() implies t[q].le_spec(t[p]) by {
        T::lemma_total(e, e);
        if q < i {
            assert(s[q].le_spec(s[p]));
        } else if p < i && q == i {
            assert(e.le_spec(s[p]));
        } else if p < i && q > i {
            assert(e.le_spec(s[p]));
            assert(s[q - 1].le_spec(e));
            T::lemma_transitive(s[q - 1], e, s[p]);
        } else if p == i && q > i {
            assert(s[q - 1].le_spec(e));
        } else if p > i {
            assert(s[q - 1].le_spec(s[p - 1]));
        }
    }
}

/// In a sorted sequence the linear ascending position is also a valid
/// ascending splice position.
pub proof fn lemma_linear_asc_index_is_binary<T: TotalOrder>(s: Seq<T>, e: T, i: int)
    requires
        sorted_asc(s),
        is_linear_asc_index(s, e, i),
    ensures
        is_binary_asc_index(s, e, i),
{
    assert forall|j: int| 0 <= j < i implies #[trigger] s[j].le_spec(e) by {
        T::lemma_transitive(s[j], s[i - 1], e);
    }
    assert forall|j: int| i <= j < s.len() implies e.le_spec(#[trigger] s[j]) by {
        T::lemma_total(e, s[j]);
    }
}

/// Descending mirror of `lemma_linear_asc_index_is_binary`.
pub proof fn lemma_linear_desc_index_is_binary<T: TotalOrder>(s: Seq<T>, e: T, i: int)
    requires
        sorted_desc(s),
        is_linear_desc_index(s, e, i),
    ensures
        is_binary_desc_index(s, e, i),
{
    assert forall|j: int| 0 <= j < i implies #[trigger] e.le_spec(s[j]) by {
        T::lemma_transitive(e, s[i - 1], s[j]);
    }
    assert forall|j: int| i <= j < s.len() implies #[trigger] s[j].le_spec(e) by {
        T::lemma_total(e, s[j]);
    }
}

/// What the ascending binary search reports — a tie right before the index,
/// or strict bounds on both sides — pins a valid splice position; and when a
/// tie with `e` exists anywhere, the index sits directly after one.
pub proof fn lemma_binary_asc_position<T: TotalOrder>(s: Seq<T>, e: T, i: int)
    requires
        sorted_asc(s),
        0 <= i <= s.len(),
        (i > 0 && equiv(s[i - 1], e)) || ((i == 0 || (s[i - 1].le_spec(e) && !e.le_spec(
            s[i - 1],
        ))) && (i == s.len() || (e.le_spec(s[i]) && !s[i].le_spec(e)))),
    ensures
        is_binary_asc_index(s, e, i),
        (exists|j: int| 0 <= j < s.len() && equiv(#[trigger] s[j], e)) ==> i > 0 && equiv(
            s[i - 1],
            e,
        ),
{
    let n = s.len() as int;
    if i > 0 && equiv(s[i - 1], e) {
        assert forall|j: int| 0 <= j < i implies #[trigger] s[j].le_spec(e) by {
            T::lemma_transitive(s[j], s[i - 1], e);
        }
        assert forall|j: int| i <= j < n implies e.le_spec(#[trigger] s[j]) by {
            T::lemma_transitive(e, s[i - 1], s[j]);
        }
    } else {
        assert forall|j: int| 0 <= j < i implies #[trigger] s[j].le_spec(e) by {
            T::lemma_transitive(s[j], s[i - 1], e);
        }
        assert forall|j: int| i <= j < n implies e.le_spec(#[trigger] s[j]) by {
            T::lemma_transitive(e, s[i], s[j]);
        }
        assert forall|j: int| 0 <= j < n implies !equiv(#[trigger] s[j], e) by {
            if equiv(s[j], e) {
                if j < i {
                    T::lemma_transitive(e, s[j], s[i - 1]);
                } else {
                    T::lemma_transitive(s[i], s[j], e);
                }
            }
        }
    }
}

/// Descending mirror of `lemma_binary_asc_position`.
pub proof fn lemma_binary_desc_position<T: TotalOrder>(s: Seq<T>, e: T, i: int)
    requires
        sorted_desc(s),
        0 <= i <= s.len(),
        (i > 0 && equiv(s[i - 1], e)) || ((i == 0 || (e.le_spec(s[i - 1]) && !s[i - 1].le_spec(
            e,
        ))) && (i == s.len() || (s[i].le_spec(e) && !e.le_spec(s[i])))),
    ensures
        is_binary_desc_index(s, e, i),
        (exists|j: int| 0 <= j < s.len() && equiv(#[trigger] s[j], e)) ==> i > 0 && equiv(
            s[i - 1],
            e,
        ),
{
    let n = s.len() as int;
    if i > 0 && equiv(s[i - 1], e) {
        assert forall|j: int| 0 <= j < i implies #[trigger] e.le_spec(s[j]) by {
            T::lemma_transitive(e, s[i - 1], s[j]);
        }
        assert forall|j: int| i <= j < n implies #[trigger] s[j].le_spec(e) by {
            T::lemma_transitive(s[j], s[i - 1], e);
        }
    } else {
        assert forall|j: int| 0 <= j < i implies #[trigger] e.le_spec(s[j]) by {
            T::lemma_transitive(e, s[i - 1], s[j]);
        }
        assert forall|j: int| i <= j < n implies #[trigger] s[j].le_spec(e) by {
            T::lemma_transitive(s[j], s[i], e);
        }
        assert forall|j: int| 0 <= j < n implies !equiv(#[trigger] s[j], e) by {
            if equiv(s[j], e) {
                if j < i {
                    T::lemma_transitive(s[i - 1], s[j], e);
                } else {
                    T::lemma_transitive(e, s[j], s[i]);
                }
            }
        }
    }
}

impl<A: Duplicable, B: Duplicable> Duplicable for (A, B) {
    fn duplicate(&self) -> (r: Self) {
        (self.0.duplicate(), self.1.duplicate())
    }
}

impl Duplicable for isize {
    fn duplicate(&self) -> (r: Self) {
        *self
    }
}

impl TotalOrder for isize {
    open spec fn le_spec(self, other: Self) -> bool {
        self <= other
    }

    proof fn lemma_total(a: Self, b: Self) {
    }

    proof fn lemma_transitive(a: Self, b: Self, c: Self) {
    }

    fn le(&self, other: &Self) -> (r: bool) {
        *self <= *other
    }
}

impl Duplicable for usize {
    fn duplicate(&self) -> (r: Self) {
        *self
    }
}

impl TotalOrder for usize {
    open spec fn le_spec(self, other: Self) -> bool {
        self <= other
    }

    proof fn lemma_total(a: Self, b: Self) {
    }

    proof fn lemma_transitive(a: Self, b: Self, c: Self) {
    }

    fn le(&self, other: &Self) -> (r: bool) {
        *self <= *other
    }
}

impl Duplicable for i32 {
    fn duplicate(&self) -> (r: Self) {
        *self
    }
}

impl TotalOrder for i32 {
    open spec fn le_spec(self, other: Self) -> bool {
        self <= other
    }

    proof fn lemma_total(a: Self, b: Self) {
    }

    proof fn lemma_transitive(a: Self, b: Self, c: Self) {
    }

    fn le(&self, other: &Self) -> (r: bool) {
        *self <= *other
    }
}

impl Duplicable for i64 {
    fn duplicate(&self) -> (r: Self) {
        *self
    }
}

impl TotalOrder for i64 {
    open spec fn le_spec(self, other: Self) -> bool {
        self <= other
    }

    proof fn lemma_total(a: Self, b: Self) {
    }

    proof fn lemma_transitive(a: Self, b: Self, c: Self) {
    }

    fn le(&self, other: &Self) -> (r: bool) {
        *self <= *other
    }
}

impl Duplicable for u32 {
    fn duplicate(&self) -> (r: Self) {
        *self
    }
}

impl TotalOrder for u32 {
    open spec fn le_spec(self, other: Self) -> bool {
        self <= other
    }

    proof fn lemma_total(a: Self, b: Self) {
    }

    proof fn lemma_transitive(a: Self, b: Self, c: Self) {
    }

    fn le(&self, other: &Self) -> (r: bool) {
        *self <= *other
    }
}

impl Duplicable for u64 {
    fn duplicate(&self) -> (r: Self) {
        *self
    }
}

impl TotalOrder for u64 {
    open spec fn le_spec(self, other: Self) -> bool {
        self <= other
    }

    proof fn lemma_total(a: Self, b: Self) {
    }

    proof fn lemma_transitive(a: Self, b: Self, c: Self) {
    }

    fn le(&self, other: &Self) -> (r: bool) {
        *self <= *other
    }
}

} // verus!

//! Insert one element into an already-sorted sequence and report the index
//! where it landed.  The search for the position is either a linear scan from
//! the back or a binary search; the ordering comes from a raw comparator, a
//! key projection, or the element type's own total order; and the elements
//! are either bare values or shared, lock-protected handles.

pub mod arc_mutex;
pub mod arc_rw_lock;
pub mod collections;
pub mod order;

use vstd::prelude::*;

verus! {

use core::cmp::Ordering;
use crate::order::{
    TotalOrder, equiv, sorted_asc, sorted_desc, is_linear_asc_index, is_linear_desc_index,
    is_binary_asc_index, is_binary_desc_index, lemma_sorted_asc_insert_linear,
    lemma_sorted_desc_insert_linear, lemma_sorted_asc_insert_binary,
    lemma_sorted_desc_insert_binary, lemma_binary_asc_position, lemma_binary_desc_position,
};

/// Some run of the projection keys `x` no later than `y`.
pub open spec fn key_le<T, A: TotalOrder, F: Fn(&T) -> A>(f: F, x: T, y: T) -> bool {
    exists|kx: A, ky: A|
        #[trigger] call_ensures(f, (&x,), kx) && #[trigger] call_ensures(f, (&y,), ky)
            && kx.le_spec(ky)
}

/// Some run of the projection keys `x` strictly after `y`.
pub open spec fn key_gt<T, A: TotalOrder, F: Fn(&T) -> A>(f: F, x: T, y: T) -> bool {
    exists|kx: A, ky: A|
        #[trigger] call_ensures(f, (&x,), kx) && #[trigger] call_ensures(f, (&y,), ky)
            && !kx.le_spec(ky)
}

/// Some run of the projection keys `x` strictly before `y`.
pub open spec fn key_lt<T, A: TotalOrder, F: Fn(&T) -> A>(f: F, x: T, y: T) -> bool {
    exists|kx: A, ky: A|
        #[trigger] call_ensures(f, (&x,), kx) && #[trigger] call_ensures(f, (&y,), ky)
            && kx.le_spec(ky) && !ky.le_spec(kx)
}

/// Some run of the projection gives `x` and `y` keys the order cannot tell
/// apart.
pub open spec fn key_eq<T, A: TotalOrder, F: Fn(&T) -> A>(f: F, x: T, y: T) -> bool {
    exists|kx: A, ky: A|
        #[trigger] call_ensures(f, (&x,), kx) && #[trigger] call_ensures(f, (&y,), ky)
            && kx.le_spec(ky) && ky.le_spec(kx)
}

/// When the projection is the identity, the key relations collapse to the
/// element order itself.
pub proof fn lemma_identity_key_relations<T: TotalOrder, F: Fn(&T) -> T>(f: F, x: T, y: T)
    requires
        forall|e: &T, k: T| #[trigger] call_ensures(f, (e,), k) ==> k == *e,
    ensures
        key_le(f, x, y) ==> x.le_spec(y),
        key_gt(f, x, y) ==> !x.le_spec(y),
        key_lt(f, x, y) ==> x.le_spec(y) && !y.le_spec(x),
        key_eq(f, x, y) ==> equiv(x, y),
{
    if key_le(f, x, y) {
        let (kx, ky): (T, T) = choose|kx: T, ky: T|
            #[trigger] call_ensures(f, (&x,), kx) && #[trigger] call_ensures(f, (&y,), ky)
                && kx.le_spec(ky);
        assert(kx == x && ky == y);
    }
    if key_gt(f, x, y) {
        let (kx, ky): (T, T) = choose|kx: T, ky: T|
            #[trigger] call_ensures(f, (&x,), kx) && #[trigger] call_ensures(f, (&y,), ky)
                && !kx.le_spec(ky);
        assert(kx == x && ky == y);
    }
    if key_lt(f, x, y) {
        let (kx, ky): (T, T) = choose|kx: T, ky: T|
            #[trigger] call_ensures(f, (&x,), kx) && #[trigger] call_ensures(f, (&y,), ky)
                && kx.le_spec(ky) && !ky.le_spec(kx);
        assert(kx == x && ky == y);
    }
    if key_eq(f, x, y) {
        let (kx, ky): (T, T) = choose|kx: T, ky: T|
            #[trigger] call_ensures(f, (&x,), kx) && #[trigger] call_ensures(f, (&y,), ky)
                && kx.le_spec(ky) && ky.le_spec(kx);
        assert(kx == x && ky == y);
    }
}

/// The logical values behind a sequence of handles.
pub open spec fn element_values<E: View>(s: Seq<E>) -> Seq<E::V> {
    s.map_values(|h: E| h@)
}

/// Splicing a handle into a sequence splices its value into the value
/// sequence at the same spot.
pub proof fn lemma_element_values_insert<E: View>(s: Seq<E>, e: E, i: int)
    requires
        0 <= i <= s.len(),
    ensures
        element_values(s.insert(i, e)) == element_values(s).insert(i, e@),
{
    s.insert_ensures(i, e);
    element_values(s).insert_ensures(i, e@);
    assert(element_values(s.insert(i, e)) =~= element_values(s).insert(i, e@));
}

/// Minimal capability a backing container must expose: splice one element in
/// at a given position, shifting the rest back by one.
pub trait SortedInsertBasic<T>: View<V = Seq<T>> {
    fn insert_element(&mut self, index: usize, element: T)
        requires
            index <= old(self)@.len(),
        ensures
            final(self)@ == old(self)@.insert(index as int, element),
            final(self)@.len() == old(self)@.len() + 1,
            final(self)@[index as int] == element,
    ;
}

/// Insertion driven by a caller-supplied boolean comparator and a linear
/// scan from the back of the sequence.
pub trait SortedInsertBy<T>: SortedInsertBasic<T> {
    /// Index of the slot just past the last element the predicate accepts,
    /// found by scanning from the back; `0` when it accepts none.
    fn get_sorted_insert_index_by<F: Fn(&T) -> bool>(&self, f: F) -> (index: usize)
        requires
            forall|e: &T| #[trigger] call_requires(f, (e,)),
        ensures
            index <= self@.len(),
            forall|j: int| index <= j < self@.len() ==> call_ensures(f, (&self@[j],), false),
            index > 0 ==> call_ensures(f, (&self@[index - 1],), true),
    ;

    /// Insert `element` where the comparator says it belongs and return the
    /// index it landed at.  `f(existing, candidate)` must say whether the
    /// existing element belongs before the candidate.
    fn sorted_insert_by<F: Fn(&T, &T) -> bool>(&mut self, element: T, f: F) -> (index: usize)
        requires
            forall|a: &T, b: &T| #[trigger] call_requires(f, (a, b)),
        ensures
            index <= old(self)@.len(),
            final(self)@ == old(self)@.insert(index as int, element),
            final(self)@.len() == old(self)@.len() + 1,
            final(self)@[index as int] == element,
            forall|j: int| index <= j < old(self)@.len()
                ==> call_ensures(f, (&old(self)@[j], &element), false),
            index > 0 ==> call_ensures(f, (&old(self)@[index - 1], &element), true),
    {
        let fs: Ghost<F> = Ghost(f);
        let f_ref = &f;
        let pred = |e: &T| -> (r: bool)
            requires
                call_requires(fs@, (e, &element)),
            ensures
                call_ensures(fs@, (e, &element), r),
            {
                f_ref(e, &element)
            };
        let index = self.get_sorted_insert_index_by(pred);
        self.insert_element(index, element);
        index
    }
}

/// Insertion driven by a key projection and a linear scan.
pub trait SortedInsertByKey<T>: SortedInsertBy<T> {
    /// Insert in ascending order of the projected key; among tied keys the
    /// new element lands after the existing ones.
    fn sorted_insert_asc_by_key<A: TotalOrder, F: Fn(&T) -> A>(&mut self, element: T, f: F) -> (index: usize)
        requires
            forall|e: &T| #[trigger] call_requires(f, (e,)),
        ensures
            index <= old(self)@.len(),
            final(self)@ == old(self)@.insert(index as int, element),
            final(self)@.len() == old(self)@.len() + 1,
            final(self)@[index as int] == element,
            forall|j: int| index <= j < old(self)@.len()
                ==> key_gt(f, #[trigger] old(self)@[j], element),
            index > 0 ==> key_le(f, old(self)@[index - 1], element),
    {
        let fs: Ghost<F> = Ghost(f);
        let f_ref = &f;
        let cmp = |a: &T, b: &T| -> (r: bool)
            requires
                call_requires(fs@, (a,)),
                call_requires(fs@, (b,)),
            ensures
                exists|ka: A, kb: A|
                    #[trigger] call_ensures(fs@, (a,), ka) && #[trigger] call_ensures(fs@, (b,), kb)
                        && r == ka.le_spec(kb),
            {
                let ka = f_ref(a);
                let kb = f_ref(b);
                ka.le(&kb)
            };
        self.sorted_insert_by(element, cmp)
    }

    /// Insert in descending order of the projected key; among tied keys the
    /// new element lands after the existing ones.
    fn sorted_insert_desc_by_key<A: TotalOrder, F: Fn(&T) -> A>(&mut self, element: T, f: F) -> (index: usize)
        requires
            forall|e: &T| #[trigger] call_requires(f, (e,)),
        ensures
            index <= old(self)@.len(),
            final(self)@ == old(self)@.insert(index as int, element),
            final(self)@.len() == old(self)@.len() + 1,
            final(self)@[index as int] == element,
            forall|j: int| index <= j < old(self)@.len()
                ==> key_gt(f, element, #[trigger] old(self)@[j]),
            index > 0 ==> key_le(f, element, old(self)@[index - 1]),
    {
        let fs: Ghost<F> = Ghost(f);
        let f_ref = &f;
        let cmp = |a: &T, b: &T| -> (r: bool)
            requires
                call_requires(fs@, (a,)),
                call_requires(fs@, (b,)),
            ensures
                exists|ka: A, kb: A|
                    #[trigger] call_ensures(fs@, (b,), kb) && #[trigger] call_ensures(fs@, (a,), ka)
                        && r == kb.le_spec(ka),
            {
                let ka = f_ref(a);
                let kb = f_ref(b);
                kb.le(&ka)
            };
        self.sorted_insert_by(element, cmp)
    }
}

/// Insertion in the element type's own order, by linear scan.
pub trait SortedInsert<T: TotalOrder>: SortedInsertByKey<T> {
    /// Insert in ascending order and return the index the element landed at.
    /// The index is the unique linear ascending position, so a new element
    /// tied with existing ones lands after all of them; a sequence that was
    /// sorted stays sorted.
    fn sorted_insert_asc(&mut self, element: T) -> (index: usize)
        ensures
            index <= old(self)@.len(),
            final(self)@ == old(self)@.insert(index as int, element),
            final(self)@.len() == old(self)@.len() + 1,
            final(self)@[index as int] == element,
            is_linear_asc_index(old(self)@, element, index as int),
            sorted_asc(old(self)@) ==> sorted_asc(final(self)@),
    {
        let ghost el = element;
        let ghost s0 = self@;
        let keyf = |e: &T| -> (k: T)
            ensures
                k == *e,
            {
                e.duplicate()
            };
        let index = self.sorted_insert_asc_by_key(element, keyf);
        proof {
            assert forall|j: int| index <= j < s0.len() implies !(#[trigger] s0[j].le_spec(el)) by {
                lemma_identity_key_relations(keyf, s0[j], el);
            }
            if index > 0 {
                lemma_identity_key_relations(keyf, s0[index - 1], el);
            }
            if sorted_asc(s0) {
                lemma_sorted_asc_insert_linear(s0, el, index as int);
            }
        }
        index
    }

    /// Descending mirror of `sorted_insert_asc`.
    fn sorted_insert_desc(&mut self, element: T) -> (index: usize)
        ensures
            index <= old(self)@.len(),
            final(self)@ == old(self)@.insert(index as int, element),
            final(self)@.len() == old(self)@.len() + 1,
            final(self)@[index as int] == element,
            is_linear_desc_index(old(self)@, element, index as int),
            sorted_desc(old(self)@) ==> sorted_desc(final(self)@),
    {
        let ghost el = element;
        let ghost s0 = self@;
        let keyf = |e: &T| -> (k: T)
            ensures
                k == *e,
            {
                e.duplicate()
            };
        let index = self.sorted_insert_desc_by_key(element, keyf);
        proof {
            assert forall|j: int| index <= j < s0.len() implies !(#[trigger] el.le_spec(s0[j])) by {
                lemma_identity_key_relations(keyf, el, s0[j]);
            }
            if index > 0 {
                lemma_identity_key_relations(keyf, el, s0[index - 1]);
            }
            if sorted_desc(s0) {
                lemma_sorted_desc_insert_linear(s0, el, index as int);
            }
        }
        index
    }
}

/// Insertion driven by a caller-supplied three-way comparator and a binary
/// search; the backing container must allow random access.
pub trait SortedInsertBinaryBy<T>: SortedInsertBy<T> {
    /// Binary-search insertion index: either the comparator answered `Equal`
    /// at the slot just before, or the neighbours answered `Less` and
    /// `Greater`.  The container itself is left as it was.
    fn get_sorted_insert_index_binary_by<F: Fn(&T) -> Ordering>(&mut self, f: F) -> (index: usize)
        requires
            forall|e: &T| #[trigger] call_requires(f, (e,)),
        ensures
            final(self)@ == old(self)@,
            index <= old(self)@.len(),
            (index > 0 && call_ensures(f, (&old(self)@[index - 1],), Ordering::Equal))
                || ((index == 0 || call_ensures(f, (&old(self)@[index - 1],), Ordering::Less))
                    && (index == old(self)@.len() || call_ensures(
                        f,
                        (&old(self)@[index as int],),
                        Ordering::Greater,
                    ))),
    ;

    /// Insert `element` where the binary search puts it and return that
    /// index.  `f(existing, candidate)` must order the existing element
    /// against the candidate.
    fn sorted_insert_binary_by<F: Fn(&T, &T) -> Ordering>(&mut self, element: T, f: F) -> (index: usize)
        requires
            forall|a: &T, b: &T| #[trigger] call_requires(f, (a, b)),
        ensures
            index <= old(self)@.len(),
            final(self)@ == old(self)@.insert(index as int, element),
            final(self)@.len() == old(self)@.len() + 1,
            final(self)@[index as int] == element,
            (index > 0 && call_ensures(f, (&old(self)@[index - 1], &element), Ordering::Equal))
                || ((index == 0 || call_ensures(
                    f,
                    (&old(self)@[index - 1], &element),
                    Ordering::Less,
                )) && (index == old(self)@.len() || call_ensures(
                    f,
                    (&old(self)@[index as int], &element),
                    Ordering::Greater,
                ))),
    {
        let fs: Ghost<F> = Ghost(f);
        let f_ref = &f;
        let cmp = |e: &T| -> (r: Ordering)
            requires
                call_requires(fs@, (e, &element)),
            ensures
                call_ensures(fs@, (e, &element), r),
            {
                f_ref(e, &element)
            };
        let index = self.get_sorted_insert_index_binary_by(cmp);
        self.insert_element(index, element);
        index
    }
}

/// Insertion driven by a key projection and a binary search.
pub trait SortedInsertBinaryByKey<T>: SortedInsertBinaryBy<T> {
    /// Insert in ascending order of the projected key, locating the slot by
    /// binary search.  With tied keys the element lands after some tied
    /// element, not necessarily the last.
    fn sorted_insert_binary_asc_by_key<A: TotalOrder, F: Fn(&T) -> A>(&mut self, element: T, f: F) -> (index: usize)
        requires
            forall|e: &T| #[trigger] call_requires(f, (e,)),
        ensures
            index <= old(self)@.len(),
            final(self)@ == old(self)@.insert(index as int, element),
            final(self)@.len() == old(self)@.len() + 1,
            final(self)@[index as int] == element,
            (index > 0 && key_eq(f, old(self)@[index - 1], element))
                || ((index == 0 || key_lt(f, old(self)@[index - 1], element))
                    && (index == old(self)@.len() || key_lt(f, element, old(self)@[index as int]))),
    {
        let fs: Ghost<F> = Ghost(f);
        let f_ref = &f;
        let cmp = |a: &T, b: &T| -> (r: Ordering)
            requires
                call_requires(fs@, (a,)),
                call_requires(fs@, (b,)),
            ensures
                exists|ka: A, kb: A|
                    #[trigger] call_ensures(fs@, (a,), ka) && #[trigger] call_ensures(fs@, (b,), kb)
                        && (r == Ordering::Less) == (ka.le_spec(kb) && !kb.le_spec(ka))
                        && (r == Ordering::Equal) == (ka.le_spec(kb) && kb.le_spec(ka))
                        && (r == Ordering::Greater) == (!ka.le_spec(kb) && kb.le_spec(ka)),
            {
                let ka = f_ref(a);
                let kb = f_ref(b);
                ka.compare_with(&kb)
            };
        self.sorted_insert_binary_by(element, cmp)
    }

    /// Insert in descending order of the projected key, locating the slot by
    /// binary search.  With tied keys the element lands after some tied
    /// element, not necessarily the last.
    fn sorted_insert_binary_desc_by_key<A: TotalOrder, F: Fn(&T) -> A>(&mut self, element: T, f: F) -> (index: usize)
        requires
            forall|e: &T| #[trigger] call_requires(f, (e,)),
        ensures
            index <= old(self)@.len(),
            final(self)@ == old(self)@.insert(index as int, element),
            final(self)@.len() == old(self)@.len() + 1,
            final(self)@[index as int] == element,
            (index > 0 && key_eq(f, element, old(self)@[index - 1]))
                || ((index == 0 || key_lt(f, element, old(self)@[index - 1]))
                    && (index == old(self)@.len() || key_lt(f, old(self)@[index as int], element))),
    {
        let fs: Ghost<F> = Ghost(f);
        let f_ref = &f;
        let cmp = |a: &T, b: &T| -> (r: Ordering)
            requires
                call_requires(fs@, (a,)),
                call_requires(fs@, (b,)),
            ensures
                exists|ka: A, kb: A|
                    #[trigger] call_ensures(fs@, (b,), kb) && #[trigger] call_ensures(fs@, (a,), ka)
                        && (r == Ordering::Less) == (kb.le_spec(ka) && !ka.le_spec(kb))
                        && (r == Ordering::Equal) == (kb.le_spec(ka) && ka.le_spec(kb))
                        && (r == Ordering::Greater) == (!kb.le_spec(ka) && ka.le_spec(kb)),
            {
                let ka = f_ref(a);
                let kb = f_ref(b);
                kb.compare_with(&ka)
            };
        self.sorted_insert_binary_by(element, cmp)
    }
}

/// Insertion in the element type's own order, by binary search.
pub trait SortedInsertBinary<T: TotalOrder>: SortedInsertBinaryByKey<T> {
    /// Insert in ascending order, locating the slot by binary search.  On a
    /// sorted sequence the index is a valid splice position; when elements
    /// tied with the candidate exist, the candidate lands directly after one
    /// of them (not necessarily the last — the linear scan, by contrast,
    /// always picks the last).
    fn sorted_insert_asc_binary(&mut self, element: T) -> (index: usize)
        ensures
            index <= old(self)@.len(),
            final(self)@ == old(self)@.insert(index as int, element),
            final(self)@.len() == old(self)@.len() + 1,
            final(self)@[index as int] == element,
            sorted_asc(old(self)@) ==> is_binary_asc_index(old(self)@, element, index as int),
            sorted_asc(old(self)@) ==> ((exists|j: int|
                0 <= j < old(self)@.len() && equiv(#[trigger] old(self)@[j], element)) ==> index
                > 0 && equiv(old(self)@[index - 1], element)),
            sorted_asc(old(self)@) ==> sorted_asc(final(self)@),
    {
        let ghost el = element;
        let ghost s0 = self@;
        let keyf = |e: &T| -> (k: T)
            ensures
                k == *e,
            {
                e.duplicate()
            };
        let index = self.sorted_insert_binary_asc_by_key(element, keyf);
        proof {
            if index > 0 {
                lemma_identity_key_relations(keyf, s0[index - 1], el);
            }
            if index < s0.len() {
                lemma_identity_key_relations(keyf, el, s0[index as int]);
            }
            if sorted_asc(s0) {
                lemma_binary_asc_position(s0, el, index as int);
                lemma_sorted_asc_insert_binary(s0, el, index as int);
            }
        }
        index
    }

    /// Descending mirror of `sorted_insert_asc_binary`.
    fn sorted_insert_desc_binary(&mut self, element: T) -> (index: usize)
        ensures
            index <= old(self)@.len(),
            final(self)@ == old(self)@.insert(index as int, element),
            final(self)@.len() == old(self)@.len() + 1,
            final(self)@[index as int] == element,
            sorted_desc(old(self)@) ==> is_binary_desc_index(old(self)@, element, index as int),
            sorted_desc(old(self)@) ==> ((exists|j: int|
                0 <= j < old(self)@.len() && equiv(#[trigger] old(self)@[j], element)) ==> index
                > 0 && equiv(old(self)@[index - 1], element)),
            sorted_desc(old(self)@) ==> sorted_desc(final(self)@),
    {
        let ghost el = element;
        let ghost s0 = self@;
        let keyf = |e: &T| -> (k: T)
            ensures
                k == *e,
            {
                e.duplicate()
            };
        let index = self.sorted_insert_binary_desc_by_key(element, keyf);
        proof {
            if index > 0 {
                lemma_identity_key_relations(keyf, el, s0[index - 1]);
            }
            if index < s0.len() {
                lemma_identity_key_relations(keyf, s0[index as int], el);
            }
            if sorted_desc(s0) {
                lemma_binary_desc_position(s0, el, index as int);
                lemma_sorted_desc_insert_binary(s0, el, index as int);
            }
        }
        index
    }
}

} // verus!

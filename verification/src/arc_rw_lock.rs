//! Lock-aware insertion for elements shared behind a read/write lock.
//!
//! Every comparator evaluation against a stored element acquires that
//! element's lock for shared reading, compares the guarded value, and
//! releases the lock again before the sequence itself is touched.  The
//! candidate element's lock is taken exactly once per insertion, up front,
//! to snapshot its value.

pub mod collections;

use vstd::prelude::*;

verus! {

use core::cmp::Ordering;
use std::sync::Arc;
use std::sync::RwLock;
use crate::order::{
    Duplicable, TotalOrder, sorted_asc, sorted_desc, is_linear_asc_index, is_linear_desc_index,
    is_binary_asc_index, is_binary_desc_index, equiv, lemma_sorted_asc_insert_linear,
    lemma_sorted_desc_insert_linear, lemma_sorted_asc_insert_binary,
    lemma_sorted_desc_insert_binary, lemma_binary_asc_position, lemma_binary_desc_position,
};
use crate::{
    element_values, key_le, key_gt, key_lt, key_eq, lemma_identity_key_relations,
    lemma_element_values_insert,
};

#[verifier::external_type_specification]
#[verifier::external_body]
#[verifier::reject_recursive_types(T)]
pub struct ExRwLock<T: ?Sized>(RwLock<T>);

/// One element, shared by reference count and guarded by a read/write
/// lock.  The guarded value is fixed at construction: the type hands out
/// looks at the value but no way to replace it, which is what lets its
/// logical view stand for the cell's contents.
#[verifier::reject_recursive_types(T)]
pub struct ArcRwLockElement<T> {
    cell: Arc<RwLock<T>>,
    value: Ghost<T>,
}

impl<T> View for ArcRwLockElement<T> {
    type V = T;

    closed spec fn view(&self) -> T {
        self.value@
    }
}

impl<T> ArcRwLockElement<T> {
    /// Relies on std::sync::RwLock::new to build the lock cell around the
    /// value.
    #[verifier::external_body]
    fn new_cell(value: T) -> RwLock<T> {
        RwLock::new(value)
    }

    /// Relies on std::sync::Arc::clone handing out another handle to the
    /// same allocation.
    #[verifier::external_body]
    fn clone_cell(cell: &Arc<RwLock<T>>) -> (r: Arc<RwLock<T>>)
        ensures
            r == *cell,
    {
        Arc::clone(cell)
    }

    /// Relies on std::sync::RwLock::read: runs `f` on the guarded value
    /// while holding the lock for shared reading, blocking while a writer
    /// holds it and panicking if the lock is poisoned.  The guarded value is
    /// the one the element was created with, since no method of this type
    /// replaces it.
    #[verifier::external_body]
    fn read_with<U, F: Fn(&T) -> U>(&self, f: F) -> (r: U)
        requires
            call_requires(f, (&self@,)),
        ensures
            call_ensures(f, (&self@,), r),
    {
        f(&*self.cell.read().unwrap())
    }

    /// Wrap a value in a fresh shared, lock-guarded element.
    pub fn new(value: T) -> (r: Self)
        ensures
            r@ == value,
    {
        let ghost snapshot = value;
        let cell = Arc::new(Self::new_cell(value));
        ArcRwLockElement { cell, value: Ghost(snapshot) }
    }

    /// Another handle to the same cell.
    pub fn share(&self) -> (r: Self)
        ensures
            r@ == self@,
    {
        ArcRwLockElement { cell: Self::clone_cell(&self.cell), value: Ghost(self@) }
    }

    /// Take a copy of the guarded value out of the lock.
    pub fn read_value(&self) -> (r: T) where T: Duplicable
        ensures
            r == self@,
    {
        let dup = |v: &T| -> (k: T)
            ensures
                k == *v,
            {
                v.duplicate()
            };
        self.read_with(dup)
    }
}

/// A lock-wrapped linear insertion lands on the same index as its plain
/// counterpart whenever the guarded values equal the plain values: both
/// indices satisfy the linear characterization over the value sequence, and
/// that characterization pins a single position.
pub proof fn lemma_lock_wrapped_linear_agrees<T: TotalOrder>(
    plain: Seq<T>,
    locked: Seq<ArcRwLockElement<T>>,
    e: T,
    plain_index: int,
    locked_index: int,
)
    requires
        plain == element_values(locked),
        is_linear_asc_index(plain, e, plain_index) && is_linear_asc_index(
            element_values(locked),
            e,
            locked_index,
        ) || is_linear_desc_index(plain, e, plain_index) && is_linear_desc_index(
            element_values(locked),
            e,
            locked_index,
        ),
    ensures
        plain_index == locked_index,
{
    if is_linear_asc_index(plain, e, plain_index) && is_linear_asc_index(
        element_values(locked),
        e,
        locked_index,
    ) {
        crate::order::lemma_linear_asc_index_unique(plain, e, plain_index, locked_index);
    } else {
        crate::order::lemma_linear_desc_index_unique(plain, e, plain_index, locked_index);
    }
}

/// Splice capability for sequences of read/write-lock elements.
pub trait SortedInsertArcRwLockBasic<T>: View<V = Seq<ArcRwLockElement<T>>> {
    fn insert_element(&mut self, index: usize, element: ArcRwLockElement<T>)
        requires
            index <= old(self)@.len(),
        ensures
            final(self)@ == old(self)@.insert(index as int, element),
            final(self)@.len() == old(self)@.len() + 1,
            final(self)@[index as int] == element,
    ;
}

/// Insertion of read/write-lock elements driven by a boolean comparator on
/// the guarded values and a linear scan from the back.
pub trait SortedInsertArcRwLockBy<T: Duplicable>: SortedInsertArcRwLockBasic<T> {
    /// Index of the slot just past the last element the predicate accepts,
    /// found by scanning from the back; `0` when it accepts none.  The
    /// predicate sees the handles; locking is the predicate's business.
    fn get_sorted_insert_index_by<F: Fn(&ArcRwLockElement<T>) -> bool>(&self, f: F) -> (index:
        usize)
        requires
            forall|e: &ArcRwLockElement<T>| #[trigger] call_requires(f, (e,)),
        ensures
            index <= self@.len(),
            forall|j: int| index <= j < self@.len() ==> call_ensures(f, (&self@[j],), false),
            index > 0 ==> call_ensures(f, (&self@[index - 1],), true),
    ;

    /// Insert `element` where the comparator says it belongs and return the
    /// index it landed at.  `f(existing, candidate)` sees the guarded
    /// values: the candidate's lock is taken once to snapshot its value and
    /// each stored element's lock is taken and released per comparison, so
    /// no lock is held when the sequence is spliced.
    fn sorted_insert_by<F: Fn(&T, &T) -> bool>(
        &mut self,
        element: ArcRwLockElement<T>,
        f: F,
    ) -> (index: usize)
        requires
            forall|a: &T, b: &T| #[trigger] call_requires(f, (a, b)),
        ensures
            index <= old(self)@.len(),
            final(self)@ == old(self)@.insert(index as int, element),
            final(self)@.len() == old(self)@.len() + 1,
            final(self)@[index as int] == element,
            forall|j: int| index <= j < old(self)@.len()
                ==> call_ensures(f, (&old(self)@[j]@, &element@), false),
            index > 0 ==> call_ensures(f, (&old(self)@[index - 1]@, &element@), true),
    {
        let fs: Ghost<F> = Ghost(f);
        let evg: Ghost<T> = Ghost(element@);
        let candidate = element.read_value();
        let f_ref = &f;
        let cand_ref = &candidate;
        let pred = |e: &ArcRwLockElement<T>| -> (r: bool)
            requires
                forall|a: &T, b: &T| #[trigger] call_requires(fs@, (a, b)),
            ensures
                call_ensures(fs@, (&e@, &evg@), r),
            {
                let inner = |v: &T| -> (r: bool)
                    requires
                        call_requires(fs@, (v, &evg@)),
                    ensures
                        call_ensures(fs@, (v, &evg@), r),
                    {
                        f_ref(v, cand_ref)
                    };
                e.read_with(inner)
            };
        let index = self.get_sorted_insert_index_by(pred);
        self.insert_element(index, element);
        index
    }
}

/// Insertion of read/write-lock elements driven by a key projection on the
/// guarded values and a linear scan.
pub trait SortedInsertArcRwLockByKey<T: Duplicable>: SortedInsertArcRwLockBy<T> {
    /// Insert in ascending order of the projected key; among tied keys the
    /// new element lands after the existing ones.
    fn sorted_insert_asc_by_key<A: TotalOrder, F: Fn(&T) -> A>(
        &mut self,
        element: ArcRwLockElement<T>,
        f: F,
    ) -> (index: usize)
        requires
            forall|e: &T| #[trigger] call_requires(f, (e,)),
        ensures
            index <= old(self)@.len(),
            final(self)@ == old(self)@.insert(index as int, element),
            final(self)@.len() == old(self)@.len() + 1,
            final(self)@[index as int] == element,
            forall|j: int| index <= j < old(self)@.len()
                ==> key_gt(f, #[trigger] old(self)@[j]@, element@),
            index > 0 ==> key_le(f, old(self)@[index - 1]@, element@),
    {
        let fs: Ghost<F> = Ghost(f);
        let f_ref = &f;
        let cmp = |a: &T, b: &T| -> (r: bool)
            requires
                call_requires(fs@, (a,)),
                call_requires(fs@, (b,)),
            ensures
                exists|ka: A, kb: A|
                    #[trigger] call_ensures(fs@, (a,), ka) && #[trigger] call_ensures(fs@, (b,), kb)
                        && r == ka.le_spec(kb),
            {
                let ka = f_ref(a);
                let kb = f_ref(b);
                ka.le(&kb)
            };
        self.sorted_insert_by(element, cmp)
    }

    /// Insert in descending order of the projected key; among tied keys the
    /// new element lands after the existing ones.
    fn sorted_insert_desc_by_key<A: TotalOrder, F: Fn(&T) -> A>(
        &mut self,
        element: ArcRwLockElement<T>,
        f: F,
    ) -> (index: usize)
        requires
            forall|e: &T| #[trigger] call_requires(f, (e,)),
        ensures
            index <= old(self)@.len(),
            final(self)@ == old(self)@.insert(index as int, element),
            final(self)@.len() == old(self)@.len() + 1,
            final(self)@[index as int] == element,
            forall|j: int| index <= j < old(self)@.len()
                ==> key_gt(f, element@, #[trigger] old(self)@[j]@),
            index > 0 ==> key_le(f, element@, old(self)@[index - 1]@),
    {
        let fs: Ghost<F> = Ghost(f);
        let f_ref = &f;
        let cmp = |a: &T, b: &T| -> (r: bool)
            requires
                call_requires(fs@, (a,)),
                call_requires(fs@, (b,)),
            ensures
                exists|ka: A, kb: A|
                    #[trigger] call_ensures(fs@, (b,), kb) && #[trigger] call_ensures(fs@, (a,), ka)
                        && r == kb.le_spec(ka),
            {
                let ka = f_ref(a);
                let kb = f_ref(b);
                kb.le(&ka)
            };
        self.sorted_insert_by(element, cmp)
    }
}

/// Insertion of read/write-lock elements in the guarded type's own order, by
/// linear scan.
pub trait SortedInsertArcRwLock<T: TotalOrder>: SortedInsertArcRwLockByKey<T> {
    /// Insert in ascending order of the guarded values and return the index
    /// the element landed at; the index is the one the plain linear
    /// ascending insert would pick for the same values.
    fn sorted_insert_asc(&mut self, element: ArcRwLockElement<T>) -> (index: usize)
        ensures
            index <= old(self)@.len(),
            final(self)@ == old(self)@.insert(index as int, element),
            final(self)@.len() == old(self)@.len() + 1,
            final(self)@[index as int] == element,
            is_linear_asc_index(element_values(old(self)@), element@, index as int),
            sorted_asc(element_values(old(self)@)) ==> sorted_asc(element_values(final(self)@)),
    {
        let ghost eh = element;
        let ghost ev = element@;
        let ghost s0 = self@;
        let ghost vs0 = element_values(s0);
        let keyf = |e: &T| -> (k: T)
            ensures
                k == *e,
            {
                e.duplicate()
            };
        let index = self.sorted_insert_asc_by_key(element, keyf);
        proof {
            assert forall|j: int| index <= j < vs0.len() implies !(#[trigger] vs0[j].le_spec(ev)) by {
                assert(key_gt(keyf, s0[j]@, ev));
                lemma_identity_key_relations(keyf, s0[j]@, ev);
            }
            if index > 0 {
                lemma_identity_key_relations(keyf, s0[index - 1]@, ev);
            }
            if sorted_asc(vs0) {
                lemma_sorted_asc_insert_linear(vs0, ev, index as int);
                lemma_element_values_insert(s0, eh, index as int);
            }
        }
        index
    }

    /// Descending mirror of `sorted_insert_asc`.
    fn sorted_insert_desc(&mut self, element: ArcRwLockElement<T>) -> (index: usize)
        ensures
            index <= old(self)@.len(),
            final(self)@ == old(self)@.insert(index as int, element),
            final(self)@.len() == old(self)@.len() + 1,
            final(self)@[index as int] == element,
            is_linear_desc_index(element_values(old(self)@), element@, index as int),
            sorted_desc(element_values(old(self)@)) ==> sorted_desc(element_values(final(self)@)),
    {
        let ghost eh = element;
        let ghost ev = element@;
        let ghost s0 = self@;
        let ghost vs0 = element_values(s0);
        let keyf = |e: &T| -> (k: T)
            ensures
                k == *e,
            {
                e.duplicate()
            };
        let index = self.sorted_insert_desc_by_key(element, keyf);
        proof {
            assert forall|j: int| index <= j < vs0.len() implies !(#[trigger] ev.le_spec(vs0[j])) by {
                assert(key_gt(keyf, ev, s0[j]@));
                lemma_identity_key_relations(keyf, ev, s0[j]@);
            }
            if index > 0 {
                lemma_identity_key_relations(keyf, ev, s0[index - 1]@);
            }
            if sorted_desc(vs0) {
                lemma_sorted_desc_insert_linear(vs0, ev, index as int);
                lemma_element_values_insert(s0, eh, index as int);
            }
        }
        index
    }
}

/// Insertion of read/write-lock elements driven by a three-way comparator on
/// the guarded values and a binary search.
pub trait SortedInsertBinaryArcRwLockBy<T: Duplicable>: SortedInsertArcRwLockBy<T> {
    /// Binary-search insertion index over the handles: either the comparator
    /// answered `Equal` at the slot just before, or the neighbours answered
    /// `Less` and `Greater`.  The container itself is left as it was.
    fn get_sorted_insert_index_binary_by<F: Fn(&ArcRwLockElement<T>) -> Ordering>(
        &mut self,
        f: F,
    ) -> (index: usize)
        requires
            forall|e: &ArcRwLockElement<T>| #[trigger] call_requires(f, (e,)),
        ensures
            final(self)@ == old(self)@,
            index <= old(self)@.len(),
            (index > 0 && call_ensures(f, (&old(self)@[index - 1],), Ordering::Equal))
                || ((index == 0 || call_ensures(f, (&old(self)@[index - 1],), Ordering::Less))
                    && (index == old(self)@.len() || call_ensures(
                        f,
                        (&old(self)@[index as int],),
                        Ordering::Greater,
                    ))),
    ;

    /// Insert `element` where the binary search puts it and return that
    /// index.  `f(existing, candidate)` sees the guarded values, with the
    /// same one-lock-at-a-time discipline as the linear variant.
    fn sorted_insert_binary_by<F: Fn(&T, &T) -> Ordering>(
        &mut self,
        element: ArcRwLockElement<T>,
        f: F,
    ) -> (index: usize)
        requires
            forall|a: &T, b: &T| #[trigger] call_requires(f, (a, b)),
        ensures
            index <= old(self)@.len(),
            final(self)@ == old(self)@.insert(index as int, element),
            final(self)@.len() == old(self)@.len() + 1,
            final(self)@[index as int] == element,
            (index > 0 && call_ensures(f, (&old(self)@[index - 1]@, &element@), Ordering::Equal))
                || ((index == 0 || call_ensures(
                    f,
                    (&old(self)@[index - 1]@, &element@),
                    Ordering::Less,
                )) && (index == old(self)@.len() || call_ensures(
                    f,
                    (&old(self)@[index as int]@, &element@),
                    Ordering::Greater,
                ))),
    {
        let fs: Ghost<F> = Ghost(f);
        let evg: Ghost<T> = Ghost(element@);
        let candidate = element.read_value();
        let f_ref = &f;
        let cand_ref = &candidate;
        let cmp = |e: &ArcRwLockElement<T>| -> (r: Ordering)
            requires
                forall|a: &T, b: &T| #[trigger] call_requires(fs@, (a, b)),
            ensures
                call_ensures(fs@, (&e@, &evg@), r),
            {
                let inner = |v: &T| -> (r: Ordering)
                    requires
                        call_requires(fs@, (v, &evg@)),
                    ensures
                        call_ensures(fs@, (v, &evg@), r),
                    {
                        f_ref(v, cand_ref)
                    };
                e.read_with(inner)
            };
        let index = self.get_sorted_insert_index_binary_by(cmp);
        self.insert_element(index, element);
        index
    }
}

/// Insertion of read/write-lock elements driven by a key projection on the
/// guarded values and a binary search.
pub trait SortedInsertBinaryArcRwLockByKey<T: Duplicable>: SortedInsertBinaryArcRwLockBy<T> {
    /// Insert in ascending order of the projected key, locating the slot by
    /// binary search.  With tied keys the element lands after some tied
    /// element, not necessarily the last.
    fn sorted_insert_binary_asc_by_key<A: TotalOrder, F: Fn(&T) -> A>(
        &mut self,
        element: ArcRwLockElement<T>,
        f: F,
    ) -> (index: usize)
        requires
            forall|e: &T| #[trigger] call_requires(f, (e,)),
        ensures
            index <= old(self)@.len(),
            final(self)@ == old(self)@.insert(index as int, element),
            final(self)@.len() == old(self)@.len() + 1,
            final(self)@[index as int] == element,
            (index > 0 && key_eq(f, old(self)@[index - 1]@, element@))
                || ((index == 0 || key_lt(f, old(self)@[index - 1]@, element@))
                    && (index == old(self)@.len() || key_lt(
                        f,
                        element@,
                        old(self)@[index as int]@,
                    ))),
    {
        let fs: Ghost<F> = Ghost(f);
        let f_ref = &f;
        let cmp = |a: &T, b: &T| -> (r: Ordering)
            requires
                call_requires(fs@, (a,)),
                call_requires(fs@, (b,)),
            ensures
                exists|ka: A, kb: A|
                    #[trigger] call_ensures(fs@, (a,), ka) && #[trigger] call_ensures(fs@, (b,), kb)
                        && (r == Ordering::Less) == (ka.le_spec(kb) && !kb.le_spec(ka))
                        && (r == Ordering::Equal) == (ka.le_spec(kb) && kb.le_spec(ka))
                        && (r == Ordering::Greater) == (!ka.le_spec(kb) && kb.le_spec(ka)),
            {
                let ka = f_ref(a);
                let kb = f_ref(b);
                ka.compare_with(&kb)
            };
        self.sorted_insert_binary_by(element, cmp)
    }

    /// Insert in descending order of the projected key, locating the slot by
    /// binary search.  With tied keys the element lands after some tied
    /// element, not necessarily the last.
    fn sorted_insert_binary_desc_by_key<A: TotalOrder, F: Fn(&T) -> A>(
        &mut self,
        element: ArcRwLockElement<T>,
        f: F,
    ) -> (index: usize)
        requires
            forall|e: &T| #[trigger] call_requires(f, (e,)),
        ensures
            index <= old(self)@.len(),
            final(self)@ == old(self)@.insert(index as int, element),
            final(self)@.len() == old(self)@.len() + 1,
            final(self)@[index as int] == element,
            (index > 0 && key_eq(f, element@, old(self)@[index - 1]@))
                || ((index == 0 || key_lt(f, element@, old(self)@[index - 1]@))
                    && (index == old(self)@.len() || key_lt(
                        f,
                        old(self)@[index as int]@,
                        element@,
                    ))),
    {
        let fs: Ghost<F> = Ghost(f);
        let f_ref = &f;
        let cmp = |a: &T, b: &T| -> (r: Ordering)
            requires
                call_requires(fs@, (a,)),
                call_requires(fs@, (b,)),
            ensures
                exists|ka: A, kb: A|
                    #[trigger] call_ensures(fs@, (b,), kb) && #[trigger] call_ensures(fs@, (a,), ka)
                        && (r == Ordering::Less) == (kb.le_spec(ka) && !ka.le_spec(kb))
                        && (r == Ordering::Equal) == (kb.le_spec(ka) && ka.le_spec(kb))
                        && (r == Ordering::Greater) == (!kb.le_spec(ka) && ka.le_spec(kb)),
            {
                let ka = f_ref(a);
                let kb = f_ref(b);
                kb.compare_with(&ka)
            };
        self.sorted_insert_binary_by(element, cmp)
    }
}

/// Insertion of read/write-lock elements in the guarded type's own order, by
/// binary search.
pub trait SortedInsertBinaryArcRwLock<T: TotalOrder>: SortedInsertBinaryArcRwLockByKey<T> {
    /// Insert in ascending order of the guarded values, locating the slot by
    /// binary search.  On sorted values the index is a valid splice
    /// position; a candidate tied with stored values lands directly after
    /// one of them, not necessarily the last.
    fn sorted_insert_asc_binary(&mut self, element: ArcRwLockElement<T>) -> (index: usize)
        ensures
            index <= old(self)@.len(),
            final(self)@ == old(self)@.insert(index as int, element),
            final(self)@.len() == old(self)@.len() + 1,
            final(self)@[index as int] == element,
            sorted_asc(element_values(old(self)@)) ==> is_binary_asc_index(
                element_values(old(self)@),
                element@,
                index as int,
            ),
            sorted_asc(element_values(old(self)@)) ==> ((exists|j: int|
                0 <= j < old(self)@.len() && equiv(
                    #[trigger] element_values(old(self)@)[j],
                    element@,
                )) ==> index > 0 && equiv(element_values(old(self)@)[index - 1], element@)),
            sorted_asc(element_values(old(self)@)) ==> sorted_asc(element_values(final(self)@)),
    {
        let ghost eh = element;
        let ghost ev = element@;
        let ghost s0 = self@;
        let ghost vs0 = element_values(s0);
        let keyf = |e: &T| -> (k: T)
            ensures
                k == *e,
            {
                e.duplicate()
            };
        let index = self.sorted_insert_binary_asc_by_key(element, keyf);
        proof {
            if index > 0 {
                lemma_identity_key_relations(keyf, s0[index - 1]@, ev);
            }
            if index < s0.len() {
                lemma_identity_key_relations(keyf, ev, s0[index as int]@);
            }
            if sorted_asc(vs0) {
                lemma_binary_asc_position(vs0, ev, index as int);
                lemma_sorted_asc_insert_binary(vs0, ev, index as int);
                lemma_element_values_insert(s0, eh, index as int);
            }
        }
        index
    }

    /// Descending mirror of `sorted_insert_asc_binary`.
    fn sorted_insert_desc_binary(&mut self, element: ArcRwLockElement<T>) -> (index: usize)
        ensures
            index <= old(self)@.len(),
            final(self)@ == old(self)@.insert(index as int, element),
            final(self)@.len() == old(self)@.len() + 1,
            final(self)@[index as int] == element,
            sorted_desc(element_values(old(self)@)) ==> is_binary_desc_index(
                element_values(old(self)@),
                element@,
                index as int,
            ),
            sorted_desc(element_values(old(self)@)) ==> ((exists|j: int|
                0 <= j < old(self)@.len() && equiv(
                    #[trigger] element_values(old(self)@)[j],
                    element@,
                )) ==> index > 0 && equiv(element_values(old(self)@)[index - 1], element@)),
            sorted_desc(element_values(old(self)@)) ==> sorted_desc(element_values(final(self)@)),
    {
        let ghost eh = element;
        let ghost ev = element@;
        let ghost s0 = self@;
        let ghost vs0 = element_values(s0);
        let keyf = |e: &T| -> (k: T)
            ensures
                k == *e,
            {
                e.duplicate()
            };
        let index = self.sorted_insert_binary_desc_by_key(element, keyf);
        proof {
            if index > 0 {
                lemma_identity_key_relations(keyf, ev, s0[index - 1]@);
            }
            if index < s0.len() {
                lemma_identity_key_relations(keyf, s0[index as int]@, ev);
            }
            if sorted_desc(vs0) {
                lemma_binary_desc_position(vs0, ev, index as int);
                lemma_sorted_desc_insert_binary(vs0, ev, index as int);
                lemma_element_values_insert(s0, eh, index as int);
            }
        }
        index
    }
}

} // verus!

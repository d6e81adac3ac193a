use vstd::prelude::*;

verus! {

use core::cmp::Ordering;
use crate::arc_mutex::{
    ArcMutexElement, SortedInsertArcMutex, SortedInsertArcMutexBasic, SortedInsertArcMutexBy,
    SortedInsertArcMutexByKey, SortedInsertBinaryArcMutex, SortedInsertBinaryArcMutexBy,
    SortedInsertBinaryArcMutexByKey,
};
use crate::order::{Duplicable, TotalOrder};

impl<T> SortedInsertArcMutexBasic<T> for Vec<ArcMutexElement<T>> {
    fn insert_element(&mut self, index: usize, element: ArcMutexElement<T>) {
        self.insert(index, element);
    }
}

impl<T: Duplicable> SortedInsertArcMutexBy<T> for Vec<ArcMutexElement<T>> {
    fn get_sorted_insert_index_by<F: Fn(&ArcMutexElement<T>) -> bool>(&self, f: F) -> (index:
        usize) {
        let mut i: usize = self.len();
        loop
            invariant
                i <= self@.len(),
                forall|e: &ArcMutexElement<T>| #[trigger] call_requires(f, (e,)),
                forall|j: int| i <= j < self@.len() ==> call_ensures(f, (&self@[j],), false),
            decreases i,
        {
            if i == 0 {
                return 0;
            }
            i = i - 1;
            if f(&self[i]) {
                return i + 1;
            }
        }
    }
}

impl<T: Duplicable> SortedInsertArcMutexByKey<T> for Vec<ArcMutexElement<T>> {

}

impl<T: TotalOrder> SortedInsertArcMutex<T> for Vec<ArcMutexElement<T>> {

}

impl<T: Duplicable> SortedInsertBinaryArcMutexBy<T> for Vec<ArcMutexElement<T>> {
    fn get_sorted_insert_index_binary_by<F: Fn(&ArcMutexElement<T>) -> Ordering>(
        &mut self,
        f: F,
    ) -> (index: usize) {
        let mut lo: usize = 0;
        let mut hi: usize = self.len();
        while lo < hi
            invariant
                lo <= hi <= self@.len(),
                self@ == old(self)@,
                forall|e: &ArcMutexElement<T>| #[trigger] call_requires(f, (e,)),
                lo > 0 ==> call_ensures(f, (&self@[lo - 1],), Ordering::Less),
                hi < self@.len() ==> call_ensures(f, (&self@[hi as int],), Ordering::Greater),
            decreases hi - lo,
        {
            let mid = lo + (hi - lo) / 2;
            let c = f(&self[mid]);
            match c {
                Ordering::Less => {
                    lo = mid + 1;
                }
                Ordering::Greater => {
                    hi = mid;
                }
                Ordering::Equal => {
                    return mid + 1;
                }
            }
        }
        lo
    }
}

impl<T: Duplicable> SortedInsertBinaryArcMutexByKey<T> for Vec<ArcMutexElement<T>> {

}

impl<T: TotalOrder> SortedInsertBinaryArcMutex<T> for Vec<ArcMutexElement<T>> {

}

} // verus!

use sorted_insert::arc_mutex::{
    ArcMutexElement, SortedInsertArcMutex, SortedInsertArcMutexBy, SortedInsertArcMutexByKey,
    SortedInsertBinaryArcMutex,
};
use sorted_insert::arc_rw_lock::{
    ArcRwLockElement, SortedInsertArcRwLock, SortedInsertBinaryArcRwLock,
};
use sorted_insert::{SortedInsert, SortedInsertBinary};

#[test]
fn arc_mutex() {
    let mut v: Vec<ArcMutexElement<isize>> = Vec::new();

    assert_eq!(0, v.sorted_insert_asc(ArcMutexElement::new(1)));
    assert_eq!(vec![1], v.iter().map(|e| e.read_value()).collect::<Vec<isize>>());

    let mut v: Vec<ArcMutexElement<isize>> = Vec::new();

    assert_eq!(0, v.sorted_insert_asc_binary(ArcMutexElement::new(1)));
    assert_eq!(vec![1], v.iter().map(|e| e.read_value()).collect::<Vec<isize>>());

    let mut v: Vec<ArcMutexElement<isize>> = Vec::new();

    assert_eq!(0, v.sorted_insert_desc(ArcMutexElement::new(1)));
    assert_eq!(vec![1], v.iter().map(|e| e.read_value()).collect::<Vec<isize>>());

    let mut v: Vec<ArcMutexElement<isize>> = Vec::new();

    assert_eq!(0, v.sorted_insert_desc_binary(ArcMutexElement::new(1)));
    assert_eq!(vec![1], v.iter().map(|e| e.read_value()).collect::<Vec<isize>>());
}

#[test]
fn arc_rw_lock() {
    let mut v: Vec<ArcRwLockElement<isize>> = Vec::new();

    assert_eq!(0, v.sorted_insert_asc(ArcRwLockElement::new(1)));
    assert_eq!(vec![1], v.iter().map(|e| e.read_value()).collect::<Vec<isize>>());

    let mut v: Vec<ArcRwLockElement<isize>> = Vec::new();

    assert_eq!(0, v.sorted_insert_asc_binary(ArcRwLockElement::new(1)));
    assert_eq!(vec![1], v.iter().map(|e| e.read_value()).collect::<Vec<isize>>());

    let mut v: Vec<ArcRwLockElement<isize>> = Vec::new();

    assert_eq!(0, v.sorted_insert_desc(ArcRwLockElement::new(1)));
    assert_eq!(vec![1], v.iter().map(|e| e.read_value()).collect::<Vec<isize>>());

    let mut v: Vec<ArcRwLockElement<isize>> = Vec::new();

    assert_eq!(0, v.sorted_insert_desc_binary(ArcRwLockElement::new(1)));
    assert_eq!(vec![1], v.iter().map(|e| e.read_value()).collect::<Vec<isize>>());
}

/// After an insertion returns, no element lock is left held: re-acquiring
/// every lock (the candidate's included) succeeds immediately.
#[test]
fn locks_released_after_insert() {
    let mut v: Vec<ArcMutexElement<isize>> = vec![
        ArcMutexElement::new(1),
        ArcMutexElement::new(5),
    ];
    let candidate = ArcMutexElement::new(2);
    let handle = candidate.share();
    assert_eq!(1, v.sorted_insert_asc(candidate));
    assert_eq!(2, handle.read_value());
    assert_eq!(
        vec![1, 2, 5],
        v.iter().map(|e| e.read_value()).collect::<Vec<isize>>()
    );

    let mut v: Vec<ArcRwLockElement<isize>> = vec![
        ArcRwLockElement::new(1),
        ArcRwLockElement::new(5),
    ];
    let candidate = ArcRwLockElement::new(2);
    let handle = candidate.share();
    assert_eq!(1, v.sorted_insert_asc(candidate));
    assert_eq!(2, handle.read_value());
    assert_eq!(
        vec![1, 2, 5],
        v.iter().map(|e| e.read_value()).collect::<Vec<isize>>()
    );
}

/// The lock-wrapped operations land on the same index as the plain ones for
/// the same values, linear and binary, ascending and descending.
#[test]
fn lock_wrapped_matches_plain() {
    let values: [isize; 4] = [1, 3, 3, 7];
    let candidates: [isize; 4] = [0, 3, 5, 9];

    for c in candidates {
        let mut plain: Vec<isize> = values.to_vec();
        let plain_index = plain.sorted_insert_asc(c);

        let mut locked: Vec<ArcMutexElement<isize>> =
            values.iter().map(|x| ArcMutexElement::new(*x)).collect();
        assert_eq!(plain_index, locked.sorted_insert_asc(ArcMutexElement::new(c)));

        let mut shared: Vec<ArcRwLockElement<isize>> =
            values.iter().map(|x| ArcRwLockElement::new(*x)).collect();
        assert_eq!(plain_index, shared.sorted_insert_asc(ArcRwLockElement::new(c)));
    }

    let desc_values: [isize; 4] = [7, 3, 3, 1];
    for c in candidates {
        let mut plain: Vec<isize> = desc_values.to_vec();
        let plain_index = plain.sorted_insert_desc_binary(c);

        let mut locked: Vec<ArcMutexElement<isize>> =
            desc_values.iter().map(|x| ArcMutexElement::new(*x)).collect();
        assert_eq!(
            plain_index,
            locked.sorted_insert_desc_binary(ArcMutexElement::new(c))
        );

        let mut shared: Vec<ArcRwLockElement<isize>> =
            desc_values.iter().map(|x| ArcRwLockElement::new(*x)).collect();
        assert_eq!(
            plain_index,
            shared.sorted_insert_desc_binary(ArcRwLockElement::new(c))
        );
    }
}

/// Lock-wrapped by-key and by-comparator layers work on the guarded values.
#[test]
fn lock_wrapped_by_key_and_comparator() {
    let mut v: Vec<ArcMutexElement<(isize, isize)>> = vec![
        ArcMutexElement::new((1, 10)),
        ArcMutexElement::new((2, 20)),
    ];
    let index = v.sorted_insert_asc_by_key(ArcMutexElement::new((1, 15)), |e: &(isize, isize)| e.1);
    assert_eq!(1, index);
    assert_eq!(
        vec![(1, 10), (1, 15), (2, 20)],
        v.iter().map(|e| e.read_value()).collect::<Vec<(isize, isize)>>()
    );

    let mut v: Vec<ArcMutexElement<isize>> = vec![
        ArcMutexElement::new(1),
        ArcMutexElement::new(5),
    ];
    let index = v.sorted_insert_by(ArcMutexElement::new(3), |a: &isize, b: &isize| *a <= *b);
    assert_eq!(1, index);
    assert_eq!(
        vec![1, 3, 5],
        v.iter().map(|e| e.read_value()).collect::<Vec<isize>>()
    );
}

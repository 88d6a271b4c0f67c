use sailfish_node::store::PendingReads;

// Hands `value` to each released waiter, as the store actor does.
fn deliver<W>(released: Vec<W>, value: &[u8]) -> Vec<(W, Vec<u8>)> {
    released.into_iter().map(|w| (w, value.to_vec())).collect()
}

#[test]
fn notify_read_before_write_gets_the_written_value() {
    // The reader of [42] finds nothing and is parked; the write of [7] releases it.
    let mut table: PendingReads<&str> = PendingReads::new();
    let early: Result<Option<Vec<u8>>, String> = Ok(None);
    assert!(table.on_notify(vec![42], "reader", early).is_none());
    let released = table.on_write(&[42], &Ok::<(), String>(()));
    assert_eq!(deliver(released, &[7]), vec![("reader", vec![7])]);
    assert!(table.take(&[42]).is_empty());
}

#[test]
fn multiple_waiters_are_released_in_registration_order() {
    let mut table: PendingReads<u32> = PendingReads::new();
    for w in [1u32, 2, 3] {
        assert!(table.on_notify(vec![5], w, Ok::<Option<Vec<u8>>, ()>(None)).is_none());
    }
    let released = table.on_write(&[5], &Ok::<(), ()>(()));
    assert_eq!(deliver(released, &[1]), vec![(1, vec![1]), (2, vec![1]), (3, vec![1])]);
}

#[test]
fn notify_read_of_a_present_key_answers_at_once() {
    let mut table: PendingReads<u32> = PendingReads::new();
    let answer = table.on_notify(vec![1, 2, 3], 7, Ok::<Option<Vec<u8>>, ()>(Some(vec![9, 9])));
    assert_eq!(answer, Some((7, Ok(vec![9, 9]))));
    assert!(table.on_write(&[1, 2, 3], &Ok::<(), ()>(())).is_empty());
}

#[test]
fn engine_error_goes_back_to_the_waiter() {
    let mut table: PendingReads<u32> = PendingReads::new();
    let answer = table.on_notify(vec![1], 4, Err::<Option<Vec<u8>>, &str>("io"));
    assert_eq!(answer, Some((4, Err("io"))));
    assert!(table.take(&[1]).is_empty());
}

#[test]
fn refused_write_keeps_the_waiters() {
    let mut table: PendingReads<u32> = PendingReads::new();
    assert!(table.on_notify(vec![8], 1, Ok::<Option<Vec<u8>>, ()>(None)).is_none());
    assert!(table.on_write(&[8], &Err::<(), &str>("disk full")).is_empty());
    assert_eq!(table.on_write(&[8], &Ok::<(), &str>(())), vec![1]);
}

#[test]
fn waiters_of_other_keys_stay_parked() {
    let mut table: PendingReads<u32> = PendingReads::new();
    table.park(vec![1], 10);
    table.park(vec![2], 20);
    table.park(vec![1], 11);
    assert_eq!(table.on_write(&[2], &Ok::<(), ()>(())), vec![20]);
    assert_eq!(table.take(&[1]), vec![10, 11]);
    assert!(table.take(&[2]).is_empty());
}

#[test]
fn a_write_releases_only_waiters_registered_before_it() {
    let mut table: PendingReads<u32> = PendingReads::new();
    table.park(vec![3], 1);
    assert_eq!(table.on_write(&[3], &Ok::<(), ()>(())), vec![1]);
    // A later reader of the now present key is answered by the engine lookup.
    let answer = table.on_notify(vec![3], 2, Ok::<Option<Vec<u8>>, ()>(Some(vec![7])));
    assert_eq!(answer, Some((2, Ok(vec![7]))));
}

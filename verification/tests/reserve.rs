use pgshard::reserve::{reserve, Allocation, SeqError, SequenceCache, RESERVE_SQL};
use pgshard::sequence::{InjectedColumn, SequenceInjection};

#[test]
fn reservations_follow_one_another() {
    // A fresh sequence starts at 1; each claim moves it by one block.
    assert_eq!(reserve("ids", Some((101, 100))), Ok((1, 100)));
    assert_eq!(reserve("ids", Some((201, 100))), Ok((101, 100)));
    assert!(RESERVE_SQL.ends_with("RETURNING next_id, block_size"));
}

#[test]
fn an_unregistered_sequence_is_named() {
    let e = reserve("missing", None).unwrap_err();
    assert_eq!(e, SeqError::UnknownSequence("missing".to_owned()));
}

#[test]
fn a_block_without_ids_is_refused() {
    assert_eq!(
        reserve("ids", Some((1, 0))),
        Err(SeqError::Backend(
            "sequence \"ids\" has a non-positive block_size 0".to_owned()
        ))
    );
    assert_eq!(
        reserve("ids", Some((1, -5))),
        Err(SeqError::Backend(
            "sequence \"ids\" has a non-positive block_size -5".to_owned()
        ))
    );
}

#[test]
fn ids_are_drawn_in_order_across_blocks() {
    let mut cache = SequenceCache::new();
    assert_eq!(cache.next_id("ids"), None);
    cache.refill("ids", 1, 2);
    cache.refill("other", 50, 1);
    assert_eq!(cache.next_id("ids"), Some(1));
    let mut drawn: Vec<i64> = Vec::new();
    assert!(!cache.draw("ids", 3, &mut drawn));
    assert_eq!(drawn, vec![2]);
    cache.refill("ids", 101, 100);
    assert!(cache.draw("ids", 3, &mut drawn));
    assert_eq!(drawn, vec![2, 101, 102]);
    assert_eq!(cache.next_id("ids"), Some(103));
    assert_eq!(cache.next_id("other"), Some(50));
    assert_eq!(cache.next_id("other"), None);
}

#[test]
fn an_allocation_draws_one_id_per_row_for_each_column() {
    let wanted = vec![
        SequenceInjection { column: "id".to_owned(), sequence: "ids".to_owned() },
        SequenceInjection { column: "no".to_owned(), sequence: "numbers".to_owned() },
    ];
    let mut cache = SequenceCache::new();
    let mut allocation = Allocation::new(wanted, 3);
    assert_eq!(allocation.draw(&mut cache), Some("ids".to_owned()));
    cache.refill("ids", 1, 2);
    // The block holds fewer ids than the statement has rows.
    assert_eq!(allocation.draw(&mut cache), Some("ids".to_owned()));
    cache.refill("ids", 101, 2);
    assert_eq!(allocation.draw(&mut cache), Some("numbers".to_owned()));
    cache.refill("numbers", 7, 100);
    assert_eq!(allocation.draw(&mut cache), None);
    assert_eq!(
        allocation.columns,
        vec![
            InjectedColumn { column: "id".to_owned(), ids: vec![1, 2, 101] },
            InjectedColumn { column: "no".to_owned(), ids: vec![7, 8, 9] },
        ]
    );
    assert_eq!(cache.next_id("ids"), Some(102));
    assert_eq!(cache.next_id("numbers"), Some(10));
}

use my_service_bus_client::{MessageId, QueueIndexRange, QueueWithIntervals};

fn ranges(q: &QueueWithIntervals) -> Vec<(i64, i64)> {
    q.intervals().iter().map(|r| (r.from_id, r.to_id)).collect()
}

fn filled(ids: &[i64]) -> QueueWithIntervals {
    let mut q = QueueWithIntervals::new();
    for id in ids {
        q.enqueue(*id);
    }
    q
}

#[test]
fn empty_set_has_no_ranges() {
    let q = QueueWithIntervals::new();
    assert_eq!(q.len(), 0);
    assert!(ranges(&q).is_empty());
    assert!(!q.contains(0));
}

#[test]
fn sequential_ids_form_one_range() {
    let q = filled(&[1, 2, 3, 4, 5]);
    assert_eq!(q.len(), 5);
    assert_eq!(ranges(&q), vec![(1, 5)]);
}

#[test]
fn sequential_ids_from_any_start_form_one_range() {
    let ids: Vec<i64> = (1000..1100).collect();
    let q = filled(&ids);
    assert_eq!(q.len(), 100);
    assert_eq!(ranges(&q), vec![(1000, 1099)]);
}

#[test]
fn ascending_ids_with_gaps_form_several_ranges() {
    let q = filled(&[1, 3, 5]);
    assert_eq!(q.len(), 3);
    assert_eq!(ranges(&q), vec![(1, 1), (3, 3), (5, 5)]);
}

#[test]
fn any_order_with_duplicates_counts_distinct_ids() {
    let q = filled(&[5, 1, 3, 2, 9, 3, 1, 10, 12, 11, 12]);
    assert_eq!(q.len(), 8);
    assert_eq!(ranges(&q), vec![(1, 3), (5, 5), (9, 12)]);
}

#[test]
fn compact_encoding_of_a_broken_run() {
    let q = filled(&[12, 1, 2, 9, 3, 4, 7, 5, 10, 11]);
    assert_eq!(q.len(), 10);
    assert_eq!(ranges(&q), vec![(1, 5), (7, 7), (9, 12)]);
}

#[test]
fn an_id_filling_a_gap_merges_two_ranges() {
    let q = filled(&[1, 3, 2]);
    assert_eq!(ranges(&q), vec![(1, 3)]);
    let q = filled(&[10, 11, 14, 15, 13, 12]);
    assert_eq!(ranges(&q), vec![(10, 15)]);
    assert_eq!(q.len(), 6);
}

#[test]
fn an_id_right_before_a_range_extends_it_down() {
    let q = filled(&[5, 4, 3]);
    assert_eq!(ranges(&q), vec![(3, 5)]);
}

#[test]
fn an_id_before_all_ranges_opens_a_new_one() {
    let q = filled(&[10, 20, 1]);
    assert_eq!(ranges(&q), vec![(1, 1), (10, 10), (20, 20)]);
}

#[test]
fn inserting_an_id_twice_counts_it_once() {
    let q = filled(&[7, 7, 7]);
    assert_eq!(q.len(), 1);
    assert_eq!(ranges(&q), vec![(7, 7)]);
}

#[test]
fn extreme_ids() {
    let q = filled(&[i64::MAX, i64::MIN, i64::MAX - 1, i64::MIN + 1]);
    assert_eq!(q.len(), 4);
    assert_eq!(
        ranges(&q),
        vec![(i64::MIN, i64::MIN + 1), (i64::MAX - 1, i64::MAX)]
    );
    assert!(q.contains(i64::MIN));
    assert!(q.contains(i64::MAX));
    assert!(!q.contains(0));
}

#[test]
fn contains_reports_membership() {
    let q = filled(&[1, 2, 3, 7, 9, 10]);
    for id in [1, 2, 3, 7, 9, 10] {
        assert!(q.contains(id));
    }
    for id in [0, 4, 5, 6, 8, 11] {
        assert!(!q.contains(id));
    }
}

#[test]
fn snapshot_is_an_equal_copy() {
    let mut q = filled(&[1, 2, 4]);
    let snapshot = q.get_snapshot();
    assert_eq!(ranges(&snapshot), vec![(1, 2), (4, 4)]);
    assert_eq!(snapshot.len(), 3);
    q.enqueue(3);
    assert_eq!(ranges(&q), vec![(1, 4)]);
    assert_eq!(ranges(&snapshot), vec![(1, 2), (4, 4)]);
}

#[test]
fn range_values_are_plain_pairs() {
    let r = QueueIndexRange { from_id: 3, to_id: 8 };
    let copy = r;
    assert_eq!(r, copy);
}

#[test]
fn message_id_wraps_a_value() {
    let id = MessageId::new(42);
    assert_eq!(id.get_value(), 42);
    assert_eq!(MessageId::from(Some(7)), Some(MessageId::new(7)));
    assert_eq!(MessageId::from(None), None);
    assert!(MessageId::new(1) < MessageId::new(2));
    assert!(MessageId::new(-5) < MessageId::new(3));
    assert!(!(MessageId::new(4) < MessageId::new(4)));
    assert!(MessageId::new(4) <= MessageId::new(4));
    assert_eq!(
        MessageId::new(9).partial_cmp(&MessageId::new(2)),
        Some(std::cmp::Ordering::Greater)
    );
    let id: MessageId = 9i64.into();
    assert_eq!(id.get_value(), 9);
    let value: i64 = MessageId::new(11).into();
    assert_eq!(value, 11);
}

#[test]
fn emptiness_and_capped_count() {
    let q = filled(&[1, 2, 3, 10]);
    assert!(!q.is_empty());
    assert!(QueueWithIntervals::new().is_empty());
    assert_eq!(q.capped_count(100), 4);
    assert_eq!(q.capped_count(2), 2);
}

use turbine::sequence::check_admission;
use turbine::sequence::plan;
use turbine::sequence::readable;
use turbine::sequence::Admission;
use turbine::sequence::Batch;

#[test]
fn off_the_bound_the_producer_goes_ahead() {
    // Position 5 falls into slot 5, the bound is slot 7: nothing is looked at.
    assert_eq!(check_admission(5, 7, 8, 0), Admission { admitted: true, until: 7 });
    assert_eq!(check_admission(5, 7, 8, u64::MAX), Admission { admitted: true, until: 7 });
    // Even a consumer that would be too far behind is not noticed.
    assert_eq!(check_admission(21, 7, 8, 0), Admission { admitted: true, until: 7 });
}

#[test]
fn on_the_bound_the_slowest_consumer_decides() {
    // Position 7, slot 7, slowest consumer at 3: four behind, slot 3 is next.
    assert_eq!(check_admission(7, 7, 8, 3), Admission { admitted: true, until: 3 });
    // Position 11, slot 3, slowest consumer at 3: a whole ring behind.
    assert_eq!(check_admission(11, 3, 8, 3), Admission { admitted: false, until: 3 });
    // One record further on the consumer's side frees the slot.
    assert_eq!(check_admission(11, 3, 8, 4), Admission { admitted: true, until: 4 });
    // More than a whole ring behind is refused as well.
    assert_eq!(check_admission(19, 3, 8, 3), Admission { admitted: false, until: 3 });
    // A consumer that has caught up.
    assert_eq!(check_admission(1024, 0, 1024, 1024), Admission { admitted: true, until: 0 });
    assert_eq!(check_admission(1025, 1, 1024, 1), Admission { admitted: false, until: 1 });
    assert_eq!(check_admission(1025, 1, 1024, 1025), Admission { admitted: true, until: 1 });
}

#[test]
fn without_consumers_every_slot_is_free() {
    assert_eq!(check_admission(7, 7, 8, u64::MAX), Admission { admitted: true, until: 7 });
    assert_eq!(check_admission(15, 7, 8, u64::MAX), Admission { admitted: true, until: 7 });
    assert_eq!(
        check_admission(u64::MAX, 1023, 1024, u64::MAX),
        Admission { admitted: true, until: 1023 }
    );
}

#[test]
fn a_ring_of_one_slot() {
    assert_eq!(check_admission(0, 0, 1, 0), Admission { admitted: true, until: 0 });
    assert_eq!(check_admission(1, 0, 1, 0), Admission { admitted: false, until: 0 });
    assert_eq!(check_admission(1, 0, 1, 1), Admission { admitted: true, until: 0 });
}

#[test]
fn a_consumer_moves_only_beyond_its_cursor() {
    assert_eq!(readable(0, 0), None);
    assert_eq!(readable(0, 1), Some(1));
    assert_eq!(readable(5, 1200), Some(1200));
    assert_eq!(readable(5, 5), None);
    assert_eq!(readable(5, 4), None);
    assert_eq!(readable(5, u64::MAX), Some(u64::MAX));
    assert_eq!(readable(u64::MAX, u64::MAX), None);
}

#[test]
fn a_batch_within_the_ring_is_one_slice() {
    assert_eq!(plan(0, 1, 1024), Batch { from: 0, to: 1, wrap: 0 });
    assert_eq!(plan(0, 1000, 1024), Batch { from: 0, to: 1000, wrap: 0 });
    assert_eq!(plan(1030, 1035, 1024), Batch { from: 6, to: 11, wrap: 0 });
    assert_eq!(plan(3, 7, 8), Batch { from: 3, to: 7, wrap: 0 });
}

#[test]
fn a_batch_over_the_end_of_the_ring_is_two_slices() {
    assert_eq!(plan(1000, 1200, 1024), Batch { from: 1000, to: 1024, wrap: 176 });
    assert_eq!(plan(6, 12, 8), Batch { from: 6, to: 8, wrap: 4 });
    // Up to the end of the ring and no further: the second slice is empty.
    assert_eq!(plan(6, 8, 8), Batch { from: 6, to: 8, wrap: 0 });
    assert_eq!(plan(1000, 1024, 1024), Batch { from: 1000, to: 1024, wrap: 0 });
}

#[test]
fn a_batch_of_a_whole_ring() {
    assert_eq!(plan(0, 8, 8), Batch { from: 0, to: 8, wrap: 0 });
    assert_eq!(plan(3, 11, 8), Batch { from: 3, to: 8, wrap: 3 });
    assert_eq!(plan(1024, 2048, 1024), Batch { from: 0, to: 1024, wrap: 0 });
    assert_eq!(plan(0, 1, 1), Batch { from: 0, to: 1, wrap: 0 });
}

#[test]
fn nothing_available_is_an_empty_batch() {
    assert_eq!(plan(5, 5, 8), Batch { from: 5, to: 5, wrap: 0 });
    assert_eq!(plan(13, 5, 8), Batch { from: 5, to: 5, wrap: 0 });
    assert_eq!(plan(2, 1, 8), Batch { from: 2, to: 2, wrap: 0 });
}

use turbine::eventprocessor::deliver;
use turbine::sequence::Batch;
use turbine::BusyWait;
use turbine::EventProcessor;
use turbine::Halt;
use turbine::Padded64;
use turbine::RingBuffer;
use turbine::Slot;
use turbine::Turbine;
use turbine::WaitStrategy;

#[derive(Copy, Clone)]
struct TestSlot {
    pub value: i32,
}

impl Slot for TestSlot {
    fn new() -> TestSlot {
        TestSlot { value: -1 }
    }
}

fn numbered(value: i32) -> TestSlot {
    TestSlot { value }
}

/// Runs the consumer until nothing is left and notes what it saw, batch by
/// batch.
fn drain(ep: &EventProcessor<TestSlot>, seen: &mut Vec<Vec<i32>>) -> Halt {
    ep.start::<_, BusyWait>(|data: &[TestSlot]| -> Result<(), ()> {
        seen.push(data.iter().map(|slot| slot.value).collect());
        Ok(())
    })
}

/// Publishes the numbers `from..to` and lets the consumers read whenever the
/// ring is full. Returns what each consumer saw, in order.
fn pump(
    t: &mut Turbine<TestSlot>,
    consumers: &[&EventProcessor<TestSlot>],
    from: i32,
    to: i32,
) -> Vec<Vec<Vec<i32>>> {
    let mut seen: Vec<Vec<Vec<i32>>> = consumers.iter().map(|_| Vec::new()).collect();
    let mut next = from;
    while next < to {
        match t.write(numbered(next)) {
            Ok(()) => next += 1,
            Err(back) => {
                assert_eq!(back.value, next);
                for (k, ep) in consumers.iter().enumerate() {
                    assert_eq!(drain(ep, &mut seen[k]), Halt::Starved);
                }
            }
        }
    }
    for (k, ep) in consumers.iter().enumerate() {
        assert_eq!(drain(ep, &mut seen[k]), Halt::Starved);
    }
    seen
}

fn flat(batches: &[Vec<i32>]) -> Vec<i32> {
    batches.iter().flatten().copied().collect()
}

#[test]
fn single_write_and_read() {
    let mut t: Turbine<TestSlot> = Turbine::new(1024);
    let e1 = t.ep_new().unwrap();
    let event_processor = t.ep_finalize(e1).ok().unwrap();

    assert!(t.current_pos() == 0);
    assert!(t.write(numbered(19)).is_ok());
    assert!(t.current_pos() == 1);

    let mut calls = 0;
    let halt = event_processor.start::<_, BusyWait>(|data: &[TestSlot]| -> Result<(), ()> {
        calls += 1;
        assert!(data.len() == 1);
        assert!(data[0].value == 19);
        Err(())
    });
    assert_eq!(halt, Halt::Stopped);
    assert_eq!(calls, 1);
    assert_eq!(t.cursor(1).unwrap().load(), 1);
}

#[test]
fn nothing_published_nothing_read() {
    let mut t: Turbine<TestSlot> = Turbine::new(8);
    let e1 = t.ep_new().unwrap();
    let ep = t.ep_finalize(e1).ok().unwrap();
    let mut seen = Vec::new();
    assert_eq!(drain(&ep, &mut seen), Halt::Starved);
    assert!(seen.is_empty());
    assert_eq!(t.cursor(1).unwrap().load(), 0);
}

#[test]
fn sequential_thousand() {
    let mut t: Turbine<TestSlot> = Turbine::new(1024);
    let e1 = t.ep_new().unwrap();
    let ep = t.ep_finalize(e1).ok().unwrap();

    for i in 0..1000 {
        assert!(t.write(numbered(i)).is_ok());
    }
    let mut count = 0;
    let halt = ep.start::<_, BusyWait>(|data: &[TestSlot]| -> Result<(), ()> {
        for x in data.iter() {
            assert_eq!(x.value, count);
            count += 1;
        }
        if count == 1000 {
            Err(())
        } else {
            Ok(())
        }
    });
    assert_eq!(halt, Halt::Stopped);
    assert_eq!(count, 1000);
}

#[test]
fn wrap_around_twelve_hundred() {
    let mut t: Turbine<TestSlot> = Turbine::new(1024);
    let e1 = t.ep_new().unwrap();
    let ep = t.ep_finalize(e1).ok().unwrap();

    let seen = pump(&mut t, &[&ep], 0, 1200);
    assert_eq!(flat(&seen[0]), (0..1200).collect::<Vec<i32>>());
    // The ring filled once: one batch of a whole ring, one of the rest.
    assert_eq!(seen[0].len(), 2);
    assert_eq!(seen[0][0].len(), 1024);
    assert_eq!(seen[0][1].len(), 176);
    assert_eq!(t.current_pos(), 1200);
    assert_eq!(t.cursor(1).unwrap().load(), 1200);
}

#[test]
fn large_fifty_thousand() {
    let mut t: Turbine<TestSlot> = Turbine::new(1024);
    let e1 = t.ep_new().unwrap();
    let ep = t.ep_finalize(e1).ok().unwrap();

    let seen = pump(&mut t, &[&ep], 0, 50000);
    let all = flat(&seen[0]);
    assert_eq!(all.len(), 50000);
    assert!(all.iter().enumerate().all(|(n, value)| *value == n as i32));
    let sum: i64 = all.iter().map(|value| *value as i64).sum();
    assert_eq!(sum, 49999 * 50000 / 2);
}

#[test]
fn two_independent_consumers() {
    let mut t: Turbine<TestSlot> = Turbine::new(1024);
    let e1 = t.ep_new().unwrap();
    let e2 = t.ep_new().unwrap();
    let ep1 = t.ep_finalize(e1).ok().unwrap();
    let ep2 = t.ep_finalize(e2).ok().unwrap();

    let seen = pump(&mut t, &[&ep1, &ep2], 0, 1200);
    assert_eq!(flat(&seen[0]), (0..1200).collect::<Vec<i32>>());
    assert_eq!(flat(&seen[1]), (0..1200).collect::<Vec<i32>>());
}

#[test]
fn a_fast_consumer_does_not_free_the_slots_of_a_slow_one() {
    let mut t: Turbine<TestSlot> = Turbine::new(4);
    let e1 = t.ep_new().unwrap();
    let e2 = t.ep_new().unwrap();
    let ep1 = t.ep_finalize(e1).ok().unwrap();
    let ep2 = t.ep_finalize(e2).ok().unwrap();

    for i in 0..4 {
        assert!(t.write(numbered(i)).is_ok());
    }
    let mut first = Vec::new();
    assert_eq!(drain(&ep1, &mut first), Halt::Starved);
    assert_eq!(flat(&first), vec![0, 1, 2, 3]);
    assert!(t.write(numbered(4)).is_err());

    let mut second = Vec::new();
    assert_eq!(drain(&ep2, &mut second), Halt::Starved);
    assert_eq!(flat(&second), vec![0, 1, 2, 3]);
    assert!(t.write(numbered(4)).is_ok());
}

#[test]
fn a_consumer_stays_behind_the_one_it_trails() {
    let mut t: Turbine<TestSlot> = Turbine::new(1024);
    let a = t.ep_new().unwrap();
    let b = t.ep_new().unwrap();
    assert!(t.ep_depends(b, a).is_ok());
    let ep_a = t.ep_finalize(a).ok().unwrap();
    let ep_b = t.ep_finalize(b).ok().unwrap();

    for i in 0..10 {
        assert!(t.write(numbered(i)).is_ok());
    }
    // B may not read what A has not read.
    let mut seen_b = Vec::new();
    assert_eq!(drain(&ep_b, &mut seen_b), Halt::Starved);
    assert!(seen_b.is_empty());
    assert_eq!(t.cursor(2).unwrap().load(), 0);

    let mut seen_a = Vec::new();
    assert_eq!(drain(&ep_a, &mut seen_a), Halt::Starved);
    assert_eq!(flat(&seen_a), (0..10).collect::<Vec<i32>>());
    assert_eq!(t.cursor(1).unwrap().load(), 10);

    assert_eq!(drain(&ep_b, &mut seen_b), Halt::Starved);
    assert_eq!(flat(&seen_b), (0..10).collect::<Vec<i32>>());
    assert_eq!(t.cursor(2).unwrap().load(), 10);
}

#[test]
fn two_consumers_with_dependency() {
    let mut t: Turbine<TestSlot> = Turbine::new(1024);
    let a = t.ep_new().unwrap();
    let b = t.ep_new().unwrap();
    assert!(t.ep_depends(b, a).is_ok());
    let ep_a = t.ep_finalize(a).ok().unwrap();
    let ep_b = t.ep_finalize(b).ok().unwrap();

    let mut seen_a = Vec::new();
    let mut seen_b = Vec::new();
    let mut next = 0;
    while next < 1200 {
        if t.write(numbered(next)).is_ok() {
            next += 1;
        }
        if next % 100 == 0 || next == 1200 {
            // B first, so that it meets A's cursor where A left it.
            assert_eq!(drain(&ep_b, &mut seen_b), Halt::Starved);
            assert!(t.cursor(2).unwrap().load() <= t.cursor(1).unwrap().load());
            assert_eq!(drain(&ep_a, &mut seen_a), Halt::Starved);
            assert!(t.cursor(2).unwrap().load() <= t.cursor(1).unwrap().load());
            assert!(t.cursor(1).unwrap().load() <= t.cursor(0).unwrap().load());
        }
    }
    assert_eq!(drain(&ep_b, &mut seen_b), Halt::Starved);
    assert_eq!(flat(&seen_a), (0..1200).collect::<Vec<i32>>());
    assert_eq!(flat(&seen_b), (0..1200).collect::<Vec<i32>>());
}

#[test]
fn a_batch_over_the_end_comes_in_two_slices() {
    let mut t: Turbine<TestSlot> = Turbine::new(8);
    let e1 = t.ep_new().unwrap();
    let ep = t.ep_finalize(e1).ok().unwrap();

    let mut seen = Vec::new();
    for i in 0..6 {
        assert!(t.write(numbered(i)).is_ok());
    }
    assert_eq!(drain(&ep, &mut seen), Halt::Starved);
    for i in 6..12 {
        assert!(t.write(numbered(i)).is_ok());
    }
    assert_eq!(drain(&ep, &mut seen), Halt::Starved);
    assert_eq!(seen, vec![vec![0, 1, 2, 3, 4, 5], vec![6, 7], vec![8, 9, 10, 11]]);
}

#[test]
fn a_batch_of_a_whole_ring_comes_in_order() {
    let mut t: Turbine<TestSlot> = Turbine::new(4);
    let e1 = t.ep_new().unwrap();
    let ep = t.ep_finalize(e1).ok().unwrap();

    let mut seen = Vec::new();
    for i in 0..2 {
        assert!(t.write(numbered(i)).is_ok());
    }
    assert_eq!(drain(&ep, &mut seen), Halt::Starved);
    for i in 2..6 {
        assert!(t.write(numbered(i)).is_ok());
    }
    assert!(t.write(numbered(6)).is_err());
    assert_eq!(drain(&ep, &mut seen), Halt::Starved);
    assert_eq!(seen, vec![vec![0, 1], vec![2, 3], vec![4, 5]]);

    // From slot two, a whole ring in one go when it ends at the end.
    for i in 6..8 {
        assert!(t.write(numbered(i)).is_ok());
    }
    seen.clear();
    assert_eq!(drain(&ep, &mut seen), Halt::Starved);
    assert_eq!(seen, vec![vec![6, 7]]);
    for i in 8..12 {
        assert!(t.write(numbered(i)).is_ok());
    }
    seen.clear();
    assert_eq!(drain(&ep, &mut seen), Halt::Starved);
    assert_eq!(seen, vec![vec![8, 9, 10, 11]]);
}

#[test]
fn the_cursor_moves_after_the_callback_has_run() {
    let mut t: Turbine<TestSlot> = Turbine::new(8);
    let e1 = t.ep_new().unwrap();
    let ep = t.ep_finalize(e1).ok().unwrap();
    for i in 0..3 {
        assert!(t.write(numbered(i)).is_ok());
    }
    let cursor = t.cursor(1).unwrap();
    let halt = ep.start::<_, BusyWait>(|data: &[TestSlot]| -> Result<(), ()> {
        assert_eq!(data.len(), 3);
        assert_eq!(cursor.load(), 0);
        Err(())
    });
    assert_eq!(halt, Halt::Stopped);
    assert_eq!(cursor.load(), 3);
}

#[test]
fn a_stopped_consumer_takes_up_where_it_ended() {
    let mut t: Turbine<TestSlot> = Turbine::new(8);
    let e1 = t.ep_new().unwrap();
    let ep = t.ep_finalize(e1).ok().unwrap();
    for i in 0..3 {
        assert!(t.write(numbered(i)).is_ok());
    }
    let mut seen = Vec::new();
    let halt = ep.start::<_, BusyWait>(|data: &[TestSlot]| -> Result<(), ()> {
        seen.extend(data.iter().map(|slot| slot.value));
        Err(())
    });
    assert_eq!(halt, Halt::Stopped);
    for i in 3..5 {
        assert!(t.write(numbered(i)).is_ok());
    }
    // Another handle of the same consumer shares its cursor.
    let again = t.ep_finalize(e1).ok().unwrap();
    let halt = again.start::<_, BusyWait>(|data: &[TestSlot]| -> Result<(), ()> {
        seen.extend(data.iter().map(|slot| slot.value));
        Ok(())
    });
    assert_eq!(halt, Halt::Starved);
    assert_eq!(seen, vec![0, 1, 2, 3, 4]);
}

#[test]
fn stop_in_the_first_slice_still_delivers_the_second() {
    let mut t: Turbine<TestSlot> = Turbine::new(8);
    let e1 = t.ep_new().unwrap();
    let ep = t.ep_finalize(e1).ok().unwrap();
    let mut seen = Vec::new();
    for i in 0..6 {
        assert!(t.write(numbered(i)).is_ok());
    }
    assert_eq!(drain(&ep, &mut seen), Halt::Starved);
    for i in 6..12 {
        assert!(t.write(numbered(i)).is_ok());
    }
    seen.clear();
    let mut calls = 0;
    let halt = ep.start::<_, BusyWait>(|data: &[TestSlot]| -> Result<(), ()> {
        calls += 1;
        seen.push(data.iter().map(|slot| slot.value).collect());
        if calls == 1 {
            Err(())
        } else {
            Ok(())
        }
    });
    assert_eq!(halt, Halt::Stopped);
    assert_eq!(seen, vec![vec![6, 7], vec![8, 9, 10, 11]]);
    assert_eq!(t.cursor(1).unwrap().load(), 12);
}

#[test]
fn deliver_hands_over_one_or_two_slices() {
    let mut ring: RingBuffer<TestSlot> = RingBuffer::new(8);
    for i in 0..8 {
        ring.write(i, numbered(i as i32 * 10));
    }
    let mut seen: Vec<Vec<i32>> = Vec::new();
    let mut callback = |data: &[TestSlot]| -> Result<(), ()> {
        seen.push(data.iter().map(|slot| slot.value).collect());
        Ok(())
    };
    assert!(!deliver(&ring, Batch { from: 2, to: 5, wrap: 0 }, &mut callback));
    assert!(!deliver(&ring, Batch { from: 6, to: 8, wrap: 3 }, &mut callback));
    assert!(!deliver(&ring, Batch { from: 4, to: 4, wrap: 0 }, &mut callback));
    assert_eq!(
        seen,
        vec![vec![20, 30, 40], vec![60, 70], vec![0, 10, 20], vec![]]
    );
}

#[test]
fn deliver_tells_when_the_callback_asks_to_stop() {
    let ring: RingBuffer<TestSlot> = RingBuffer::new(4);
    let mut calls = 0;
    let mut stop_second = |_: &[TestSlot]| -> Result<(), ()> {
        calls += 1;
        if calls == 2 {
            Err(())
        } else {
            Ok(())
        }
    };
    assert!(!deliver(&ring, Batch { from: 0, to: 2, wrap: 0 }, &mut stop_second));
    assert!(deliver(&ring, Batch { from: 0, to: 2, wrap: 0 }, &mut stop_second));
    assert!(!deliver(&ring, Batch { from: 2, to: 4, wrap: 1 }, &mut stop_second));
    assert_eq!(calls, 4);

    let mut calls = 0;
    let mut stop_first = |_: &[TestSlot]| -> Result<(), ()> {
        calls += 1;
        if calls == 1 {
            Err(())
        } else {
            Ok(())
        }
    };
    assert!(deliver(&ring, Batch { from: 2, to: 4, wrap: 1 }, &mut stop_first));
    assert_eq!(calls, 2);
}

#[test]
fn busy_wait_reports_the_least_cursor() {
    let wait: BusyWait = WaitStrategy::new(1024);
    assert_eq!(wait.get_ring_size(), 1024);

    let a = Padded64::new(7);
    let b = Padded64::new(5);
    let c = Padded64::new(9);
    let deps = vec![&a, &b, &c];
    assert_eq!(wait.wait_for(0, &deps), Some(5));
    assert_eq!(wait.wait_for(4, &deps), Some(5));
    assert_eq!(wait.wait_for(5, &deps), None);
    assert_eq!(wait.wait_for(6, &deps), None);
    assert_eq!(wait.can_read(4, &deps), Some(5));
    assert_eq!(wait.can_read(5, &deps), None);

    b.store(8);
    assert_eq!(wait.wait_for(5, &deps), Some(7));
    assert_eq!(wait.wait_for(7, &deps), None);
}

#[test]
fn busy_wait_without_cursors() {
    let wait: BusyWait = WaitStrategy::new(8);
    let deps: Vec<&Padded64> = Vec::new();
    assert_eq!(wait.wait_for(0, &deps), Some(u64::MAX));
    assert_eq!(wait.wait_for(u64::MAX, &deps), None);
}

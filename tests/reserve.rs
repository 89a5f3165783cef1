use merit::reserve::{ConstantDecay, Reserve};
use merit::HORIZON;

#[test]
fn test_reserve_assigns_volume_when_created() {
    let res = Reserve::new_without_decay(4);
    assert_eq!(res.volume, 4);
}

#[test]
fn test_reserve_starts_empty() {
    let mut res = Reserve::new_without_decay(5);
    assert_eq!(res.at(0), 0);
}

#[test]
fn test_reserve_adds_energy() {
    let mut res = Reserve::new_without_decay(5);
    res.add(0, 2);

    assert_eq!(res.at(0), 2);
}

#[test]
fn test_reserve_carries_previous_values() {
    let mut res = Reserve::new_without_decay(5);
    res.add(0, 2);

    for frame in 1..3 {
        assert_eq!(res.at(frame), 2);
    }
}

#[test]
fn test_reserve_volume_limit() {
    let mut res = Reserve::new_without_decay(2);

    let tests = [(1, 1, 1), (1, 1, 2), (1, 0, 2), (1, 0, 2)];

    for test in tests.iter() {
        assert_eq!(res.add(0, test.0), test.1);
        assert_eq!(res.at(0), test.2);
    }
}

#[test]
fn test_reserve_take() {
    let mut res = Reserve::new_without_decay(10);

    let tests = [
        (3, 3), // less than stored
        (5, 5), // full amount stored
        (7, 5), // more than stored
    ];

    for test in tests.iter() {
        res.set(0, 5);
        assert_eq!(res.take(0, test.0), test.1);
        assert_eq!(res.at(0), 5 - test.1);
    }
}

#[test]
fn test_reserve_decay() {
    let mut res = Reserve::new(10, ConstantDecay { amount: 2 });
    res.add(0, 3);

    let tests = [
        (0, 0, 3), // frame, decay, stored
        (1, 2, 1),
        (2, 1, 0),
        (3, 0, 0),
    ];

    for test in tests.iter() {
        assert_eq!((test.0, res.decay_at(test.0)), (test.0, test.1));
        assert_eq!((test.0, res.at(test.0)), (test.0, test.2));
    }
}

#[test]
fn reserve_resolves_far_frame_through_predecessors() {
    let mut res = Reserve::new(100, ConstantDecay { amount: 3 });
    res.add(0, 20);
    assert_eq!(res.store[5], None);
    assert_eq!(res.at(5), 5);
    for frame in 1..=5 {
        assert_eq!(res.store[frame], Some(20 - 3 * frame as i64));
    }
    assert_eq!(res.store[6], None);
    assert_eq!(res.at(HORIZON - 1), 0);
}

#[test]
fn reserve_at_twice_is_stable() {
    let mut res = Reserve::new(10, ConstantDecay { amount: 1 });
    res.add(0, 4);
    let first = res.at(2);
    let store = res.store.clone();
    assert_eq!(res.at(2), first);
    assert_eq!(res.store, store);
    assert_eq!(first, 2);
}

#[test]
fn reserve_resolved_frame_is_not_recomputed() {
    let mut res = Reserve::new(10, ConstantDecay { amount: 1 });
    res.add(0, 4);
    assert_eq!(res.at(1), 3);
    // Later changes to frame 0 do not reach a frame already resolved.
    res.set(0, 9);
    assert_eq!(res.at(1), 3);
    assert_eq!(res.at(2), 2);
}

#[test]
fn reserve_take_negative_is_noop() {
    let mut res = Reserve::new_without_decay(10);
    res.set(0, 5);
    assert_eq!(res.take(0, -2), 0);
    assert_eq!(res.at(0), 5);
    assert_eq!(res.take(0, 0), 0);
    assert_eq!(res.at(0), 5);
}

#[test]
fn reserve_add_clamps_and_negative() {
    let mut res = Reserve::new_without_decay(10);
    assert_eq!(res.add(3, 12), 10);
    assert_eq!(res.at(3), 10);
    assert_eq!(res.add(3, -4), -4);
    assert_eq!(res.at(3), 6);
}

#[test]
fn reserve_decay_clamped_to_stored() {
    let mut res = Reserve::new(10, ConstantDecay { amount: 7 });
    res.set(0, 5);
    assert_eq!(res.decay_at(1), 5);
    assert_eq!(res.at(1), 0);
    assert_eq!(res.decay_at(0), 0);
}

#[test]
fn reserve_take_after_decay() {
    let mut res = Reserve::new(10, ConstantDecay { amount: 2 });
    res.add(0, 9);
    assert_eq!(res.take(2, 10), 5);
    assert_eq!(res.at(2), 0);
    assert_eq!(res.at(1), 7);
}

#[test]
fn reserve_over_short_horizon() {
    let mut res = Reserve::with_horizon(8, ConstantDecay { amount: 1 }, 4);
    assert_eq!(res.store.len(), 4);
    assert_eq!(res.add(0, 5), 5);
    assert_eq!(res.at(3), 2);
    assert_eq!(res.store, vec![Some(5), Some(4), Some(3), Some(2)]);
}

#[test]
fn reserve_add_never_goes_below_zero() {
    let mut res = Reserve::new_without_decay(10);
    res.set(1, 6);
    assert_eq!(res.add(1, -10), -6);
    assert_eq!(res.at(1), 0);
    assert_eq!(res.add(1, -1), 0);
    assert_eq!(res.at(1), 0);
}

#[test]
fn reserve_decay_at_zero_changes_nothing() {
    let mut res = Reserve::new(10, ConstantDecay { amount: 4 });
    let store = res.store.clone();
    assert_eq!(res.decay_at(0), 0);
    assert_eq!(res.store, store);
    assert_eq!(res.decay_at(3), 0);
    assert_eq!(res.store[3], None);
    assert_eq!(res.store[2], Some(0));
}

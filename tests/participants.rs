use merit::participants::{AlwaysOn, Consumer, Dispatchable, LoadError};
use merit::HORIZON;

#[test]
fn consumer_works() {
    let cons = Consumer::new("cons1".to_string(), vec![500_000, 250_000, 0, 250_000], 1000);

    assert_eq!(cons.load_at(0), 500);
    assert_eq!(cons.load_at(1), 250);
    assert_eq!(cons.load_at(2), 0);
    assert_eq!(cons.load_at(3), 250);
}

#[test]
fn always_on_load_scales_profile() {
    let ao = AlwaysOn::new("ao".to_string(), vec![1_000_000, 333_333, 2_000_000], 3000);
    assert_eq!(ao.load_at(0), 3000);
    assert_eq!(ao.load_at(1), 999);
    assert_eq!(ao.load_at(2), 6000);
}

#[test]
fn load_at_largest_values() {
    let ao = AlwaysOn::new("ao".to_string(), vec![u32::MAX], u32::MAX);
    assert_eq!(ao.load_at(0), (u32::MAX as u64 * u32::MAX as u64) / 1_000_000);
}

#[test]
fn dispatchable_works() {
    let mut disp = Dispatchable::new("disp1".to_string(), 10, 2, 3);

    assert_eq!(disp.key, "disp1");
    assert_eq!(disp.cost, 10);
    assert_eq!(disp.capacity, 2);
    assert_eq!(disp.units, 3);

    assert_eq!(disp.total_capacity(), 6);
    assert_eq!(disp.load_at(0), 0);

    match disp.set_load_at(0, 50) {
        Ok(val) => {
            assert_eq!(val, 50);
        }
        Err(e) => {
            panic!("unexpected error {:?}", e);
        }
    }

    assert_eq!(disp.load_at(0), 50);
}

#[test]
fn dispatchable_refuses_frame_beyond_horizon() {
    let mut disp = Dispatchable::new("disp1".to_string(), 10, 2, 3);
    assert_eq!(disp.set_load_at(HORIZON, 5), Err(LoadError::FrameOutOfRange));
    assert_eq!(disp.set_load_at(HORIZON - 1, 5), Ok(5));
    assert_eq!(disp.load_at(HORIZON - 1), 5);
    assert_eq!(disp.load.len(), HORIZON);
}

#[test]
fn dispatchable_largest_capacity() {
    let disp = Dispatchable::new("big".to_string(), 0, u32::MAX, u32::MAX);
    assert_eq!(disp.total_capacity(), u32::MAX as u64 * u32::MAX as u64);
}

use merit::calculate::calculate;
use merit::order::Order;
use merit::participants::{AlwaysOn, Consumer, Dispatchable};
use merit::HORIZON;

const ONE: u32 = 1_000_000;

#[test]
fn it_works() {
    let ao = AlwaysOn::new("ao".to_string(), vec![ONE; 8760], 1000);
    let co1 = Consumer::new("co".to_string(), vec![ONE; 8760], 2000);
    let co2 = Consumer::new("co".to_string(), vec![ONE; 8760], 200);
    let di = Dispatchable::new("disp1".to_string(), 10, 2, 3);

    let mut order = Order::new();
    order.add_always_on(ao);
    order.add_consumer(co1);
    order.add_consumer(co2);
    order.add_dispatchable(di);

    assert_eq!(order.demand_at(0), 2200);
}

#[test]
fn demand_sums_scaled_profiles() {
    let mut order = Order::new();
    order.add_consumer(Consumer::new("a".to_string(), vec![500_000, 250_000], 1000));
    order.add_consumer(Consumer::new("b".to_string(), vec![1_500_000, 3], 1000));
    assert_eq!(order.demand_at(0), 500 + 1500);
    // 3 millionths of 1000 rounds down to nothing.
    assert_eq!(order.demand_at(1), 250);
    assert_eq!(Order::new().demand_at(0), 0);
}

#[test]
fn always_on_sums_production() {
    let mut order = Order::new();
    order.add_always_on(AlwaysOn::new("a".to_string(), vec![ONE], 30));
    order.add_always_on(AlwaysOn::new("b".to_string(), vec![250_000], 40));
    assert_eq!(order.always_on_at(0), 40);
}

fn flat_order(demand: u32, always_on: u32, units: &[(u32, u32)]) -> Order {
    let mut order = Order::new();
    order.add_always_on(AlwaysOn::new("ao".to_string(), vec![ONE; HORIZON], always_on));
    order.add_consumer(Consumer::new("co".to_string(), vec![ONE; HORIZON], demand));
    for (i, (capacity, count)) in units.iter().enumerate() {
        order.add_dispatchable(Dispatchable::new(format!("d{}", i), i as i64, *capacity, *count));
    }
    order
}

#[test]
fn calculate_fills_cheapest_first() {
    let mut order = flat_order(100, 30, &[(10, 2), (25, 1), (50, 1)]);
    calculate(&mut order);
    for frame in [0, 1, HORIZON - 1] {
        assert_eq!(order.dispatchables[0].load_at(frame), 20);
        assert_eq!(order.dispatchables[1].load_at(frame), 25);
        assert_eq!(order.dispatchables[2].load_at(frame), 25);
        assert_eq!(order.price_setters[frame], Some(2));
    }
}

#[test]
fn calculate_exact_capacity_is_marginal() {
    let mut order = flat_order(50, 0, &[(20, 1), (30, 1), (40, 1)]);
    calculate(&mut order);
    assert_eq!(order.dispatchables[0].load_at(7), 20);
    assert_eq!(order.dispatchables[1].load_at(7), 30);
    assert_eq!(order.dispatchables[2].load_at(7), 0);
    assert_eq!(order.price_setters[7], Some(1));
}

#[test]
fn calculate_shortage_leaves_price_unset() {
    let mut order = flat_order(100, 10, &[(20, 1), (30, 2)]);
    calculate(&mut order);
    assert_eq!(order.dispatchables[0].load_at(3), 20);
    assert_eq!(order.dispatchables[1].load_at(3), 60);
    assert_eq!(order.price_setters[3], None);
}

#[test]
fn calculate_surplus_prices_first_unit() {
    let mut order = flat_order(100, 150, &[(20, 1), (30, 1)]);
    calculate(&mut order);
    assert_eq!(order.dispatchables[0].load_at(0), 0);
    assert_eq!(order.dispatchables[1].load_at(0), 0);
    assert_eq!(order.price_setters[0], Some(0));
}

#[test]
fn calculate_without_dispatchables_sets_no_price() {
    let mut order = flat_order(100, 50, &[]);
    calculate(&mut order);
    assert_eq!(order.price_setters[0], None);
    assert_eq!(order.price_setters[HORIZON - 1], None);
}

#[test]
fn calculate_follows_profiles_per_frame() {
    let mut profile = vec![0u32; HORIZON];
    profile[1] = 500_000;
    profile[2] = ONE;
    let mut order = Order::new();
    order.add_consumer(Consumer::new("co".to_string(), profile, 80));
    order.add_dispatchable(Dispatchable::new("small".to_string(), 1, 30, 1));
    order.add_dispatchable(Dispatchable::new("large".to_string(), 2, 100, 1));
    calculate(&mut order);
    assert_eq!(order.dispatchables[0].load_at(0), 0);
    assert_eq!(order.price_setters[0], Some(0));
    assert_eq!(order.dispatchables[0].load_at(1), 30);
    assert_eq!(order.dispatchables[1].load_at(1), 10);
    assert_eq!(order.price_setters[1], Some(1));
    assert_eq!(order.dispatchables[0].load_at(2), 30);
    assert_eq!(order.dispatchables[1].load_at(2), 50);
}

#[test]
fn calculate_dispatches_in_insertion_order_not_by_cost() {
    let mut order = flat_order(40, 0, &[]);
    order.add_dispatchable(Dispatchable::new("dear".to_string(), 90, 30, 1));
    order.add_dispatchable(Dispatchable::new("cheap".to_string(), 5, 30, 1));
    calculate(&mut order);
    assert_eq!(order.dispatchables[0].load_at(0), 30);
    assert_eq!(order.dispatchables[1].load_at(0), 10);
    assert_eq!(order.price_setters[0], Some(1));
}

#[test]
fn calculate_over_short_horizon() {
    let mut order = Order::with_horizon(3);
    order.add_consumer(Consumer::new("co".to_string(), vec![ONE, 500_000, 0], 60));
    order.add_dispatchable(Dispatchable::with_horizon("d".to_string(), 1, 40, 1, 3));
    order.add_dispatchable(Dispatchable::with_horizon("e".to_string(), 2, 40, 1, 3));
    calculate(&mut order);
    assert_eq!(order.price_setters, vec![Some(1), Some(0), Some(0)]);
    assert_eq!(order.dispatchables[0].load, vec![40, 30, 0]);
    assert_eq!(order.dispatchables[1].load, vec![20, 0, 0]);
}

use std::collections::HashMap;

use ilp_stream::congestion::{CongestionController, CongestionState};

#[test]
fn doubles_max_amount_on_fulfill() {
    let mut controller = CongestionController::new(1000, 1000, 2);

    let amount = controller.get_max_amount();
    controller.prepare(1, amount);
    controller.fulfill(1);
    assert_eq!(controller.get_max_amount(), 2000);

    let amount = controller.get_max_amount();
    controller.prepare(2, amount);
    controller.fulfill(2);
    assert_eq!(controller.get_max_amount(), 4000);

    let amount = controller.get_max_amount();
    controller.prepare(3, amount);
    controller.fulfill(3);
    assert_eq!(controller.get_max_amount(), 8000);
}

#[test]
fn congestion_doesnt_overflow_u64() {
    let mut controller = CongestionController {
        state: CongestionState::SlowStart,
        increase_amount: 1000,
        decrease_factor: 2,
        max_packet_amount: None,
        amount_in_flight: 0,
        max_in_flight: u64::MAX - 1,
        packets: HashMap::new(),
    };

    let amount = controller.get_max_amount();
    controller.prepare(1, amount);
    controller.fulfill(1);
    assert_eq!(controller.get_max_amount(), u64::MAX);
}

#[test]
fn additive_increase() {
    let mut controller = CongestionController::new(1000, 1000, 2);
    controller.state = CongestionState::AvoidCongestion;
    for i in 1..5u64 {
        controller.prepare(i as u32, i * 1000);
        controller.fulfill(i as u32);
        assert_eq!(controller.get_max_amount(), 1000 + i * 1000);
    }
}

#[test]
fn multiplicative_decrease() {
    let mut controller = CongestionController::new(1000, 1000, 2);
    controller.state = CongestionState::AvoidCongestion;

    let amount = controller.get_max_amount();
    controller.prepare(1, amount);
    controller.reject(1, "T04");
    assert_eq!(controller.get_max_amount(), 500);

    let amount = controller.get_max_amount();
    controller.prepare(2, amount);
    controller.reject(2, "T04");
    assert_eq!(controller.get_max_amount(), 250);
}

#[test]
fn aimd_combined() {
    let mut controller = CongestionController::new(1000, 1000, 2);
    controller.state = CongestionState::AvoidCongestion;

    let amount = controller.get_max_amount();
    controller.prepare(1, amount);
    controller.fulfill(1);
    assert_eq!(controller.get_max_amount(), 2000);

    let amount = controller.get_max_amount();
    controller.prepare(2, amount);
    controller.fulfill(2);
    assert_eq!(controller.get_max_amount(), 3000);

    let amount = controller.get_max_amount();
    controller.prepare(3, amount);
    controller.reject(3, "T04");
    assert_eq!(controller.get_max_amount(), 1500);

    let amount = controller.get_max_amount();
    controller.prepare(4, amount);
    controller.fulfill(4);
    assert_eq!(controller.get_max_amount(), 2500);
}

#[test]
fn max_packet_amount() {
    let mut controller = CongestionController::new(1000, 1000, 2);
    controller.set_max_packet_amount(100);

    assert_eq!(controller.get_max_amount(), 100);

    let amount = controller.get_max_amount();
    controller.prepare(1, amount);
    controller.fulfill(1);
    assert_eq!(controller.get_max_amount(), 100);

    let amount = controller.get_max_amount();
    controller.prepare(2, amount);
    controller.fulfill(2);
    assert_eq!(controller.get_max_amount(), 100);
}

#[test]
fn congestion_avoidance_doesnt_overflow_u64() {
    let mut controller = CongestionController {
        state: CongestionState::AvoidCongestion,
        increase_amount: 1000,
        decrease_factor: 2,
        max_packet_amount: None,
        amount_in_flight: 0,
        max_in_flight: u64::MAX - 1,
        packets: HashMap::new(),
    };

    let amount = controller.get_max_amount();
    controller.prepare(1, amount);
    controller.fulfill(1);
    assert_eq!(controller.get_max_amount(), u64::MAX);
}

#[test]
fn tracking_amount_in_flight() {
    let mut controller = CongestionController::new(1000, 1000, 2);
    controller.set_max_packet_amount(600);
    assert_eq!(controller.get_max_amount(), 600);

    controller.prepare(1, 100);
    assert_eq!(controller.get_max_amount(), 600);

    controller.prepare(2, 600);
    assert_eq!(controller.get_max_amount(), 1000 - 700);
}

#[test]
fn other_rejects_do_not_shrink_the_window() {
    let mut controller = CongestionController::new(1000, 1000, 2);
    controller.prepare(1, 250);
    controller.reject(1, "F99");
    assert_eq!(controller.state, CongestionState::SlowStart);
    assert_eq!(controller.get_max_amount(), 1000);
}

#[test]
fn window_never_drops_below_one() {
    let mut controller = CongestionController::new(1, 1000, 2);
    controller.prepare(1, 1);
    controller.reject(1, "T04");
    assert_eq!(controller.get_max_amount(), 1);
}

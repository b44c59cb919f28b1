use logline::dump_item::{Direction, MessageKind, Timestamp};

#[test]
fn timestamp_from_nanos_keeps_value() {
    assert_eq!(Timestamp::from_nanos(42).as_nanos(), 42);
    assert!(Timestamp::from_nanos(1) < Timestamp::from_nanos(2));
}

#[test]
fn timestamp_from_elapsed_keeps_low_bits() {
    let ns: u128 = (1u128 << 64) + 7;
    assert_eq!(Timestamp::from_elapsed(ns), Timestamp::from_nanos(7));
    assert_eq!(Timestamp::from_elapsed(1_000).as_nanos(), 1_000);
}

#[test]
fn timestamp_now_is_after_epoch() {
    let now = Timestamp::now().expect("clock before the epoch");
    assert!(now.as_nanos() > 0);
}

#[test]
fn dump_enums_compare_by_value() {
    assert_eq!(Direction::In, Direction::In);
    assert_ne!(Direction::In, Direction::Out);
    assert_eq!(MessageKind::Request(3), MessageKind::Request(3));
    assert_ne!(MessageKind::Request(3), MessageKind::Response(3));
    assert_ne!(MessageKind::Regular, MessageKind::Response(0));
}

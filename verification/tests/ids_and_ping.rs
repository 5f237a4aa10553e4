use game_server::counter::Counter;
use game_server::ping::{delay_ms, get_diff, make_ping_payload, parse_ping_payload, ping_payload};

#[test]
fn counter_hands_out_increasing_ids() {
    let mut c = Counter::new();
    assert_eq!(c.next(), Some(1));
    assert_eq!(c.next(), Some(2));
    assert_eq!(c.next(), Some(3));
}

#[test]
fn ping_payload_is_big_endian_seconds_then_millis() {
    let b = ping_payload(1, 2);
    assert_eq!(b, vec![0, 0, 0, 0, 0, 0, 0, 1, 0, 0, 0, 2]);
    let b = ping_payload(-1, 0x0102_0304);
    assert_eq!(b, vec![255, 255, 255, 255, 255, 255, 255, 255, 1, 2, 3, 4]);
    let b = ping_payload(0x0102_0304_0506_0708, 999);
    assert_eq!(b, vec![1, 2, 3, 4, 5, 6, 7, 8, 0, 0, 3, 231]);
}

#[test]
fn ping_payload_round_trip() {
    for &(s, m) in &[(0i64, 0u32), (1_500_000_000, 123), (-42, 1999), (i64::MAX, u32::MAX), (i64::MIN, 7)] {
        let b = ping_payload(s, m);
        assert_eq!(parse_ping_payload(&b), (s, m));
        assert_eq!(delay_ms(s, m, s, m), Some(0));
    }
}

#[test]
fn parse_reads_only_the_first_twelve_bytes() {
    let mut b = ping_payload(77, 5);
    b.push(9);
    b.push(9);
    assert_eq!(parse_ping_payload(&b), (77, 5));
}

#[test]
fn delay_formula() {
    assert_eq!(delay_ms(10, 500, 12, 250), Some(1750));
    assert_eq!(delay_ms(10, 500, 10, 499), Some(-1));
    assert_eq!(delay_ms(0, 0, 3, 1500), Some(4500));
}

#[test]
fn delay_that_does_not_fit_is_none() {
    assert_eq!(delay_ms(i64::MIN, 0, i64::MAX, 0), None);
    assert_eq!(delay_ms(i64::MAX, 0, i64::MIN, 0), None);
    assert_eq!(delay_ms(-9_223_372_036_854_775, 0, 0, 0), Some(9_223_372_036_854_775_000));
    assert_eq!(delay_ms(-9_223_372_036_854_776, 0, 0, 0), None);
}

#[test]
fn fresh_ping_has_small_delay() {
    let b = make_ping_payload();
    assert_eq!(b.len(), 12);
    let (_, milli) = parse_ping_payload(&b);
    assert!(milli < 1000);
    let d = get_diff(&b).unwrap();
    assert!(d >= 0 && d < 60_000, "delay {}", d);
}

#[test]
fn old_ping_has_large_delay() {
    // sent at the Unix epoch
    let b = ping_payload(0, 0);
    let d = get_diff(&b).unwrap();
    assert!(d > 1_500_000_000_000);
}

#[test]
fn ping_from_far_past_overflows() {
    let b = ping_payload(i64::MIN, 0);
    assert_eq!(get_diff(&b), None);
}

#[test]
fn delay_is_there_for_any_time_within_chronos_range() {
    assert!(get_diff(&ping_payload(10_000_000_000_000, 999)).is_some());
    assert!(get_diff(&ping_payload(-10_000_000_000_000, 0)).is_some());
    assert!(get_diff(&ping_payload(i64::MIN, 0)).is_none());
    assert!(get_diff(&ping_payload(i64::MAX, 0)).is_none());
}

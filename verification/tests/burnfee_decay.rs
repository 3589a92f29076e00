use saito::burnfee::{isqrt_u64, BurnFee};

#[test]
fn burnfee_is_zero_from_twice_the_heartbeat_on() {
    let bf = BurnFee::new();
    // heartbeat 10 s, so the window closes at 20_000 ms
    assert_eq!(bf.calculate(20_000), 0);
    assert_eq!(bf.calculate(20_001), 0);
    assert_eq!(bf.calculate(1_000_000), 0);
    assert_eq!(bf.calculate(9_999), 1);
}

#[test]
fn burnfee_at_zero_elapsed_is_fee_times_thousand() {
    let bf = BurnFee::new();
    assert_eq!(bf.calculate(0), 10_000);
}

#[test]
fn burnfee_divides_by_elapsed_milliseconds() {
    let bf = BurnFee::new();
    assert_eq!(bf.calculate(1), 10_000);
    assert_eq!(bf.calculate(1_000), 10);
    assert_eq!(bf.calculate(2_000), 5);
    assert_eq!(bf.calculate(10_000), 1);
}

#[test]
fn previous_burnfee_uses_stored_delta() {
    let mut bf = BurnFee::new();
    bf.last_block_delta = 1_000;
    assert_eq!(bf.return_previous_burnfee(), 10);
}

#[test]
fn timestamp_bookkeeping() {
    let mut bf = BurnFee::new();
    bf.set_timestamp(5_000);
    assert_eq!(bf.last_block_timestamp, 5_000);
    bf.set_last_block_delta(7_500);
    assert_eq!(bf.last_block_delta, 2_500);
}

#[test]
fn adjust_rescales_fee_by_interval() {
    let mut bf = BurnFee::new();
    bf.set_timestamp(0);
    // numerator = isqrt(10 * 10^7) = 10_000; interval 999 gives
    // fee = 10 * 10_000 / 1_000
    bf.adjust(999);
    assert_eq!(bf.fee, 100);
}

#[test]
fn isqrt_matches_known_squares() {
    assert_eq!(isqrt_u64(0), 0);
    assert_eq!(isqrt_u64(1), 1);
    assert_eq!(isqrt_u64(3), 1);
    assert_eq!(isqrt_u64(4), 2);
    assert_eq!(isqrt_u64(15), 3);
    assert_eq!(isqrt_u64(16), 4);
    assert_eq!(isqrt_u64(100_000_000), 10_000);
    assert_eq!(isqrt_u64(u64::MAX), 4_294_967_295);
}

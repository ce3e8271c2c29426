use vstd::prelude::*;

verus! {

/// Microseconds in one second.
pub const MICROS_PER_SEC: u64 = 1000000;

/// The pacing rule: the average rate so far, `8 * bytes / elapsed`, is above
/// the target in bits per second. Before any time has elapsed the rate counts
/// as unbounded, so the sender waits.
pub open spec fn over_budget_spec(bytes_sent: int, elapsed_us: int, target_bps: int) -> bool {
    elapsed_us == 0 || 8 * bytes_sent * 1000000 > target_bps * elapsed_us
}

/// Decides whether the sender must wait one resolution tick before sending.
pub fn over_budget(bytes_sent: u64, elapsed_us: u64, target_bps: u64) -> (r: bool)
    ensures
        r == over_budget_spec(bytes_sent as int, elapsed_us as int, target_bps as int),
{
    if elapsed_us == 0 {
        return true;
    }
    let b = bytes_sent as u128;
    let t = target_bps as u128;
    let e = elapsed_us as u128;
    assert(8 * b * 1000000 <= 8 * 1000000 * u64::MAX) by (nonlinear_arith)
        requires b <= u64::MAX;
    assert(t * e <= u64::MAX * u64::MAX) by (nonlinear_arith)
        requires t <= u64::MAX, e <= u64::MAX;
    let sent_bits: u128 = 8 * b * (MICROS_PER_SEC as u128);
    let allowed: u128 = t * e;
    sent_bits > allowed
}

/// The average rate in bits per second of `bytes` over `elapsed_us`
/// microseconds; zero over an empty interval.
pub open spec fn rate_spec(bytes: int, elapsed_us: int) -> int {
    if elapsed_us <= 0 {
        0
    } else {
        8 * bytes * 1000000 / elapsed_us
    }
}

/// Computes `rate_spec`.
pub fn rate_bps(bytes: u64, elapsed_us: u64) -> (r: u128)
    ensures
        r == rate_spec(bytes as int, elapsed_us as int),
{
    if elapsed_us == 0 {
        0
    } else {
        let b = bytes as u128;
        assert(8 * b * 1000000 <= 8 * 1000000 * u64::MAX) by (nonlinear_arith)
            requires b <= u64::MAX;
        8 * b * (MICROS_PER_SEC as u128) / (elapsed_us as u128)
    }
}

} // verus!

use vstd::prelude::*;

verus! {

/// Relies on rand's `Rng::gen_range` over `thread_rng`: sampling the
/// half-open range `0..n` yields a value below `n` (the range is non-empty
/// because `n >= 1`). Nothing more is assumed of the draw.
#[verifier::external_body]
pub(crate) fn rand_below(n: u64) -> (r: u64)
    requires
        1 <= n,
    ensures
        r < n,
{
    rand::Rng::gen_range(&mut rand::thread_rng(), 0..n)
}

/// Relies on `std::time::SystemTime::now`: the wall clock, read as whole
/// nanoseconds since the Unix epoch, or 0 where the clock lies before it.
/// No property of the value is assumed.
#[verifier::external_body]
pub(crate) fn now_nanos() -> u64 {
    match std::time::SystemTime::now().duration_since(std::time::UNIX_EPOCH) {
        Ok(d) => d.as_nanos() as u64,
        Err(_) => 0,
    }
}

/// Relies on uuid's `Uuid::new_v4`: a freshly generated random identifier,
/// handed out as its 128-bit value. No property of the value is assumed.
#[verifier::external_body]
pub(crate) fn fresh_uuid() -> u128 {
    uuid::Uuid::new_v4().as_u128()
}

/// An approximately standard-normal draw in nanos: the centered sum of
/// twelve uniform draws over one unit (the Irwin-Hall construction), with
/// mean 0 and variance 1. Only the range of the outcome is promised.
pub(crate) fn std_normal_nanos() -> (r: i64)
    ensures
        -6_000_000_000 <= r <= 6_000_000_000,
{
    let mut acc: u64 = 0;
    let mut i: usize = 0;
    while i < 12
        invariant
            acc <= i * 1_000_000_000,
            i <= 12,
        decreases 12 - i,
    {
        acc = acc + rand_below(1_000_000_000);
        i = i + 1;
    }
    (acc as i64) - 6_000_000_000
}

} // verus!

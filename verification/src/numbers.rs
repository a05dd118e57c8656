//! Conversions between integer types that keep the low bits.
use vstd::prelude::*;

verus! {

/// The 64-bit signed integer with the same bits as `n`.
pub open spec fn wrapped_i64(n: int) -> int
    recommends
        0 <= n <= u64::MAX,
{
    if n <= i64::MAX {
        n
    } else {
        n - 0x1_0000_0000_0000_0000
    }
}

/// The quotient of `n` by `d`, rounded towards zero.
pub open spec fn quotient(n: int, d: int) -> int
    recommends
        d > 0,
{
    if n >= 0 {
        n / d
    } else {
        -((-n) / d)
    }
}

/// The 64-bit signed integer with the same bits as `n`.
pub fn wrap_i64(n: u64) -> (w: i64)
    ensures
        w == wrapped_i64(n as int),
{
    let w: i64 = n as i64;
    assert(n <= 0x7fff_ffff_ffff_ffff ==> w == n) by (bit_vector)
        requires
            w == n as i64,
    ;
    assert(n > 0x7fff_ffff_ffff_ffff ==> w == n - 0x1_0000_0000_0000_0000) by (bit_vector)
        requires
            w == n as i64,
    ;
    w
}

/// The whole seconds in `ms` milliseconds, rounded towards zero, as a 32-bit
/// unsigned integer that keeps the low bits.
pub fn seconds_u32(ms: i64) -> (s: u32)
    ensures
        s == quotient(ms as int, 1000) % 0x1_0000_0000,
{
    let q: i64 = ms / 1000;
    let s: u32 = q as u32;
    assert(s == q % 0x1_0000_0000) by (bit_vector)
        requires
            s == q as u32,
    ;
    s
}

} // verus!

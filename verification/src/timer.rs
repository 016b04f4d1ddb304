//! The programmable interval timer: its rate and tick arithmetic.

use vstd::prelude::*;

verus! {

/// Timer interrupts per second.
pub const HZ: u64 = 100;

/// The PIT's input clock, in Hz.
pub const PIT_INPUT_HZ: u64 = 1193182;

/// The divisor that makes the PIT fire `HZ` times a second, kept within
/// the 16-bit counter's range.
pub fn pit_divisor() -> (r: u16)
    ensures
        r == PIT_INPUT_HZ / HZ,
        r == 11931,
{
    let divisor = PIT_INPUT_HZ / HZ;
    let clamped = if divisor < 1 {
        1
    } else if divisor > 0xffff {
        0xffff
    } else {
        divisor
    };
    clamped as u16
}

/// The time `ticks` timer interrupts take, in milliseconds; the product is
/// clamped to `u64::MAX` before the division.
pub fn millis(ticks: u64) -> (r: u64)
    ensures
        r == (if ticks * 1000 > u64::MAX { u64::MAX as int } else { ticks * 1000 }) / HZ as int,
{
    let scaled = match ticks.checked_mul(1000) {
        Some(v) => v,
        None => u64::MAX,
    };
    scaled / HZ
}

/// The tick at which a wait of `count` ticks from `now` ends, clamped to
/// `u64::MAX`.
pub fn wait_target(now: u64, count: u64) -> (r: u64)
    ensures
        r == if now + count > u64::MAX { u64::MAX as int } else { now + count },
{
    match now.checked_add(count) {
        Some(v) => v,
        None => u64::MAX,
    }
}

/// The tick count after one more interrupt, clamped to `u64::MAX`.
pub fn next_tick(ticks: u64) -> (r: u64)
    ensures
        r == if ticks == u64::MAX { u64::MAX as int } else { ticks + 1 },
{
    if ticks == u64::MAX {
        u64::MAX
    } else {
        ticks + 1
    }
}

/// Milliseconds never run backwards as ticks go on.
pub proof fn lemma_millis_monotonic(a: u64, b: u64)
    requires
        a <= b,
    ensures
        (if a * 1000 > u64::MAX { u64::MAX as int } else { a * 1000 }) / HZ as int <= (if b * 1000
            > u64::MAX { u64::MAX as int } else { b * 1000 }) / HZ as int,
{
    let x = if a * 1000 > u64::MAX { u64::MAX as int } else { a * 1000 };
    let y = if b * 1000 > u64::MAX { u64::MAX as int } else { b * 1000 };
    assert(x <= y);
    vstd::arithmetic::div_mod::lemma_div_is_ordered(x, y, HZ as int);
}

} // verus!

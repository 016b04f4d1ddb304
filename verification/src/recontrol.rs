//! The check on the value that the linked Recontrol probe returns.

use vstd::prelude::*;

verus! {

/// What the Recontrol probe must answer.
pub const PROBE_EXPECTED: i32 = 128;

/// The probe answered something else.
#[derive(Clone, Copy, Debug, PartialEq, Eq, Structural)]
pub struct ProbeMismatch {
    pub value: i32,
}

/// Checks the value that the probe returned: `Ok` with it when it is the
/// expected one, else the mismatch.
pub fn verify(value: i32) -> (r: Result<i32, ProbeMismatch>)
    ensures
        value == PROBE_EXPECTED ==> r == Ok::<i32, ProbeMismatch>(value),
        value != PROBE_EXPECTED ==> r == Err::<i32, ProbeMismatch>(ProbeMismatch { value }),
{
    if value == PROBE_EXPECTED {
        Ok(value)
    } else {
        Err(ProbeMismatch { value })
    }
}

} // verus!

//! Timestamps of events.
//!
//! X11 timestamps are milliseconds in 32 bits. They count from the start of the
//! server, so that they agree with the time that clients ask the server for.

use vstd::prelude::*;

verus! {

/// The timestamp `elapsed_ms` milliseconds after the start of the server.
pub open spec fn timestamp(elapsed_ms: int) -> int {
    elapsed_ms % 0x1_0000_0000
}

#[must_use]
pub fn server_time_ms(elapsed_ms: u128) -> (r: u32)
    ensures
        r == timestamp(elapsed_ms as int),
{
    (elapsed_ms % 0x1_0000_0000) as u32
}

/// Timestamps do not go back before they wrap around, after 2^32 milliseconds.
pub proof fn lemma_timestamps_are_monotonic(a: int, b: int)
    requires
        0 <= a <= b,
        a / 0x1_0000_0000 == b / 0x1_0000_0000,
    ensures
        timestamp(a) <= timestamp(b),
        timestamp(b) - timestamp(a) == b - a,
{
}

/// A timestamp has 32 bits and differs from the time by whole turns.
pub proof fn lemma_timestamps_have_32_bits(elapsed_ms: int)
    requires
        0 <= elapsed_ms,
    ensures
        0 <= timestamp(elapsed_ms) < 0x1_0000_0000,
        (elapsed_ms - timestamp(elapsed_ms)) % 0x1_0000_0000 == 0,
        elapsed_ms < 0x1_0000_0000 ==> timestamp(elapsed_ms) == elapsed_ms,
{
    vstd::arithmetic::div_mod::lemma_fundamental_div_mod(elapsed_ms, 0x1_0000_0000);
    let turns = elapsed_ms / 0x1_0000_0000;
    assert(elapsed_ms - timestamp(elapsed_ms) == 0x1_0000_0000 * turns);
    vstd::arithmetic::div_mod::lemma_mod_multiples_basic(turns, 0x1_0000_0000);
}

} // verus!

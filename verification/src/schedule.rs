//! When the next round starts: the interval, shaken by a small
//! pseudo-random factor so that the probes do not tick like a beacon.
use vstd::prelude::*;

verus! {

/// One step of the xorshift generator.
pub open spec fn xorshift_step(s: u64) -> u64 {
    let a = s ^ (s << 13u64);
    let b = a ^ (a >> 7u64);
    b ^ (b << 17u64)
}

pub fn next_state(state: u64) -> (r: u64)
    ensures
        r == xorshift_step(state),
{
    let mut s = state;
    s = s ^ (s << 13u64);
    s = s ^ (s >> 7u64);
    s = s ^ (s << 17u64);
    s
}

/// The generator's state: kept once it is set, else seeded from a clock
/// reading made odd.
pub open spec fn seeded(state: u64, clock: u64) -> u64 {
    if state == 0 {
        clock | 1
    } else {
        state
    }
}

pub fn seed(state: u64, clock: u64) -> (r: u64)
    ensures
        r == seeded(state, clock),
        r != 0,
{
    if state == 0 {
        let r = clock | 1;
        assert(r != 0) by (bit_vector)
            requires
                r == clock | 1,
        ;
        r
    } else {
        state
    }
}

/// 2 to the 53rd: the generator's draw is its state's top 53 bits over
/// this.
pub const DRAW_SCALE: u128 = 0x20_0000_0000_0000;

/// The wait before the next round, in milliseconds: the interval times a
/// factor from 0.8 up to (not including) 1.2, drawn from the state.
pub open spec fn jittered(interval_ms: u64, state: u64) -> int {
    (interval_ms as int * (800 * DRAW_SCALE + 400 * (state >> 11u64) as int)) / (1000 * DRAW_SCALE)
}

pub fn jittered_wait(interval_ms: u64, state: u64) -> (r: u64)
    requires
        interval_ms <= u64::MAX / 2,
    ensures
        r as int == jittered(interval_ms, state),
{
    let draw = (state >> 11u64) as u128;
    assert(draw < DRAW_SCALE) by (bit_vector)
        requires
            draw == (state >> 11u64) as u128,
    ;
    let factor: u128 = 800 * DRAW_SCALE + 400 * draw;
    assert(factor < 1200 * DRAW_SCALE);
    assert(interval_ms as int * factor <= 0xFFFF_FFFF_FFFF_FFFF * (1200 * DRAW_SCALE)) by (nonlinear_arith)
        requires
            factor < 1200 * DRAW_SCALE,
            interval_ms <= 0xFFFF_FFFF_FFFF_FFFFu64,
    ;
    let product: u128 = interval_ms as u128 * factor;
    let r = product / (1000 * DRAW_SCALE);
    assert(r <= interval_ms as int * 2) by (nonlinear_arith)
        requires
            r == (interval_ms as int * factor) / (1000 * DRAW_SCALE),
            factor < 1200 * DRAW_SCALE,
            DRAW_SCALE > 0,
    ;
    assert(r <= 0xFFFF_FFFF_FFFF_FFFF) by (nonlinear_arith)
        requires
            r == (interval_ms as int * factor) / (1000 * DRAW_SCALE),
            factor < 1200 * DRAW_SCALE,
            interval_ms <= 0x7FFF_FFFF_FFFF_FFFFu64,
            DRAW_SCALE > 0,
    ;
    r as u64
}

} // verus!

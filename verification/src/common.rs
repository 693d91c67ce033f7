//! Basic types shared by all modules.

use vstd::prelude::*;

verus! {

/// One audio sample, the most significant bits first for formats shorter than 32 bits.
pub type Sample = i32;

pub type USample = u32;

/// Audio clock (number of samples since arbitrary epoch)
pub type Clock = u64;

/// Signed version of the clock. For clock deltas.
pub type ClockDiff = i64;

/// The number of values of a 64-bit clock.
pub open spec fn clock_modulus() -> int {
    0x1_0000_0000_0000_0000
}

/// The representative of `d` modulo `modulus` which lies nearest to zero
/// (`-modulus / 2` for the two equally near ones).
pub open spec fn signed_residue(d: int, modulus: int) -> int {
    let r = d % modulus;
    if r >= modulus / 2 {
        r - modulus
    } else {
        r
    }
}

/// How far the clock `a` is ahead of the clock `b` (negative: behind it).
pub open spec fn clock_diff(a: Clock, b: Clock) -> int {
    signed_residue(a - b, clock_modulus())
}

/// Subtract clocks and return the result as a signed number.
/// Hint: wrapped `a > b` is equivalent to `wrapped_diff(a, b) > 0`
pub fn wrapped_diff(a: Clock, b: Clock) -> (diff: ClockDiff)
    ensures
        diff == clock_diff(a, b),
{
    proof {
        lemma_clock_as_signed(a);
        lemma_clock_as_signed(b);
    }
    (a as ClockDiff).wrapping_sub(b as ClockDiff)
}

/// Within one turn either way, at most one turn has to be added or subtracted.
pub proof fn lemma_signed_residue_within_turn(d: int, modulus: int)
    requires
        modulus > 0,
        modulus % 2 == 0,
        -modulus <= d < modulus,
    ensures
        signed_residue(d, modulus) == if d >= modulus / 2 {
            d - modulus
        } else if d >= -(modulus / 2) {
            d
        } else {
            d + modulus
        },
{
    if d >= 0 {
        vstd::arithmetic::div_mod::lemma_small_mod(d as nat, modulus as nat);
    } else {
        vstd::arithmetic::div_mod::lemma_mod_add_multiples_vanish(d, modulus);
        vstd::arithmetic::div_mod::lemma_small_mod((d + modulus) as nat, modulus as nat);
    }
}

/// The position in a ring buffer which belongs to a clock.
pub open spec fn clock_position(ts: Clock) -> usize {
    (ts as int % (usize::MAX + 1)) as usize
}

pub fn position_of_clock(ts: Clock) -> (position: usize)
    ensures
        position == clock_position(ts),
{
    if usize::MAX as u64 == u64::MAX {
        proof {
            vstd::arithmetic::div_mod::lemma_small_mod(ts as nat, (usize::MAX + 1) as nat);
        }
        ts as usize
    } else {
        assert(usize::MAX == 0xffff_ffff) by {
            vstd::layout::unsigned_int_max_values();
        }
        (ts % 0x1_0000_0000) as usize
    }
}

proof fn lemma_clock_as_signed(a: u64)
    ensures
        a as i64 == if a <= i64::MAX { a as int } else { a - clock_modulus() },
{
    assert(a <= 0x7fff_ffff_ffff_ffff ==> (a as i64) == a) by (bit_vector);
    assert(a > 0x7fff_ffff_ffff_ffff ==> (a as i64) == a - 0x1_0000_0000_0000_0000) by (bit_vector);
}

/// A clock which lies `k` ticks ahead of another one, `k` being less than half of the clock range,
/// is `k` ticks ahead also after both have wrapped around.
pub proof fn wrapped_diff_of_advanced_clock(a: Clock, k: int)
    requires
        -clock_modulus() / 2 <= k < clock_modulus() / 2,
    ensures
        signed_residue((a + k) % clock_modulus() - a, clock_modulus()) == k,
{
    vstd::arithmetic::div_mod::lemma_sub_mod_noop(a + k, a as int, clock_modulus());
    vstd::arithmetic::div_mod::lemma_sub_mod_noop((a + k) % clock_modulus(), a as int, clock_modulus());
    vstd::arithmetic::div_mod::lemma_mod_twice(a + k, clock_modulus());
}

/// A clock is ahead of another one by what has to be added to the other one to get it, going round
/// where the clock wraps, and by the shorter way.
pub proof fn difference_leads_from_one_clock_to_the_other(a: Clock, b: Clock)
    ensures
        -0x8000_0000_0000_0000 <= clock_diff(a, b) < 0x8000_0000_0000_0000,
        a == b + clock_diff(a, b) || a == b + clock_diff(a, b) + 0x1_0000_0000_0000_0000 || a == b + clock_diff(
            a,
            b,
        ) - 0x1_0000_0000_0000_0000,
{
    lemma_signed_residue_within_turn(a - b, clock_modulus());
}

/// The position in a ring buffer is the clock itself, as far as positions can hold it.
pub proof fn positions_are_clocks(ts: Clock)
    ensures
        ts <= usize::MAX ==> clock_position(ts) == ts,
        exists|turns: int| 0 <= turns && ts == clock_position(ts) + #[trigger] (turns * (usize::MAX + 1)),
{
    let m = usize::MAX + 1;
    vstd::arithmetic::div_mod::lemma_fundamental_div_mod(ts as int, m);
    vstd::arithmetic::div_mod::lemma_div_pos_is_pos(ts as int, m);
    let turns = ts as int / m;
    assert(turns * m == m * turns) by (nonlinear_arith);
    assert(ts == clock_position(ts) + turns * (usize::MAX + 1));
    if ts <= usize::MAX {
        vstd::arithmetic::div_mod::lemma_small_mod(ts as nat, m as nat);
    }
}

} // verus!

//! What holds of a ring buffer across several operations.

use crate::common::lemma_signed_residue_within_turn;
use crate::ring_buffer::{
    intact_items, lemma_position_after, lemma_pow2_divides, lemma_ring_count_of_items, position_after,
    position_diff, position_modulus, put_flag, put_items, readable_items, ready_run, ring_count, ring_offset,
    ring_offset_inverts_slot_at, ring_shape, slot_at, RingItem, RingState,
};
use vstd::arithmetic::power2::is_pow2;
use vstd::prelude::*;

verus! {

/// The `n` items from position `start` on, as a reader copies them.
pub open spec fn copied<T: RingItem>(st: RingState<T>, start: usize, n: int) -> Seq<T> {
    Seq::new(n as nat, |k: int| st.slots[slot_at(st.size(), start, k)])
}

/// Walking round the ring from the slot of a position, one comes to the slots of the positions
/// that follow it, also where positions wrap around.
pub proof fn slots_follow_positions(size: int, start: usize, k: int)
    requires
        is_pow2(size),
        0 <= k < size <= usize::MAX,
    ensures
        position_after(start, k) as int % size == slot_at(size, start, k),
{
    lemma_position_after(start, k);
    lemma_pow2_divides(size);
    let m = position_modulus();
    let p = position_after(start, k) as int;
    assert(p == start + k || p == start + k - m);
    if p == start + k - m {
        vstd::arithmetic::div_mod::lemma_sub_mod_noop(start + k, m, size);
        vstd::arithmetic::div_mod::lemma_sub_mod_noop(start + k, 0, size);
        vstd::arithmetic::div_mod::lemma_small_mod(0, size as nat);
    }
    vstd::arithmetic::div_mod::lemma_add_mod_noop(start as int, k, size);
    vstd::arithmetic::div_mod::lemma_small_mod(k as nat, size as nat);
    let s = start as int % size + k;
    vstd::arithmetic::div_mod::lemma_mod_bound(start as int, size);
    if s >= size {
        vstd::arithmetic::div_mod::lemma_mod_sub_multiples_vanish(s, size);
        vstd::arithmetic::div_mod::lemma_small_mod((s - size) as nat, size as nat);
    } else {
        vstd::arithmetic::div_mod::lemma_small_mod(s as nat, size as nat);
    }
}

/// Closing and advancing leave every ready item as it is and keep it ready.
pub proof fn closing_keeps_ready_items<T: RingItem>(st: RingState<T>, close: usize, check: usize, slot: int)
    requires
        ring_shape(st),
        0 <= slot < st.slots.len(),
        st.ready[slot],
    ensures
        st.closed_until(close).advanced_until(check).slots[slot] == st.slots[slot],
        st.closed_until(close).advanced_until(check).ready[slot],
{
}

/// What was written is read back: a reader who copies from the position of the last write on gets
/// the items written, as many of them as it copies, whatever holes there are and whatever was
/// closed because of them.
pub proof fn written_items_are_read_back<T: RingItem>(
    st: RingState<T>,
    start: usize,
    items: Seq<T>,
    wait: usize,
    n: int,
)
    requires
        ring_shape(st),
        st.available,
        items.len() < st.slots.len(),
        0 <= n <= items.len(),
    ensures
        copied(st.written(start, items, wait), start, n) == items.take(n),
{
    let stored = st.stored(start, items);
    let w = st.written(start, items, wait);
    assert forall|k: int| 0 <= k < n implies copied(w, start, n)[k] == items.take(n)[k] by {
        ring_offset_inverts_slot_at(st.size(), start, k);
        let slot = slot_at(st.size(), start, k);
        assert(stored.slots[slot] == items[k] && stored.ready[slot]);
        closing_keeps_ready_items(stored, stored.writing.wrapping_sub(wait), stored.writing, slot);
    }
}

/// Writing leaves all other ready items as they are: those outside of the written range and of
/// the gap before it.
pub proof fn writing_keeps_other_items<T: RingItem>(
    st: RingState<T>,
    start: usize,
    items: Seq<T>,
    wait: usize,
    slot: int,
)
    requires
        ring_shape(st),
        items.len() < st.slots.len(),
        0 <= slot < st.slots.len(),
        st.ready[slot],
        ring_offset(st.size(), start, slot) >= items.len(),
        position_diff(start, st.writing) > 0 ==> ring_offset(st.size(), st.writing, slot) >= ring_count(
            st.size(),
            st.writing,
            start,
        ),
    ensures
        st.written(start, items, wait).slots[slot] == st.slots[slot],
        st.written(start, items, wait).ready[slot],
{
    let stored = st.stored(start, items);
    assert(stored.slots[slot] == st.slots[slot] && stored.ready[slot]);
    closing_keeps_ready_items(stored, stored.writing.wrapping_sub(wait), stored.writing, slot);
}

/// Items written one after another without a hole are all readable at once, and a reader who asks
/// for them gets all of them, none of them marked as overwritten.
pub proof fn in_order_write_is_readable<T: RingItem>(
    st: RingState<T>,
    items: Seq<T>,
    wait: usize,
)
    requires
        ring_shape(st),
        st.available,
        st.readable == st.writing,
        items.len() < st.slots.len(),
        st.slots.len() <= position_modulus() / 2,
    ensures
        ({
            let start = st.writing;
            let w = st.written(start, items, wait);
            &&& w.writing == position_after(start, items.len() as int)
            &&& w.readable == w.writing
            &&& w.holes == st.holes
            &&& readable_items(st.size(), w.readable, start, items.len() as int) == Some(items.len() as int)
            &&& intact_items(st.size(), w.writing, start, items.len() as int) == (0int, items.len() as int)
            &&& copied(w, start, items.len() as int) == items
        }),
{
    let start = st.writing;
    let n = items.len() as int;
    lemma_position_after(start, n);
    lemma_diff_of_position_after(start, n);
    lemma_diff_of_position_after(start, 0);
    written_items_are_read_back(st, start, items, wait, n);
    assert(items.take(n) =~= items);
    assert(position_after(start, 0) == start) by {
        lemma_position_after(start, 0);
    }
}

pub(crate) proof fn lemma_modulus_is_even()
    ensures
        position_modulus() % 2 == 0,
        position_modulus() > 2,
{
}

/// A position `k` items after another one is `k` items ahead of it.
pub proof fn lemma_diff_of_position_after(a: usize, k: int)
    requires
        0 <= k < position_modulus() / 2,
    ensures
        position_diff(position_after(a, k), a) == k,
{
    lemma_modulus_is_even();
    lemma_position_after(a, k);
    lemma_signed_residue_within_turn(position_after(a, k) - a, position_modulus());
}

/// Distances between positions can be subtracted as long as they stay below half of the range.
proof fn lemma_diff_chain(a: usize, b: usize, c: usize)
    requires
        -(position_modulus() / 2) <= position_diff(a, c) - position_diff(b, c) < position_modulus() / 2,
    ensures
        position_diff(a, b) == position_diff(a, c) - position_diff(b, c),
{
    lemma_modulus_is_even();
    lemma_signed_residue_within_turn(a - c, position_modulus());
    lemma_signed_residue_within_turn(b - c, position_modulus());
    lemma_signed_residue_within_turn(a - b, position_modulus());
}

proof fn lemma_ready_run_bounds(ready: Seq<bool>, start: usize, k: int, count: int)
    requires
        0 <= k <= count,
    ensures
        k <= ready_run(ready, start, k, count) <= count,
    decreases count - k,
{
    if k < count && ready[slot_at(ready.len() as int, start, k)] {
        lemma_ready_run_bounds(ready, start, k + 1, count);
    }
}

/// Between two positions no more slots are visited than positions lie between them.
proof fn lemma_ring_count_at_most_diff(size: int, a: usize, b: usize)
    requires
        is_pow2(size),
        0 < size <= usize::MAX,
        position_diff(b, a) > 0,
    ensures
        0 <= ring_count(size, a, b) <= position_diff(b, a),
{
    lemma_modulus_is_even();
    lemma_signed_residue_within_turn(b - a, position_modulus());
    let n = position_diff(b, a);
    lemma_position_after(a, n);
    assert(position_after(a, n) == b);
    lemma_ring_count_of_items(size, a, n);
}

/// Whether the readable position lies `lag` items behind the writing position.
pub open spec fn lags_by<T: RingItem>(st: RingState<T>, lag: int) -> bool {
    0 <= lag < position_modulus() / 2 && position_diff(st.writing, st.readable) == lag
}

/// Closing and advancing up to the writing position or less moves the readable position forward
/// only, and never past the writing position.
pub proof fn closing_moves_readable_forward<T: RingItem>(
    st: RingState<T>,
    lag: int,
    close: usize,
    check: usize,
)
    requires
        ring_shape(st),
        lags_by(st, lag),
        position_diff(close, st.readable) <= lag,
        0 <= position_diff(check, st.readable) <= lag || check == close,
    ensures
        ({
            let c = st.closed_until(close).advanced_until(check);
            &&& c.writing == st.writing
            &&& 0 <= position_diff(c.readable, st.readable) <= lag
            &&& lags_by(c, lag - position_diff(c.readable, st.readable))
        }),
{
    lemma_modulus_is_even();
    let half = position_modulus() / 2;
    let st1 = st.closed_until(close);
    let d1 = if position_diff(close, st.readable) > 0 {
        position_diff(close, st.readable)
    } else {
        0
    };
    lemma_signed_residue_within_turn(st.readable - st.readable, position_modulus());
    lemma_signed_residue_within_turn(close - close, position_modulus());
    assert(position_diff(st1.readable, st.readable) == d1);
    lemma_diff_chain(st.writing, st1.readable, st.readable);
    assert(position_diff(st.writing, st1.readable) == lag - d1);
    let st2 = st1.advanced_until(check);
    if position_diff(check, st1.readable) > 0 {
        let count = ring_count(st.size(), st1.readable, check);
        lemma_ring_count_at_most_diff(st.size(), st1.readable, check);
        lemma_ready_run_bounds(st1.ready, st1.readable, 0, count);
        let run = ready_run(st1.ready, st1.readable, 0, count);
        // `check` is not past the writing position
        lemma_signed_residue_within_turn(check - st.readable, position_modulus());
        lemma_signed_residue_within_turn(st1.readable - st.readable, position_modulus());
        lemma_signed_residue_within_turn(check - st1.readable, position_modulus());
        assert(position_diff(check, st1.readable) <= lag - d1);
        lemma_diff_of_position_after(st1.readable, run);
        lemma_position_after(st1.readable, run);
        lemma_signed_residue_within_turn(st2.readable - st.readable, position_modulus());
        assert(position_diff(st2.readable, st.readable) == d1 + run);
        lemma_diff_chain(st.writing, st2.readable, st.readable);
    }
}

/// What follows the end of a write or of a closing: missing items are given up which lie `wait` or
/// more behind the writing position, and what is ready after them becomes readable.
proof fn lemma_giving_up<T: RingItem>(st: RingState<T>, wait: usize)
    requires
        ring_shape(st),
        wait <= isize::MAX,
    ensures
        ({
            let c = st.closed_until(st.writing.wrapping_sub(wait)).advanced_until(st.writing);
            let ahead = position_diff(st.writing, st.readable);
            &&& c.writing == st.writing
            &&& 0 <= ahead ==> 0 <= position_diff(c.readable, st.readable) <= ahead
            &&& -(position_modulus() / 2) <= position_diff(st.writing.wrapping_sub(wait), st.readable)
            &&& position_diff(st.writing.wrapping_sub(wait), st.readable) > 0 || 0 <= ahead <= wait
                ==> 0 <= position_diff(c.writing, c.readable) <= wait
        }),
{
    lemma_modulus_is_even();
    let m = position_modulus();
    let close = st.writing.wrapping_sub(wait);
    let st1 = st.closed_until(close);
    let st2 = st1.advanced_until(st.writing);
    lemma_signed_residue_within_turn(st.writing - st.readable, m);
    lemma_signed_residue_within_turn(close - st.readable, m);
    lemma_signed_residue_within_turn(st.writing - close, m);
    lemma_signed_residue_within_turn(st.writing - st1.readable, m);
    lemma_signed_residue_within_turn(st.readable - st.readable, m);
    let left = position_diff(st.writing, st1.readable);
    if left > 0 {
        let count = ring_count(st.size(), st1.readable, st.writing);
        lemma_ring_count_at_most_diff(st.size(), st1.readable, st.writing);
        lemma_ready_run_bounds(st1.ready, st1.readable, 0, count);
        let run = ready_run(st1.ready, st1.readable, 0, count);
        lemma_position_after(st1.readable, run);
        lemma_signed_residue_within_turn(st2.readable - st.readable, m);
        lemma_signed_residue_within_turn(st.writing - st2.readable, m);
    }
}

/// However out of order items are written, the writing position never moves back, and it stays
/// ahead of the readable position by no more than the wait. The readable position never moves back
/// either, as long as the writing position does not get half of the range of positions ahead of it
/// at once.
pub proof fn writing_moves_positions_forward<T: RingItem>(
    st: RingState<T>,
    start: usize,
    items: Seq<T>,
    wait: usize,
)
    requires
        ring_shape(st),
        items.len() < st.slots.len(),
    ensures
        ({
            let w = st.written(start, items, wait);
            let ahead = position_diff(w.writing, st.readable);
            &&& st.in_order(wait) ==> w.in_order(wait)
            &&& 0 <= position_diff(w.writing, st.writing)
            &&& wait <= isize::MAX && 0 <= ahead ==> 0 <= position_diff(w.readable, st.readable) <= ahead
        }),
{
    lemma_modulus_is_even();
    let m = position_modulus();
    let stored = st.stored(start, items);
    let end = position_after(start, items.len() as int);
    lemma_signed_residue_within_turn(st.writing - st.readable, m);
    lemma_signed_residue_within_turn(st.writing - st.writing, m);
    lemma_signed_residue_within_turn(end - st.writing, m);
    lemma_signed_residue_within_turn(stored.writing - st.readable, m);
    lemma_signed_residue_within_turn(stored.writing - stored.writing, m);
    if wait <= isize::MAX {
        lemma_giving_up(stored, wait);
        lemma_signed_residue_within_turn(stored.writing.wrapping_sub(wait) - st.readable, m);
    }
}

/// Whatever position is demanded to be readable, neither the writing position nor, as long as the
/// former does not get half of the range of positions ahead of it at once, the readable position
/// moves back.
pub proof fn closing_moves_positions_forward<T: RingItem>(st: RingState<T>, until: usize, wait: usize)
    requires
        ring_shape(st),
    ensures
        ({
            let c = st.closed_items_until(until);
            &&& st.in_order(wait) ==> c.in_order(wait)
            &&& 0 <= position_diff(c.writing, st.writing)
            &&& 0 <= position_diff(c.writing, st.readable) ==> 0 <= position_diff(c.readable, st.readable)
        }),
{
    lemma_modulus_is_even();
    let m = position_modulus();
    lemma_signed_residue_within_turn(until - until, m);
    lemma_signed_residue_within_turn(st.readable - st.readable, m);
    lemma_signed_residue_within_turn(st.writing - st.writing, m);
    lemma_signed_residue_within_turn(until - st.writing, m);
    lemma_signed_residue_within_turn(until - st.readable, m);
    lemma_signed_residue_within_turn(st.writing - until, m);
    lemma_signed_residue_within_turn(st.writing - st.readable, m);
}

/// After everything before a position was demanded to be readable, it is; nothing that was
/// readable before ceases to be.
pub proof fn closing_reaches_position<T: RingItem>(st: RingState<T>, lag: int, until: usize)
    requires
        ring_shape(st),
        lags_by(st, lag),
    ensures
        ({
            let c = st.closed_items_until(until);
            if position_diff(until, st.writing) > 0 {
                c.readable == until && c.writing == until
            } else if position_diff(until, st.readable) > 0 && position_diff(until, st.readable) <= lag {
                c.readable == until && c.writing == st.writing
            } else {
                position_diff(until, st.readable) <= 0 ==> c == st
            }
        }),
{
    lemma_modulus_is_even();
    lemma_signed_residue_within_turn(until - until, position_modulus());
    lemma_signed_residue_within_turn(st.writing - st.writing, position_modulus());
}

/// Demanding the same position once more changes nothing.
pub proof fn closing_is_idempotent<T: RingItem>(st: RingState<T>, lag: int, until: usize)
    requires
        ring_shape(st),
        lags_by(st, lag),
    ensures
        st.closed_items_until(until).closed_items_until(until) == st.closed_items_until(until),
{
    lemma_modulus_is_even();
    lemma_signed_residue_within_turn(until - until, position_modulus());
    let c = st.closed_items_until(until);
    if position_diff(until, st.writing) > 0 {
        assert(c.readable == until && c.writing == until);
    } else {
        let c1 = st.closed_until(until);
        if position_diff(until, st.readable) > 0 {
            assert(c1.readable == until);
        }
        assert(c == c1);
        assert(c.writing == st.writing);
    }
}

/// Items which nobody has written yet read as default items once they are demanded.
pub proof fn closing_future_items_reads_defaults<T: RingItem>(st: RingState<T>, until: usize, n: int)
    requires
        ring_shape(st),
        st.available,
        position_diff(until, st.writing) > 0,
        0 <= n <= position_diff(until, st.writing),
        position_diff(until, st.writing) <= st.slots.len(),
    ensures
        copied(st.closed_items_until(until), st.writing, n) == Seq::new(n as nat, |k: int| T::spec_default()),
{
    lemma_modulus_is_even();
    let c = st.closed_items_until(until);
    let d = position_diff(until, st.writing);
    lemma_signed_residue_within_turn(until - st.writing, position_modulus());
    lemma_position_after(st.writing, d);
    assert(position_after(st.writing, d) == until);
    lemma_ring_count_of_items(st.size(), st.writing, d);
    assert forall|k: int| 0 <= k < n implies copied(c, st.writing, n)[k] == T::spec_default() by {
        ring_offset_inverts_slot_at(st.size(), st.writing, k);
    }
}

/// Of the items which a reader has copied, those are reported as useful, and only those, whose
/// slots have not been taken by later items up to the writing position.
pub proof fn useful_items_are_not_overwritten(size: int, writing: usize, start: usize, n: int, k: int)
    requires
        0 < size,
        0 <= k < n,
    ensures
        ({
            let useful = intact_items(size, writing, start, n);
            useful.0 <= k < useful.1 <==> position_diff(writing, start) <= k + size
        }),
{
}

/// The slot of a position that lies `p` items after `start` is visited `p` slots after the slot of
/// `start`.
pub(crate) proof fn lemma_offset_from(size: int, start: usize, p: int, n: int, slot: int)
    requires
        is_pow2(size),
        0 < size <= usize::MAX,
        0 <= p,
        0 <= n,
        p + n <= size,
        0 <= slot < size,
    ensures
        ring_offset(size, position_after(start, p), slot) < n <==> p <= ring_offset(size, start, slot) < p + n,
        p <= ring_offset(size, start, slot) ==> ring_offset(size, position_after(start, p), slot)
            == ring_offset(size, start, slot) - p,
{
    vstd::arithmetic::div_mod::lemma_mod_bound(start as int, size);
    if p < size {
        slots_follow_positions(size, start, p);
    } else {
        slots_follow_positions(size, start, size - 1);
        lemma_position_after(start, p);
        lemma_position_after(start, size - 1);
        lemma_position_after(position_after(start, size - 1), 1);
        if size > 1 {
            slots_follow_positions(size, position_after(start, size - 1), 1);
        }
    }
}

/// A run of ready slots which starts `p` slots later is the rest of the run.
proof fn lemma_run_from(ready: Seq<bool>, start: usize, p: int, k: int, count: int)
    requires
        is_pow2(ready.len() as int),
        0 < ready.len() <= usize::MAX,
        0 <= p,
        0 <= k,
        p + count <= ready.len(),
    ensures
        ready_run(ready, position_after(start, p), k, count) + p == ready_run(ready, start, p + k, p + count),
    decreases count - k,
{
    let size = ready.len() as int;
    if k < count {
        let slot = slot_at(size, start, p + k);
        ring_offset_inverts_slot_at(size, start, p + k);
        vstd::arithmetic::div_mod::lemma_mod_bound(start as int, size);
        let from = position_after(start, p);
        vstd::arithmetic::div_mod::lemma_mod_bound(from as int, size);
        slots_follow_positions(size, start, p);
        assert(slot_at(size, from, k) == slot);
        lemma_run_from(ready, start, p, k + 1, count);
    }
}

/// A run goes at least as far as slots are known to be ready.
proof fn lemma_run_passes(ready: Seq<bool>, start: usize, k: int, upto: int, count: int)
    requires
        0 <= k <= upto <= count,
        forall|j: int| k <= j < upto ==> ready[#[trigger] slot_at(ready.len() as int, start, j)],
    ensures
        ready_run(ready, start, k, count) == ready_run(ready, start, upto, count),
    decreases upto - k,
{
    if k < upto {
        assert(ready[slot_at(ready.len() as int, start, k)]);
        lemma_run_passes(ready, start, k + 1, upto, count);
    }
}

/// All slots of a run are ready.
proof fn lemma_run_is_ready(ready: Seq<bool>, start: usize, k: int, count: int, j: int)
    requires
        k <= j < ready_run(ready, start, k, count),
    ensures
        ready[slot_at(ready.len() as int, start, j)],
    decreases count - k,
{
    if k < count && ready[slot_at(ready.len() as int, start, k)] && j > k {
        lemma_run_is_ready(ready, start, k + 1, count, j);
    }
}

/// A run does not pass a slot which is not ready.
proof fn lemma_run_stops(ready: Seq<bool>, start: usize, k: int, count: int, stop: int)
    requires
        k <= stop < count,
        !ready[slot_at(ready.len() as int, start, stop)],
    ensures
        ready_run(ready, start, k, count) <= stop,
    decreases stop - k,
{
    if k < stop && ready[slot_at(ready.len() as int, start, k)] {
        lemma_run_stops(ready, start, k + 1, count, stop);
    }
}

proof fn lemma_after_after(r: usize, a: int, k: int)
    requires
        0 <= a,
        0 <= k,
        a + k <= usize::MAX,
    ensures
        position_after(position_after(r, a), k) == position_after(r, a + k),
        position_after(r, 0) == r,
{
    lemma_position_after(r, a);
    lemma_position_after(r, a + k);
    lemma_position_after(position_after(r, a), k);
    lemma_position_after(r, 0);
}

proof fn lemma_diff_of_afters(r: usize, a: int, b: int)
    requires
        0 <= a < position_modulus() / 2,
        0 <= b < position_modulus() / 2,
    ensures
        position_diff(position_after(r, a), position_after(r, b)) == a - b,
        position_diff(position_after(r, a), r) == a,
{
    lemma_modulus_is_even();
    lemma_position_after(r, a);
    lemma_position_after(r, b);
    lemma_diff_of_position_after(r, a);
    lemma_signed_residue_within_turn(position_after(r, a) - position_after(r, b), position_modulus());
}

pub(crate) proof fn lemma_position_at_diff(a: usize, r: usize)
    requires
        0 <= position_diff(a, r),
    ensures
        a == position_after(r, position_diff(a, r)),
{
    lemma_modulus_is_even();
    lemma_signed_residue_within_turn(a - r, position_modulus());
    lemma_position_after(r, position_diff(a, r));
}

proof fn lemma_nothing_given_up(r: usize, ahead: int, wait: usize)
    requires
        0 <= ahead <= wait <= isize::MAX,
    ensures
        position_diff(position_after(r, ahead).wrapping_sub(wait), r) <= 0,
{
    lemma_modulus_is_even();
    lemma_position_after(r, ahead);
    lemma_signed_residue_within_turn(position_after(r, ahead).wrapping_sub(wait) - r, position_modulus());
}

/// As long as nothing is given up, items become readable up to the first missing one.
proof fn lemma_written_within_wait<T: RingItem>(
    st: RingState<T>,
    lag: int,
    p: int,
    items: Seq<T>,
    wait: usize,
)
    requires
        ring_shape(st),
        st.available,
        st.slots.len() <= position_modulus() / 2,
        position_diff(st.writing, st.readable) == lag,
        0 <= lag <= st.slots.len(),
        0 <= p,
        p + items.len() <= st.slots.len(),
        items.len() < st.slots.len(),
        lag <= wait <= isize::MAX,
        p + items.len() <= wait,
    ensures
        ({
            let start = position_after(st.readable, p);
            let ahead = if p + items.len() > lag {
                p + items.len()
            } else {
                lag
            };
            let stored = st.stored(start, items);
            &&& stored.writing == position_after(st.readable, ahead)
            &&& position_diff(stored.writing, st.readable) == ahead
            &&& st.written(start, items, wait) == (RingState {
                readable: position_after(st.readable, ready_run(stored.ready, st.readable, 0, ahead)),
                ..stored
            })
        }),
{
    let n = items.len() as int;
    let r = st.readable;
    let start = position_after(r, p);
    let end = position_after(start, n);
    let ahead = if p + n > lag {
        p + n
    } else {
        lag
    };
    let stored = st.stored(start, items);
    lemma_position_at_diff(st.writing, r);
    lemma_after_after(r, p, n);
    lemma_diff_of_afters(r, p, lag);
    lemma_diff_of_afters(r, p + n, lag);
    lemma_after_after(r, 0, 0);
    lemma_diff_of_afters(r, ahead, 0);
    assert(stored.writing == position_after(r, ahead));
    let close = stored.writing.wrapping_sub(wait);
    lemma_nothing_given_up(r, ahead, wait);
    assert(stored.closed_until(close) == stored);
    lemma_ring_count_of_items(st.size(), r, ahead);
    let w = st.written(start, items, wait);
    let hole = position_diff(start, st.writing) > 0 || r != st.writing;
    if hole {
        assert(w == stored.advanced_until(stored.writing));
        assert(position_diff(stored.writing, r) == ahead);
        if ahead > 0 {
            assert(w.readable == position_after(r, ready_run(stored.ready, r, 0, ahead)));
        } else {
            assert(w == stored);
        }
    } else {
        assert(lag == 0 && p == 0) by {
            lemma_after_after(r, 0, 0);
        }
        assert forall|j: int| 0 <= j < ahead implies stored.ready[#[trigger] slot_at(st.size(), r, j)] by {
            ring_offset_inverts_slot_at(st.size(), r, j);
        }
        lemma_run_passes(stored.ready, r, 0, ahead, ahead);
    }
}

/// The same, where something was written before which became readable for the first `run` items,
/// and no gap is left; `q` and `ahead` count from the position which was readable before that.
proof fn lemma_second_write<T: RingItem>(
    before: RingState<T>,
    run: int,
    ahead: int,
    q: int,
    items: Seq<T>,
    wait: usize,
)
    requires
        ring_shape(before),
        before.available,
        before.slots.len() <= position_modulus() / 2,
        before.writing == position_after(before.readable, ahead),
        run == ready_run(before.ready, before.readable, 0, ahead),
        0 <= run <= q <= ahead <= before.slots.len(),
        q + items.len() <= before.slots.len(),
        items.len() < before.slots.len(),
        ahead <= wait <= isize::MAX,
        q + items.len() <= wait,
    ensures
        ({
            let r = before.readable;
            let start = position_after(r, q);
            let far = if q + items.len() > ahead {
                q + items.len()
            } else {
                ahead
            };
            let ready = put_flag(before.ready, start, items.len() as int, true);
            (RingState { readable: position_after(r, run), ..before }).written(start, items, wait) == (
            RingState {
                slots: put_items(before.slots, start, items),
                ready,
                writing: position_after(r, far),
                readable: position_after(r, ready_run(ready, r, 0, far)),
                ..before
            })
        }),
{
    let size = before.size();
    let r = before.readable;
    let n = items.len() as int;
    let far = if q + n > ahead {
        q + n
    } else {
        ahead
    };
    let st = RingState { readable: position_after(r, run), ..before };
    let start = position_after(r, q);
    lemma_after_after(r, run, q - run);
    lemma_after_after(r, run, far - run);
    lemma_diff_of_afters(r, ahead, run);
    lemma_diff_of_afters(r, q, ahead);
    lemma_written_within_wait(st, ahead - run, q - run, items, wait);
    let ready = put_flag(before.ready, start, n, true);
    assert(st.stored(start, items).ready == ready);
    lemma_run_from(ready, r, run, 0, far - run);
    assert forall|j: int| 0 <= j < run implies ready[#[trigger] slot_at(size, r, j)] by {
        lemma_run_is_ready(before.ready, r, 0, ahead, j);
        ring_offset_inverts_slot_at(size, r, j);
    }
    lemma_run_passes(ready, r, 0, run, far);
    let rest = ready_run(ready, st.readable, 0, far - run);
    lemma_ready_run_bounds(ready, st.readable, 0, far - run);
    lemma_after_after(r, run, rest);
}

/// The flags after items were stored `p` items ahead of the readable position, behind everything
/// written before.
proof fn lemma_stored_flags<T: RingItem>(st: RingState<T>, lag: int, p: int, items: Seq<T>, slot: int)
    requires
        ring_shape(st),
        st.available,
        st.slots.len() <= position_modulus() / 2,
        st.writing == position_after(st.readable, lag),
        0 <= lag <= p < position_modulus() / 2,
        p + items.len() <= st.slots.len(),
        0 <= slot < st.slots.len(),
    ensures
        ({
            let o = ring_offset(st.size(), st.readable, slot);
            st.stored(position_after(st.readable, p), items).ready[slot] == if p <= o < p + items.len() {
                true
            } else if lag <= o < p {
                false
            } else {
                st.ready[slot]
            }
        }),
{
    let size = st.size();
    let r = st.readable;
    lemma_offset_from(size, r, p, items.len() as int, slot);
    lemma_offset_from(size, r, lag, p - lag, slot);
    lemma_after_after(r, lag, p - lag);
    lemma_diff_of_afters(r, p, lag);
    lemma_ring_count_of_items(size, st.writing, p - lag);
}

/// What a ring buffer becomes when two blocks have been stored, everything before the end of the
/// latter being readable up to the first missing item.
spec fn after_blocks<T: RingItem>(st: RingState<T>, slots: Seq<T>, ready: Seq<bool>, ahead: int) -> RingState<T> {
    RingState {
        slots,
        ready,
        writing: position_after(st.readable, ahead),
        readable: position_after(st.readable, ready_run(ready, st.readable, 0, ahead)),
        ..st
    }
}

proof fn lemma_blocks_in_turn<T: RingItem>(
    st: RingState<T>,
    lag: int,
    p: int,
    first: Seq<T>,
    second: Seq<T>,
    wait: usize,
)
    requires
        ring_shape(st),
        st.available,
        st.slots.len() <= position_modulus() / 2,
        st.writing == position_after(st.readable, lag),
        position_diff(st.writing, st.readable) == lag,
        0 <= lag <= p,
        0 < first.len() < st.slots.len(),
        second.len() < st.slots.len(),
        p + first.len() + second.len() <= st.slots.len(),
        p + first.len() + second.len() <= wait <= isize::MAX,
    ensures
        ({
            let start = position_after(st.readable, p);
            let next = position_after(st.readable, p + first.len());
            let s = st.stored(start, first);
            st.written(start, first, wait).written(next, second, wait) == after_blocks(
                st,
                put_items(s.slots, next, second),
                put_flag(s.ready, next, second.len() as int, true),
                p + first.len() + second.len(),
            )
        }),
{
    let r = st.readable;
    let a = first.len() as int;
    let s = st.stored(position_after(r, p), first);
    lemma_written_within_wait(st, lag, p, first, wait);
    let run = ready_run(s.ready, r, 0, p + a);
    lemma_ready_run_bounds(s.ready, r, 0, p + a);
    lemma_second_write(s, run, p + a, p + a, second, wait);
}

proof fn lemma_blocks_in_wrong_order<T: RingItem>(
    st: RingState<T>,
    lag: int,
    p: int,
    first: Seq<T>,
    second: Seq<T>,
    wait: usize,
)
    requires
        ring_shape(st),
        st.available,
        st.slots.len() <= position_modulus() / 2,
        st.writing == position_after(st.readable, lag),
        position_diff(st.writing, st.readable) == lag,
        0 <= lag <= p,
        0 < first.len() < st.slots.len(),
        second.len() < st.slots.len(),
        p + first.len() + second.len() <= st.slots.len(),
        p + first.len() + second.len() <= wait <= isize::MAX,
    ensures
        ({
            let start = position_after(st.readable, p);
            let next = position_after(st.readable, p + first.len());
            let s = st.stored(next, second);
            st.written(next, second, wait).written(start, first, wait) == after_blocks(
                st,
                put_items(s.slots, start, first),
                put_flag(s.ready, start, first.len() as int, true),
                p + first.len() + second.len(),
            )
        }),
{
    let size = st.size();
    let r = st.readable;
    let a = first.len() as int;
    let e = p + a + second.len();
    let s = st.stored(position_after(r, p + a), second);
    lemma_written_within_wait(st, lag, p + a, second, wait);
    let run = ready_run(s.ready, r, 0, e);
    lemma_ready_run_bounds(s.ready, r, 0, e);
    // the run stops where the first block is missing
    assert(!s.ready[slot_at(size, r, p)]) by {
        lemma_stored_flags(st, lag, p + a, second, slot_at(size, r, p));
        ring_offset_inverts_slot_at(size, r, p);
    }
    lemma_run_stops(s.ready, r, 0, e, p);
    lemma_second_write(s, run, e, p, first, wait);
}

proof fn lemma_blocks_are_stored<T: RingItem>(
    st: RingState<T>,
    lag: int,
    p: int,
    first: Seq<T>,
    second: Seq<T>,
    wait: usize,
)
    requires
        ring_shape(st),
        st.available,
        st.slots.len() <= position_modulus() / 2,
        st.writing == position_after(st.readable, lag),
        position_diff(st.writing, st.readable) == lag,
        0 <= lag <= p,
        0 < first.len() < st.slots.len(),
        second.len() < st.slots.len(),
        p + first.len() + second.len() <= st.slots.len(),
        p + first.len() + second.len() <= wait <= isize::MAX,
    ensures
        ({
            let start = position_after(st.readable, p);
            let next = position_after(st.readable, p + first.len());
            let s1 = st.stored(start, first);
            let s2 = st.stored(next, second);
            &&& put_items(s1.slots, next, second) == put_items(s2.slots, start, first)
            &&& put_flag(s1.ready, next, second.len() as int, true) == put_flag(
                s2.ready,
                start,
                first.len() as int,
                true,
            )
        }),
{
    let size = st.size();
    let r = st.readable;
    let a = first.len() as int;
    let b = second.len() as int;
    let start = position_after(r, p);
    let next = position_after(r, p + a);
    let s1 = st.stored(start, first);
    let s2 = st.stored(next, second);
    let slots1 = put_items(s1.slots, next, second);
    let slots2 = put_items(s2.slots, start, first);
    let ready1 = put_flag(s1.ready, next, b, true);
    let ready2 = put_flag(s2.ready, start, a, true);
    assert forall|slot: int| 0 <= slot < size implies slots1[slot] == slots2[slot] by {
        lemma_offset_from(size, r, p, a, slot);
        lemma_offset_from(size, r, p + a, b, slot);
    }
    assert(slots1 =~= slots2);
    assert forall|slot: int| 0 <= slot < size implies ready1[slot] == ready2[slot] by {
        lemma_stored_flags(st, lag, p, first, slot);
        lemma_stored_flags(st, lag, p + a, second, slot);
        lemma_offset_from(size, r, p, a, slot);
        lemma_offset_from(size, r, p + a, b, slot);
    }
    assert(ready1 =~= ready2);
}

/// Two blocks which follow each other and come in the wrong order, the later one not more than the
/// wait ahead of what can be read, leave the ring buffer as if they had been written in turn.
pub proof fn blocks_may_come_in_wrong_order<T: RingItem>(
    st: RingState<T>,
    start: usize,
    first: Seq<T>,
    second: Seq<T>,
    wait: usize,
)
    requires
        ring_shape(st),
        st.available,
        wait <= isize::MAX,
        st.in_order(wait),
        0 < first.len() < st.slots.len(),
        second.len() < st.slots.len(),
        0 <= position_diff(start, st.writing),
        position_diff(st.writing, st.readable) + position_diff(start, st.writing) + first.len() + second.len()
            <= wait,
        position_diff(st.writing, st.readable) + position_diff(start, st.writing) + first.len() + second.len()
            <= st.slots.len(),
        st.slots.len() <= position_modulus() / 2,
    ensures
        ({
            let next = position_after(start, first.len() as int);
            st.written(next, second, wait).written(start, first, wait) == st.written(start, first, wait).written(
                next,
                second,
                wait,
            )
        }),
{
    let r = st.readable;
    let lag = position_diff(st.writing, r);
    let p = lag + position_diff(start, st.writing);
    lemma_position_at_diff(st.writing, r);
    lemma_position_at_diff(start, st.writing);
    lemma_after_after(r, lag, p - lag);
    lemma_after_after(r, p, first.len() as int);
    lemma_blocks_in_turn(st, lag, p, first, second, wait);
    lemma_blocks_in_wrong_order(st, lag, p, first, second, wait);
    lemma_blocks_are_stored(st, lag, p, first, second, wait);
}

} // verus!

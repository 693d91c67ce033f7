//! Which items of a ring buffer are read, which are missing, and what stands in for them.

use crate::common::{lemma_signed_residue_within_turn, Sample};
use crate::ring_buffer::{
    lemma_ring_count_of_items, magnitude, position_diff, position_modulus, ready_run, ring_offset, ring_offset_inverts_slot_at,
    ring_shape, slot_at, RingItem, RingState,
};
use crate::ring_laws::{
    lemma_diff_of_position_after, lemma_modulus_is_even, lemma_offset_from, lemma_position_at_diff,
    slots_follow_positions,
};
use vstd::arithmetic::power2::is_pow2;
use vstd::prelude::*;

verus! {

/// A position is ahead of another one by what has to be added to the other one to get it, going round
/// where positions wrap, and by the shorter way.
pub proof fn difference_leads_from_one_position_to_the_other(a: usize, b: usize)
    ensures
        -(usize::MAX + 1) / 2 <= position_diff(a, b) < (usize::MAX + 1) / 2,
        a == b + position_diff(a, b) || a == b + position_diff(a, b) + (usize::MAX + 1) || a == b + position_diff(a, b)
            - (usize::MAX + 1),
{
    lemma_modulus_is_even();
    lemma_signed_residue_within_turn(a - b, position_modulus());
}

/// The slot of the position `k` items after `start`.
pub open spec fn slot_of(size: int, start: usize, k: int) -> int {
    (start + k) % (usize::MAX + 1) % size
}

proof fn lemma_slot_of(size: int, start: usize, k: int)
    requires
        is_pow2(size),
        0 <= k < size <= usize::MAX,
    ensures
        slot_of(size, start, k) == slot_at(size, start, k),
        0 <= slot_of(size, start, k) < size,
        ring_offset(size, start, slot_of(size, start, k)) == k,
{
    slots_follow_positions(size, start, k);
    ring_offset_inverts_slot_at(size, start, k);
}

/// When everything before a position is made readable, default items stand in for the missing ones among
/// those which come to be readable, and the others stay as they are.
pub proof fn missing_items_are_replaced<T: RingItem>(st: RingState<T>, until: usize, k: int)
    requires
        ring_shape(st),
        st.available,
        0 <= k < position_diff(until, st.readable) <= st.slots.len(),
    ensures
        ({
            let c = st.closed_until(until);
            let slot = slot_of(st.size(), st.readable, k);
            &&& c.readable == until
            &&& c.ready[slot]
            &&& c.slots[slot] == if st.ready[slot] { st.slots[slot] } else { T::spec_default() }
        }),
{
    let n = position_diff(until, st.readable);
    lemma_position_at_diff(until, st.readable);
    lemma_ring_count_of_items(st.size(), st.readable, n);
    lemma_slot_of(st.size(), st.readable, k);
}

/// The number of times that items were missing grows by one when any item is missing among those which
/// come to be readable, and stays the same otherwise.
pub proof fn missing_items_are_counted<T: RingItem>(st: RingState<T>, until: usize)
    requires
        ring_shape(st),
        st.available,
        0 < position_diff(until, st.readable) <= st.slots.len(),
    ensures
        (exists|k: int|
            0 <= k < position_diff(until, st.readable) && !st.ready[#[trigger] slot_of(st.size(), st.readable, k)])
            ==> st.closed_until(until).holes == st.holes.wrapping_add(1),
        (forall|k: int|
            0 <= k < position_diff(until, st.readable) ==> st.ready[#[trigger] slot_of(st.size(), st.readable, k)])
            ==> st.closed_until(until).holes == st.holes,
{
    let n = position_diff(until, st.readable);
    let size = st.size();
    lemma_position_at_diff(until, st.readable);
    lemma_ring_count_of_items(size, st.readable, n);
    if exists|k: int| 0 <= k < n && !st.ready[#[trigger] slot_of(size, st.readable, k)] {
        let k = choose|k: int| 0 <= k < n && !st.ready[#[trigger] slot_of(size, st.readable, k)];
        lemma_slot_of(size, st.readable, k);
        assert(!st.ready[slot_of(size, st.readable, k)]);
    }
    if forall|k: int| 0 <= k < n ==> st.ready[#[trigger] slot_of(size, st.readable, k)] {
        if crate::ring_buffer::has_hole(st.ready, st.readable, n) {
            let i = choose|i: int|
                0 <= i < st.ready.len() && ring_offset(st.ready.len() as int, st.readable, i) < n && !#[trigger] st.ready[i];
            let k = ring_offset(size, st.readable, i);
            vstd::arithmetic::div_mod::lemma_mod_bound(st.readable as int, size);
            assert(0 <= k < size);
            assert(slot_at(size, st.readable, k) == i);
            lemma_slot_of(size, st.readable, k);
            assert(st.ready[slot_of(size, st.readable, k)]);
        }
    }
}

proof fn lemma_whole_run(ready: Seq<bool>, start: usize, k: int, count: int)
    requires
        0 <= k <= count <= ready.len(),
    ensures
        k <= ready_run(ready, start, k, count) <= count,
        forall|j: int|
            k <= j < ready_run(ready, start, k, count) ==> ready[#[trigger] slot_at(ready.len() as int, start, j)],
        ready_run(ready, start, k, count) < count ==> !ready[slot_at(
            ready.len() as int,
            start,
            ready_run(ready, start, k, count),
        )],
    decreases count - k,
{
    if k < count && ready[slot_at(ready.len() as int, start, k)] {
        lemma_whole_run(ready, start, k + 1, count);
    }
}

/// What is ready without a gap becomes readable: readers come up to the first item which is missing, or to
/// the end.
pub proof fn readers_come_up_to_the_first_missing_item<T: RingItem>(st: RingState<T>, until: usize)
    requires
        ring_shape(st),
        0 < position_diff(until, st.readable) <= st.slots.len(),
        st.slots.len() < position_modulus() / 2,
    ensures
        ({
            let a = st.advanced_until(until);
            let n = position_diff(a.readable, st.readable);
            &&& 0 <= n <= position_diff(until, st.readable)
            &&& forall|k: int| 0 <= k < n ==> st.ready[#[trigger] slot_of(st.size(), st.readable, k)]
            &&& n < position_diff(until, st.readable) ==> !st.ready[slot_of(st.size(), st.readable, n)]
            &&& a.slots == st.slots
            &&& a.writing == st.writing
            &&& a.holes == st.holes
        }),
{
    let d = position_diff(until, st.readable);
    let size = st.size();
    lemma_position_at_diff(until, st.readable);
    lemma_ring_count_of_items(size, st.readable, d);
    lemma_whole_run(st.ready, st.readable, 0, d);
    let run = ready_run(st.ready, st.readable, 0, d);
    lemma_diff_of_position_after(st.readable, run);
    assert forall|k: int| 0 <= k < run implies st.ready[#[trigger] slot_of(size, st.readable, k)] by {
        lemma_slot_of(size, st.readable, k);
        assert(st.ready[slot_at(size, st.readable, k)]);
    }
    if run < d {
        lemma_slot_of(size, st.readable, run);
    }
}

/// Items which are stored stand at the slots of their positions and are ready; those between them and
/// everything written before are missing, and the rest is left alone.
pub proof fn items_are_stored_at_their_positions<T: RingItem>(st: RingState<T>, start: usize, items: Seq<T>, k: int)
    requires
        ring_shape(st),
        st.available,
        items.len() < st.slots.len(),
        0 <= k < st.slots.len(),
    ensures
        ({
            let r = st.stored(start, items);
            let slot = slot_of(st.size(), start, k);
            &&& k < items.len() ==> r.slots[slot] == items[k] && r.ready[slot]
            &&& k >= items.len() ==> r.slots[slot] == st.slots[slot]
            &&& k >= items.len() && position_diff(start, st.writing) <= 0 ==> r.ready[slot] == st.ready[slot]
        }),
        0 <= k < position_diff(start, st.writing) <= st.slots.len() - items.len() ==> !st.stored(start, items).ready[slot_of(
            st.size(),
            st.writing,
            k,
        )],
{
    let size = st.size();
    lemma_slot_of(size, start, k);
    lemma_slot_of(size, st.writing, k);
    let gap = position_diff(start, st.writing);
    if 0 <= k < gap <= size - items.len() {
        lemma_position_at_diff(start, st.writing);
        lemma_ring_count_of_items(size, st.writing, gap);
        let slot = slot_of(size, st.writing, k);
        lemma_offset_from(size, st.writing, gap, items.len() as int, slot);
    }
}

/// The level of a sample is its distance from silence, and the greatest one which a sample can hold for the
/// one sample which is farther.
pub proof fn levels_are_distances_from_silence(s: Sample)
    ensures
        0 <= magnitude(s) <= 0x7fff_ffff,
        magnitude(s) >= s,
        s > -0x8000_0000 ==> magnitude(s) >= -s && (magnitude(s) == s || magnitude(s) == -s),
        s == -0x8000_0000 ==> magnitude(s) == 0x7fff_ffff,
{
}

} // verus!

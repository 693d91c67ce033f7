//! Ring buffer of samples addressed by timestamps.
//!
//! A position (timestamp) is a `usize` which counts items and wraps around. The item of position
//! `p` is kept in the slot `p % items_size`; `items_size` is a power of two, so the slot of a
//! position does not jump where the position wraps around.
//!
//! `RBInput` owns the storage and is the only one that changes it. `RBOutput` looks at the same
//! storage for as long as it is borrowed.

use crate::common::{lemma_signed_residue_within_turn, signed_residue, Sample};
use crate::ring_laws::{closing_moves_positions_forward, writing_moves_positions_forward};
use bool_vec::BoolVec;
use std::marker::PhantomData;
use std::sync::atomic::{AtomicUsize, Ordering};
use std::sync::Arc;
use vstd::arithmetic::power2::{is_pow2, is_pow2_equiv, lemma_pow2_strictly_increases, pow2};
use vstd::prelude::*;

verus! {

// ---------------------------------------------------------------------------------------------
// Positions and slots
// ---------------------------------------------------------------------------------------------

/// The number of distinct positions.
pub open spec fn position_modulus() -> int {
    usize::MAX + 1
}

/// How far the position `a` is ahead of the position `b` (negative: behind it).
pub open spec fn position_diff(a: usize, b: usize) -> int {
    signed_residue(a - b, position_modulus())
}

/// The position `k` items after `a`.
pub open spec fn position_after(a: usize, k: int) -> usize {
    ((a + k) % position_modulus()) as usize
}

/// How many slots of a ring of `size` slots are visited on the way from position `start` to
/// position `end`: no more than one whole turn.
pub open spec fn ring_count(size: int, start: usize, end: usize) -> int {
    if start == end {
        0
    } else {
        let d = (end as int - start as int) % size;
        if d == 0 {
            size
        } else {
            d
        }
    }
}

/// The slot visited `k` slots after the slot of position `start`, for `k < size`.
pub open spec fn slot_at(size: int, start: usize, k: int) -> int {
    let s = start as int % size + k;
    if s >= size {
        s - size
    } else {
        s
    }
}

/// How many slots after the slot of position `start` the slot `slot` is visited.
pub open spec fn ring_offset(size: int, start: usize, slot: int) -> int {
    let first = start as int % size;
    if slot >= first {
        slot - first
    } else {
        slot + size - first
    }
}

/// Every slot is visited at its own offset.
pub proof fn ring_offset_inverts_slot_at(size: int, start: usize, k: int)
    requires
        0 <= k < size,
    ensures
        0 <= slot_at(size, start, k) < size,
        ring_offset(size, start, slot_at(size, start, k)) == k,
{
    vstd::arithmetic::div_mod::lemma_mod_bound(start as int, size);
}

proof fn lemma_position_as_signed(a: usize)
    ensures
        a as isize == if a <= isize::MAX { a as int } else { a - position_modulus() },
        isize::MAX * 2 + 2 == position_modulus(),
        isize::MIN == -isize::MAX - 1,
{
    let top = !0usize;
    let m = usize::MAX;
    assert(m <= !0usize) by (bit_vector);
    assert(a <= top >> 1 ==> (a as isize) == a) by (bit_vector)
        requires top == !0usize;
    assert(a > top >> 1 ==> (a as isize) == a - top - 1) by (bit_vector)
        requires top == !0usize;
    assert(top >> 1 == top / 2) by (bit_vector);
}

/// The range of signed positions is that of positions.
pub proof fn lemma_isize_range()
    ensures
        isize::MAX * 2 + 2 == position_modulus(),
        isize::MIN == -isize::MAX - 1,
{
    lemma_position_as_signed(0);
}

pub fn wrapsub(a: usize, b: usize) -> (diff: isize)
    ensures
        diff == position_diff(a, b),
{
    proof {
        lemma_position_as_signed(a);
        lemma_position_as_signed(b);
        lemma_signed_residue_within_turn(a - b, position_modulus());
    }
    (a as isize).wrapping_sub(b as isize)
}

pub proof fn lemma_position_after(a: usize, k: int)
    requires
        0 <= k <= usize::MAX,
    ensures
        position_after(a, k) == a.wrapping_add(k as usize),
{
    if a + k < position_modulus() {
        vstd::arithmetic::div_mod::lemma_small_mod((a + k) as nat, position_modulus() as nat);
    } else {
        vstd::arithmetic::div_mod::lemma_mod_sub_multiples_vanish(a + k, position_modulus());
        vstd::arithmetic::div_mod::lemma_small_mod(
            (a + k - position_modulus()) as nat,
            position_modulus() as nat,
        );
    }
}

pub proof fn lemma_pow2_divides(size: int)
    requires
        is_pow2(size),
        0 < size <= usize::MAX,
    ensures
        position_modulus() % size == 0,
        exists|k: nat| size == #[trigger] pow2(k) && k < usize::BITS,
{
    is_pow2_equiv(size);
    vstd::layout::unsigned_int_max_values();
    let k = choose|k: nat| vstd::arithmetic::power::pow(2, k) == size;
    assert(size == pow2(k));
    let bits = usize::BITS as nat;
    if k >= bits {
        if k > bits {
            lemma_pow2_strictly_increases(bits, k);
        }
        assert(false);
    }
    vstd::arithmetic::power2::lemma_pow2_adds(k, (bits - k) as nat);
    vstd::arithmetic::power2::lemma_pow2_pos(k);
    vstd::arithmetic::div_mod::lemma_mod_multiples_basic(pow2((bits - k) as nat) as int, pow2(k) as int);
    vstd::arithmetic::mul::lemma_mul_is_commutative(pow2(k) as int, pow2((bits - k) as nat) as int);
}

proof fn lemma_mask_is_mod(x: usize, size: usize)
    requires
        is_pow2(size as int),
        0 < size,
    ensures
        x & ((size - 1) as usize) == x % size,
{
    lemma_pow2_divides(size as int);
    let k = choose|k: nat| size == #[trigger] pow2(k) && k < usize::BITS;
    vstd::bits::lemma_usize_low_bits_mask_is_mod(x, k);
    assert(vstd::bits::low_bits_mask(k) == pow2(k) - 1);
}

/// Whether a ring buffer can have `size` items.
pub fn is_ring_size(size: usize) -> (valid: bool)
    ensures
        valid == is_pow2(size as int),
{
    proof {
        reveal(is_pow2);
    }
    let mut n: usize = size;
    while n > 1 && n % 2 == 0
        invariant
            is_pow2(n as int) == is_pow2(size as int),
        decreases n,
    {
        proof {
            reveal(is_pow2);
        }
        n = n / 2;
    }
    n == 1
}

/// Where the way round a ring of `length` slots from position `start` to position `end` begins
/// and how many slots are visited on it, one after another.
pub fn for_in_ring(length: usize, start: usize, end: usize) -> (way: (usize, usize))
    requires
        is_pow2(length as int),
        length > 0,
    ensures
        way.0 == start as int % length as int,
        way.1 == ring_count(length as int, start, end),
        way.1 <= length,
{
    let length_mask: usize = length - 1;
    let w_start: usize = start & length_mask;
    let w_end: usize = end & length_mask;
    proof {
        lemma_mask_is_mod(start, length);
        lemma_mask_is_mod(end, length);
        vstd::arithmetic::div_mod::lemma_sub_mod_noop(end as int, start as int, length as int);
        if w_start < w_end {
            vstd::arithmetic::div_mod::lemma_small_mod((w_end - w_start) as nat, length as nat);
        } else if w_start > w_end {
            vstd::arithmetic::div_mod::lemma_mod_add_multiples_vanish(w_end - w_start, length as int);
            vstd::arithmetic::div_mod::lemma_small_mod((w_end - w_start + length) as nat, length as nat);
        } else {
            vstd::arithmetic::div_mod::lemma_small_mod(0, length as nat);
        }
    }
    if start == end {
        return (w_start, 0);
    }
    if w_start < w_end {
        (w_start, w_end - w_start)
    } else {
        (w_start, length - w_start + w_end)
    }
}

// ---------------------------------------------------------------------------------------------
// Storage
// ---------------------------------------------------------------------------------------------

/// What a ring buffer can hold: plain values, one of which stands for "nothing was received".
pub trait RingItem: Copy {
    spec fn spec_default() -> Self;

    fn default_item() -> (item: Self)
        ensures
            item == Self::spec_default(),
    ;
}

impl RingItem for Sample {
    open spec fn spec_default() -> Self {
        0
    }

    fn default_item() -> (item: Self) {
        0
    }
}

pub trait ProxyToBuffer<T: Copy>: Sized {
    /// Everything that is stored in the buffer.
    spec fn contents(&self) -> Seq<T>;

    /// Whether the buffer can be accessed.
    spec fn available(&self) -> bool;

    /// Whether readers are to read the buffer regardless of what has been written to it.
    spec fn reads_unconditionally(&self) -> bool;

    fn len(&self) -> (length: usize)
        ensures
            length == self.contents().len(),
    ;

    /// If buffer is available, executes `cb` with buffer's slice as an argument and returns Some with its result
    /// If buffer is unavailable, returns None
    fn map<R, F: FnOnce(&[T]) -> R>(&self, cb: F) -> (result: Option<R>)
        requires
            forall|s: &[T]| s@ == self.contents() && self.available() ==> #[trigger] cb.requires((s,)),
        ensures
            result is Some <==> self.available(),
            result is Some ==> exists|s: &[T]|
                s@ == self.contents() && #[trigger] cb.ensures((s,), result->0),
    ;

    fn unconditional_read(&self) -> (unconditional: bool)
        ensures
            unconditional == self.reads_unconditionally(),
    ;

    fn is_available(&self) -> (available: bool)
        ensures
            available == self.available(),
    ;

    fn load(&self, index: usize) -> (item: T)
        requires
            index < self.contents().len(),
        ensures
            item == self.contents()[index as int],
    ;

    fn store(&mut self, index: usize, item: T)
        requires
            index < old(self).contents().len(),
        ensures
            final(self).contents() == old(self).contents().update(index as int, item),
            final(self).available() == old(self).available(),
            final(self).reads_unconditionally() == old(self).reads_unconditionally(),
    ;
}

pub trait ProxyToSamplesBuffer: ProxyToBuffer<Sample> {

}

/// A buffer which owns its data, stored as a `Vec`
pub struct OwnedBuffer<T>(pub Vec<T>);

impl<T: RingItem> OwnedBuffer<T> {
    pub fn new(length: usize) -> (buffer: Self)
        ensures
            buffer.0@ == Seq::new(length as nat, |i: int| T::spec_default()),
    {
        let mut items: Vec<T> = Vec::new();
        for i in 0..length
            invariant
                items@ == Seq::new(i as nat, |i: int| T::spec_default()),
        {
            items.push(T::default_item());
        }
        OwnedBuffer(items)
    }
}

impl<T: Copy> ProxyToBuffer<T> for OwnedBuffer<T> {
    open spec fn contents(&self) -> Seq<T> {
        self.0@
    }

    open spec fn available(&self) -> bool {
        true
    }

    open spec fn reads_unconditionally(&self) -> bool {
        false
    }

    fn len(&self) -> (length: usize) {
        self.0.len()
    }

    fn map<R, F: FnOnce(&[T]) -> R>(&self, cb: F) -> (result: Option<R>) {
        let slice: &[T] = self.0.as_slice();
        let result = Some(cb(slice));
        assert(cb.ensures((slice,), result->0));
        result
    }

    fn unconditional_read(&self) -> (unconditional: bool) {
        false
    }

    fn is_available(&self) -> (available: bool) {
        true
    }

    fn load(&self, index: usize) -> (item: T) {
        self.0[index]
    }

    fn store(&mut self, index: usize, item: T) {
        self.0.set(index, item);
    }
}

impl ProxyToSamplesBuffer for OwnedBuffer<Sample> {

}

/// Buffer which can be invalidated at any time by an external force.
/// Intended for buffers managed by libraries not written in Rust.
pub struct ExternalBuffer<T> {
    pub items: Vec<T>,
    /// Set to `false` when the owner of the memory says that it is no longer valid.
    pub valid: bool,
}

impl<T> ExternalBuffer<T> {
    pub fn new(items: Vec<T>, valid: bool) -> (buffer: Self)
        ensures
            buffer == (ExternalBuffer { items, valid }),
    {
        Self { items, valid }
    }
}

impl<T: Copy> ProxyToBuffer<T> for ExternalBuffer<T> {
    open spec fn contents(&self) -> Seq<T> {
        self.items@
    }

    open spec fn available(&self) -> bool {
        self.valid
    }

    open spec fn reads_unconditionally(&self) -> bool {
        true
    }

    fn len(&self) -> (length: usize) {
        self.items.len()
    }

    fn map<R, F: FnOnce(&[T]) -> R>(&self, cb: F) -> (result: Option<R>) {
        if self.valid {
            let slice: &[T] = self.items.as_slice();
            let result = Some(cb(slice));
            assert(cb.ensures((slice,), result->0));
            result
        } else {
            None
        }
    }

    fn unconditional_read(&self) -> (unconditional: bool) {
        true
    }

    fn is_available(&self) -> (available: bool) {
        self.valid
    }

    fn load(&self, index: usize) -> (item: T) {
        self.items[index]
    }

    fn store(&mut self, index: usize, item: T) {
        self.items.set(index, item);
    }
}

impl ProxyToSamplesBuffer for ExternalBuffer<Sample> {

}

// ---------------------------------------------------------------------------------------------
// State of a ring buffer
// ---------------------------------------------------------------------------------------------

/// What a ring buffer holds at some moment.
pub struct RingState<T> {
    /// the items, by slot
    pub slots: Seq<T>,
    /// whether the item of the slot has been written (or closed) since it was marked as missing
    pub ready: Seq<bool>,
    /// readers may read up to this position
    pub readable: usize,
    /// everything was written up to this position, except for holes
    pub writing: usize,
    /// how many times missing items were replaced by default ones
    pub holes: usize,
    /// whether the storage can be accessed
    pub available: bool,
}

/// `slots` with `items` stored from the slot of position `start` on.
pub open spec fn put_items<T>(slots: Seq<T>, start: usize, items: Seq<T>) -> Seq<T> {
    Seq::new(
        slots.len(),
        |i: int|
            if ring_offset(slots.len() as int, start, i) < items.len() {
                items[ring_offset(slots.len() as int, start, i)]
            } else {
                slots[i]
            },
    )
}

/// `ready` with the `count` flags from the slot of position `start` on set to `flag`.
pub open spec fn put_flag(ready: Seq<bool>, start: usize, count: int, flag: bool) -> Seq<bool> {
    Seq::new(
        ready.len(),
        |i: int|
            if ring_offset(ready.len() as int, start, i) < count {
                flag
            } else {
                ready[i]
            },
    )
}

/// `slots` with `value` in those of the `count` slots from the slot of position `start` on which
/// are not ready.
pub open spec fn fill_holes<T>(
    slots: Seq<T>,
    ready: Seq<bool>,
    start: usize,
    count: int,
    value: T,
) -> Seq<T> {
    Seq::new(
        slots.len(),
        |i: int|
            if ring_offset(slots.len() as int, start, i) < count && !ready[i] {
                value
            } else {
                slots[i]
            },
    )
}

/// Whether any of the `count` slots from the slot of position `start` on is not ready.
pub open spec fn has_hole(ready: Seq<bool>, start: usize, count: int) -> bool {
    exists|i: int|
        0 <= i < ready.len() && ring_offset(ready.len() as int, start, i) < count && !#[trigger] ready[i]
}

/// Where the run of ready slots ends which reaches up to the offset `k` from the slot of
/// position `start`, looking at `count` slots at most.
pub open spec fn ready_run(ready: Seq<bool>, start: usize, k: int, count: int) -> int
    decreases count - k,
{
    if k >= count || !ready[slot_at(ready.len() as int, start, k)] {
        k
    } else {
        ready_run(ready, start, k + 1, count)
    }
}

/// What every state of a ring buffer is like.
pub open spec fn ring_shape<T: RingItem>(st: RingState<T>) -> bool {
    &&& st.ready.len() == st.slots.len()
    &&& 0 < st.slots.len() <= usize::MAX
    &&& is_pow2(st.slots.len() as int)
}

impl<T: RingItem> RingState<T> {
    /// The number of slots.
    pub open spec fn size(self) -> int {
        self.slots.len() as int
    }

    /// Whether the writing position is not behind the readable one, nor further ahead of it than
    /// missing items are waited for. Said of waits which are shorter than half of the range of
    /// positions.
    pub open spec fn in_order(self, hole_fix_wait: usize) -> bool {
        hole_fix_wait <= isize::MAX ==> 0 <= position_diff(self.writing, self.readable) <= hole_fix_wait
    }

    /// Everything before position `until` becomes readable, default items standing in for
    /// missing ones.
    pub open spec fn closed_until(self, until: usize) -> RingState<T> {
        if position_diff(until, self.readable) > 0 {
            let count = ring_count(self.size(), self.readable, until);
            if self.available {
                RingState {
                    slots: fill_holes(self.slots, self.ready, self.readable, count, T::spec_default()),
                    ready: put_flag(self.ready, self.readable, count, true),
                    readable: until,
                    holes: if has_hole(self.ready, self.readable, count) {
                        self.holes.wrapping_add(1)
                    } else {
                        self.holes
                    },
                    ..self
                }
            } else {
                RingState { readable: until, ..self }
            }
        } else {
            self
        }
    }

    /// Everything before position `until` that is ready without a gap becomes readable.
    pub open spec fn advanced_until(self, until: usize) -> RingState<T> {
        if position_diff(until, self.readable) > 0 {
            let count = ring_count(self.size(), self.readable, until);
            RingState {
                readable: position_after(
                    self.readable,
                    ready_run(self.ready, self.readable, 0, count),
                ),
                ..self
            }
        } else {
            self
        }
    }

    /// `items` are stored from the position `start` on; a gap between them and everything written
    /// before is marked as missing.
    pub open spec fn stored(self, start: usize, items: Seq<T>) -> RingState<T> {
        let marked = if position_diff(start, self.writing) > 0 {
            put_flag(self.ready, self.writing, ring_count(self.size(), self.writing, start), false)
        } else {
            self.ready
        };
        let end = position_after(start, items.len() as int);
        RingState {
            writing: if position_diff(end, self.writing) > 0 {
                end
            } else {
                self.writing
            },
            slots: if self.available {
                put_items(self.slots, start, items)
            } else {
                self.slots
            },
            ready: if self.available {
                put_flag(marked, start, items.len() as int, true)
            } else {
                marked
            },
            ..self
        }
    }

    /// After `items` were written at position `start`: where nothing is missing they are readable
    /// at once, else items which are missing for more than `hole_fix_wait` positions are given up.
    pub open spec fn written(self, start: usize, items: Seq<T>, hole_fix_wait: usize) -> RingState<T> {
        let hole = position_diff(start, self.writing) > 0 || self.readable != self.writing;
        let st = self.stored(start, items);
        if hole {
            st.closed_until(st.writing.wrapping_sub(hole_fix_wait)).advanced_until(st.writing)
        } else {
            RingState { readable: st.writing, ..st }
        }
    }

    /// After it was demanded that everything before position `until` be readable.
    pub open spec fn closed_items_until(self, until: usize) -> RingState<T> {
        if position_diff(until, self.writing) > 0 {
            let st = self.closed_until(self.writing).advanced_until(self.writing);
            let count = ring_count(self.size(), self.writing, until);
            let filled = RingState { writing: until, readable: until, ..st };
            if self.available {
                RingState {
                    slots: put_items(
                        st.slots,
                        self.writing,
                        Seq::new(count as nat, |k: int| T::spec_default()),
                    ),
                    ready: put_flag(st.ready, self.writing, count, true),
                    ..filled
                }
            } else {
                filled
            }
        } else {
            self.closed_until(until).advanced_until(until)
        }
    }
}

// ---------------------------------------------------------------------------------------------
// Shared part
// ---------------------------------------------------------------------------------------------

/// Place in a table of atomics where the readable position is published.
#[derive(Clone)]
pub struct PositionReportDestination {
    tab: Arc<Vec<AtomicUsize>>,
    offset: usize,
}

impl PositionReportDestination {
    /// Whether the place exists in the table.
    pub closed spec fn wf(self) -> bool {
        self.offset < self.tab@.len()
    }

    pub closed spec fn table(self) -> Seq<AtomicUsize> {
        self.tab@
    }

    pub closed spec fn index(self) -> int {
        self.offset as int
    }

    pub fn new(tab: Arc<Vec<AtomicUsize>>, offset: usize) -> (dest: Self)
        ensures
            dest.table() == tab@,
            dest.index() == offset,
            dest.wf() <==> offset < tab@.len(),
    {
        Self { tab, offset }
    }

    /// What an atomic holds can be changed by any thread at any time, so nothing is said here
    /// of the value which readers of the table see.
    fn publish(&self, position: usize)
        requires
            self.wf(),
    {
        self.tab[self.offset].store(position, Ordering::Release);
    }
}

pub struct RingBufferShared<T: RingItem, P: ProxyToBuffer<T>> {
    _t: PhantomData<T>,
    buffer: P,
    stride: usize,
    items_size: usize,
    readable_pos: usize,
    writing_pos: usize,
    holes_count: usize,
    readable_pos_dest: Option<PositionReportDestination>,
}

/// The number of items in a storage of `length` elements which are `stride` elements apart.
pub open spec fn items_in_storage(length: int, stride: int) -> int {
    (length + stride - 1) / stride
}

impl<T: RingItem, P: ProxyToBuffer<T>> RingBufferShared<T, P> {
    pub closed spec fn wf(&self) -> bool {
        &&& self.stride > 0
        &&& is_pow2(self.items_size as int)
        &&& self.items_size > 0
        &&& (self.items_size - 1) * self.stride < self.buffer.contents().len() <= self.items_size
            * self.stride
        &&& self.buffer.contents().len() <= usize::MAX
        &&& self.readable_pos_dest matches Some(dest) ==> dest.wf()
    }

    pub closed spec fn storage(&self) -> P {
        self.buffer
    }

    pub closed spec fn spec_stride(&self) -> int {
        self.stride as int
    }

    pub closed spec fn size(&self) -> int {
        self.items_size as int
    }

    pub closed spec fn slots(&self) -> Seq<T> {
        Seq::new(self.items_size as nat, |i: int| self.buffer.contents()[i * self.stride])
    }

    pub closed spec fn readable(&self) -> usize {
        self.readable_pos
    }

    pub closed spec fn writing(&self) -> usize {
        self.writing_pos
    }

    pub closed spec fn holes(&self) -> usize {
        self.holes_count
    }

    pub closed spec fn report_destination(&self) -> Option<PositionReportDestination> {
        self.readable_pos_dest
    }

    pub open spec fn available(&self) -> bool {
        self.storage().available()
    }

    pub open spec fn reads_unconditionally(&self) -> bool {
        self.storage().reads_unconditionally()
    }

    /// Whether `other` has the same geometry and the same storage but for what the items of the
    /// ring hold.
    pub open spec fn same_frame(&self, other: &Self) -> bool {
        &&& self.spec_stride() == other.spec_stride()
        &&& self.size() == other.size()
        &&& self.report_destination() == other.report_destination()
        &&& self.available() == other.available()
        &&& self.reads_unconditionally() == other.reads_unconditionally()
        &&& self.storage().contents().len() == other.storage().contents().len()
        &&& forall|j: int|
            0 <= j < self.storage().contents().len() && j % self.spec_stride() != 0
                ==> #[trigger] self.storage().contents()[j] == other.storage().contents()[j]
    }

    /// How many items of `wanted` ones a reader copies from position `start` on; `None`: it
    /// copies nothing and finds nothing useful.
    pub open spec fn copied_items(&self, start: usize, wanted: int) -> Option<int> {
        if !self.available() {
            None
        } else if self.reads_unconditionally() {
            Some(wanted)
        } else {
            readable_items(self.size(), self.readable(), start, wanted)
        }
    }

    /// What a reader has in its memory, which held `before`, after it has read from position `start` on.
    pub open spec fn read_items(&self, start: usize, before: Seq<T>) -> Seq<T> {
        match self.copied_items(start, before.len() as int) {
            None => before,
            Some(n) => {
                let count = ring_count(self.size(), start, position_after(start, n));
                Seq::new(
                    before.len(),
                    |k: int|
                        if k < count {
                            self.slots()[slot_at(self.size(), start, k)]
                        } else {
                            before[k]
                        },
                )
            },
        }
    }

    /// Which of the `wanted` items read from position `start` on are useful: those from the first
    /// number up to the second one.
    pub open spec fn useful_items(&self, start: usize, wanted: int) -> (int, int) {
        match self.copied_items(start, wanted) {
            None => (0, 0),
            Some(n) => if self.reads_unconditionally() {
                (0, n)
            } else {
                intact_items(self.size(), self.writing(), start, n)
            },
        }
    }

    pub fn new(
        storage: P,
        stride: usize,
        start_time: usize,
        readable_pos_dest: Option<PositionReportDestination>,
    ) -> (shared: Self)
        requires
            stride > 0,
            storage.contents().len() + stride <= usize::MAX,
            is_pow2(items_in_storage(storage.contents().len() as int, stride as int)),
            readable_pos_dest matches Some(dest) ==> dest.wf(),
        ensures
            shared.wf(),
            shared.storage() == storage,
            shared.spec_stride() == stride,
            shared.size() == items_in_storage(storage.contents().len() as int, stride as int),
            shared.slots() == Seq::new(
                shared.size() as nat,
                |i: int| storage.contents()[i * stride],
            ),
            shared.readable() == start_time,
            shared.writing() == start_time,
            shared.holes() == 0,
            shared.report_destination() == readable_pos_dest,
    {
        let items_size: usize = (storage.len() + stride - 1) / stride;
        proof {
            reveal(is_pow2);
            let l = storage.contents().len() as int;
            let n = items_size as int;
            let s = stride as int;
            assert((n - 1) * s < l <= n * s) by (nonlinear_arith)
                requires
                    n == (l + s - 1) / s,
                    s > 0,
            ;
        }
        RingBufferShared {
            _t: PhantomData,
            buffer: storage,
            stride,
            items_size,
            readable_pos: start_time,
            writing_pos: start_time,
            holes_count: 0,
            readable_pos_dest,
        }
    }

    /// Every item of the ring has its slot.
    pub proof fn lemma_slots(&self)
        ensures
            self.slots().len() == self.size(),
    {
    }

    /// The number of slots is a power of two.
    pub proof fn lemma_size_is_valid(&self)
        requires
            self.wf(),
        ensures
            is_pow2(self.size()),
            0 < self.size() <= usize::MAX,
    {
    }

    /// The storage below the ring buffer.
    pub fn buffer(&self) -> (buffer: &P)
        ensures
            *buffer == self.storage(),
    {
        &self.buffer
    }

    /// The number of items in the ring.
    pub fn items_size(&self) -> (size: usize)
        ensures
            size == self.size(),
    {
        self.items_size
    }

    proof fn lemma_slot_index(&self, slot: int)
        requires
            self.wf(),
            0 <= slot < self.size(),
        ensures
            0 <= slot * self.stride < self.buffer.contents().len(),
            (slot * self.stride) % self.stride as int == 0,
            forall|i: int| 0 <= i < self.size() && #[trigger] (i * self.stride) == slot * self.stride ==> i == slot,
    {
        let n = self.items_size as int;
        let s = self.stride as int;
        assert(0 <= slot * s <= (n - 1) * s) by (nonlinear_arith)
            requires
                0 <= slot <= n - 1,
                s > 0,
        ;
        vstd::arithmetic::div_mod::lemma_mod_multiples_basic(slot, s);
        assert forall|i: int| 0 <= i < self.size() && #[trigger] (i * self.stride) == slot * self.stride
            implies i == slot by {
            assert(i == slot) by (nonlinear_arith)
                requires
                    i * s == slot * s,
                    s > 0,
            ;
        }
    }

    fn load_slot(&self, slot: usize) -> (item: T)
        requires
            self.wf(),
            slot < self.size(),
        ensures
            item == self.slots()[slot as int],
    {
        proof {
            self.lemma_slot_index(slot as int);
        }
        self.buffer.load(slot * self.stride)
    }

    fn store_slot(&mut self, slot: usize, item: T)
        requires
            old(self).wf(),
            slot < old(self).size(),
        ensures
            final(self).wf(),
            final(self).same_frame(old(self)),
            final(self).slots() == old(self).slots().update(slot as int, item),
            final(self).readable() == old(self).readable(),
            final(self).writing() == old(self).writing(),
            final(self).holes() == old(self).holes(),
    {
        proof {
            self.lemma_slot_index(slot as int);
        }
        let index: usize = slot * self.stride;
        self.buffer.store(index, item);
        proof {
            assert forall|i: int| 0 <= i < self.size() implies self.slots()[i] == old(
                self,
            ).slots().update(slot as int, item)[i] by {
                old(self).lemma_slot_index(i);
            }
            assert(self.slots() =~= old(self).slots().update(slot as int, item));
        }
    }

    fn commit_readable_pos(&self)
        requires
            self.wf(),
    {
        match &self.readable_pos_dest {
            Some(dest) => {
                dest.publish(self.readable_pos);
            },
            None => {},
        }
    }

    /// Forget everything; continue at `start_time`.
    pub fn reset(&mut self, start_time: usize)
        requires
            old(self).wf(),
        ensures
            final(self).wf(),
            final(self).same_frame(old(self)),
            final(self).slots() == old(self).slots(),
            final(self).holes() == old(self).holes(),
            final(self).readable() == start_time,
            final(self).writing() == start_time,
    {
        self.writing_pos = start_time;
        self.readable_pos = start_time;
    }
}

// ---------------------------------------------------------------------------------------------
// Writing
// ---------------------------------------------------------------------------------------------

pub struct RBInput<T: RingItem, P: ProxyToBuffer<T>> {
    rb: RingBufferShared<T, P>,
    item_ready: BoolVec,
    hole_fix_wait: usize,
}

/// The slot after `slot`.
fn next_slot(size: usize, slot: usize) -> (next: usize)
    requires
        slot < size,
    ensures
        next == if slot + 1 == size {
            0
        } else {
            slot + 1
        },
{
    if slot + 1 == size {
        0
    } else {
        slot + 1
    }
}

impl<T: RingItem, P: ProxyToBuffer<T>> RBInput<T, P> {
    pub closed spec fn wf(&self) -> bool {
        &&& self.rb.wf()
        &&& crate::flags::flags_of(self.item_ready).len() == self.rb.size()
    }

    pub closed spec fn spec_shared(&self) -> RingBufferShared<T, P> {
        self.rb
    }

    pub closed spec fn ready(&self) -> Seq<bool> {
        crate::flags::flags_of(self.item_ready)
    }

    pub closed spec fn wait(&self) -> usize {
        self.hole_fix_wait
    }

    pub open spec fn state(&self) -> RingState<T> {
        RingState {
            slots: self.spec_shared().slots(),
            ready: self.ready(),
            readable: self.spec_shared().readable(),
            writing: self.spec_shared().writing(),
            holes: self.spec_shared().holes(),
            available: self.spec_shared().available(),
        }
    }

    /// Whether the writing position is not behind the readable one, nor further ahead of it than
    /// missing items are waited for.
    pub open spec fn in_order(&self) -> bool {
        self.state().in_order(self.wait())
    }

    /// What is shared with readers is well-formed.
    pub proof fn lemma_shared_wf(&self)
        requires
            self.wf(),
        ensures
            self.spec_shared().wf(),
    {
    }

    /// Every slot has its flag, and the number of slots is a power of two.
    pub proof fn lemma_state_shape(&self)
        requires
            self.wf(),
        ensures
            ring_shape(self.state()),
            self.state().slots.len() == self.spec_shared().size(),
    {
        self.rb.lemma_size_is_valid();
    }

    /// Whether nothing but the state may differ from `other`.
    pub open spec fn same_frame(&self, other: &Self) -> bool {
        &&& self.spec_shared().same_frame(&other.spec_shared())
        &&& self.wait() == other.wait()
    }

    pub fn new(shared: RingBufferShared<T, P>, hole_fix_wait: usize) -> (input: Self)
        requires
            shared.wf(),
        ensures
            input.wf(),
            input.spec_shared() == shared,
            input.ready() == Seq::new(shared.size() as nat, |i: int| false),
            input.wait() == hole_fix_wait,
            shared.readable() == shared.writing() ==> input.in_order(),
    {
        let items_size: usize = shared.items_size;
        let none: Vec<bool> = vec![false; items_size];
        let item_ready = crate::flags::flags_from(none.as_slice());
        assert(none@ =~= Seq::new(shared.size() as nat, |i: int| false));
        proof {
            lemma_signed_residue_within_turn(0, position_modulus());
        }
        Self { rb: shared, item_ready, hole_fix_wait }
    }

    pub fn ring_buffer_size(&self) -> (size: usize)
        ensures
            size == self.spec_shared().size(),
    {
        self.rb.items_size
    }

    pub fn shared(&self) -> (shared: &RingBufferShared<T, P>)
        ensures
            *shared == self.spec_shared(),
    {
        &self.rb
    }

    /// A ring buffer has no more slots than half of the positions.
    pub proof fn lemma_size(&self)
        requires
            self.wf(),
        ensures
            2 * self.spec_shared().size() <= position_modulus(),
    {
        let size = self.rb.items_size as int;
        self.rb.lemma_size_is_valid();
        lemma_pow2_divides(size);
        let k = choose|k: nat| size == #[trigger] pow2(k) && k < usize::BITS;
        vstd::layout::unsigned_int_max_values();
        vstd::arithmetic::power2::lemma_pow2_unfold(k + 1);
        if k + 1 < usize::BITS {
            lemma_pow2_strictly_increases(k + 1, usize::BITS as nat);
        }
    }

    /// Forget everything; continue at `start_time`.
    pub fn reset(&mut self, start_time: usize)
        requires
            old(self).wf(),
        ensures
            final(self).wf(),
            final(self).same_frame(old(self)),
            final(self).state() == (RingState {
                readable: start_time,
                writing: start_time,
                ..old(self).state()
            }),
            final(self).in_order(),
    {
        proof {
            lemma_signed_residue_within_turn(0, position_modulus());
        }
        self.rb.reset(start_time);
    }

    /// Marks every item on the way from `start` to `end` as ready or as missing.
    fn mark(&mut self, start: usize, end: usize, flag: bool)
        requires
            old(self).wf(),
        ensures
            final(self).wf(),
            final(self).spec_shared() == old(self).spec_shared(),
            final(self).wait() == old(self).wait(),
            final(self).ready() == put_flag(
                old(self).ready(),
                start,
                ring_count(old(self).spec_shared().size(), start, end),
                flag,
            ),
    {
        let size: usize = self.rb.items_size;
        let (first, count) = for_in_ring(size, start, end);
        let mut slot: usize = first;
        let mut k: usize = 0;
        assert(put_flag(self.ready(), start, 0, flag) =~= self.ready());
        while k < count
            invariant
                self.wf(),
                self.rb == old(self).rb,
                self.hole_fix_wait == old(self).hole_fix_wait,
                size == self.rb.size(),
                first == start as int % size as int,
                0 <= k <= count <= size,
                slot < size,
                k < size ==> slot == slot_at(size as int, start, k as int),
                self.ready() == put_flag(old(self).ready(), start, k as int, flag),
            decreases count - k,
        {
            let _ = crate::flags::flag_set(&mut self.item_ready, slot, flag);
            proof {
                ring_offset_inverts_slot_at(size as int, start, k as int);
                assert(self.ready() =~= put_flag(old(self).ready(), start, k as int + 1, flag));
            }
            slot = next_slot(size, slot);
            k = k + 1;
        }
    }

    /// returns the position that can be read using accompanying RBOutput
    pub fn write_from_at(&mut self, start_timestamp: usize, input: &[T]) -> (readable_until: usize)
        requires
            old(self).wf(),
            input@.len() < old(self).spec_shared().size(),
        ensures
            final(self).wf(),
            final(self).same_frame(old(self)),
            final(self).state() == old(self).state().written(start_timestamp, input@, old(self).wait()),
            readable_until == final(self).state().readable,
            old(self).in_order() ==> final(self).in_order(),
            0 <= position_diff(final(self).state().writing, old(self).state().writing),
            old(self).wait() <= isize::MAX && 0 <= position_diff(
                final(self).state().writing,
                old(self).state().readable,
            ) ==> 0 <= position_diff(readable_until, old(self).state().readable) <= position_diff(
                final(self).state().writing,
                old(self).state().readable,
            ),
    {
        let input_len: usize = input.len();
        let size: usize = self.rb.items_size;
        let ghost st0 = self.state();

        // Do we have a new hole?
        let mut hole: bool = wrapsub(start_timestamp, self.rb.writing_pos) > 0;
        if hole {
            // Mark it appropriately.
            let writing_pos: usize = self.rb.writing_pos;
            self.mark(writing_pos, start_timestamp, false);
        }
        // Did we have a hole before current invocation?

        hole = hole || self.rb.readable_pos != self.rb.writing_pos;

        let end_ts: usize = start_timestamp.wrapping_add(input_len);

        // Update writing_pos but make sure we don't go back in time when fixing a hole
        if wrapsub(end_ts, self.rb.writing_pos) > 0 {
            self.rb.writing_pos = end_ts;
        }
        // Write the items:

        if self.rb.buffer.is_available() {
            self.store_items(start_timestamp, input);
        }
        proof {
            lemma_position_after(start_timestamp, input_len as int);
            assert(self.state() == st0.stored(start_timestamp, input@));
        }

        // Inform the RBOutput that new data is readable
        // but do it only if there are no holes
        if !hole {
            self.rb.readable_pos = self.rb.writing_pos;
        }
        // If there was a hole, close (write Default to) too old items

        if hole {
            let writing_pos: usize = self.rb.writing_pos;
            let wait: usize = self.hole_fix_wait;
            self.close_items_until_internal(writing_pos.wrapping_sub(wait), writing_pos);
        }
        proof {
            old(self).lemma_state_shape();
            writing_moves_positions_forward(st0, start_timestamp, input@, self.hole_fix_wait);
        }
        self.rb.commit_readable_pos();
        self.rb.readable_pos
    }

    /// Stores the items from the slot of position `start` on and marks them as ready.
    fn store_items(&mut self, start: usize, items: &[T])
        requires
            old(self).wf(),
            items@.len() < old(self).spec_shared().size(),
        ensures
            final(self).wf(),
            final(self).same_frame(old(self)),
            final(self).state() == (RingState {
                slots: put_items(old(self).state().slots, start, items@),
                ready: put_flag(old(self).state().ready, start, items@.len() as int, true),
                ..old(self).state()
            }),
    {
        let size: usize = self.rb.items_size;
        let (first, _) = for_in_ring(size, start, start);
        let mut slot: usize = first;
        let mut k: usize = 0;
        let ghost st0 = self.state();
        assert(put_items(st0.slots, start, items@.take(0)) =~= st0.slots);
        assert(put_flag(st0.ready, start, 0, true) =~= st0.ready);
        while k < items.len()
            invariant
                self.wf(),
                self.same_frame(old(self)),
                size == self.rb.size(),
                first == start as int % size as int,
                0 <= k <= items@.len() < size,
                slot < size,
                slot == slot_at(size as int, start, k as int),
                st0 == old(self).state(),
                self.state() == (RingState {
                    slots: put_items(st0.slots, start, items@.take(k as int)),
                    ready: put_flag(st0.ready, start, k as int, true),
                    ..st0
                }),
                st0.slots.len() == size,
                st0.ready.len() == size,
            decreases items@.len() - k,
        {
            self.rb.store_slot(slot, items[k]);
            let _ = crate::flags::flag_set(&mut self.item_ready, slot, true);
            proof {
                ring_offset_inverts_slot_at(size as int, start, k as int);
                assert(self.state().slots =~= put_items(st0.slots, start, items@.take(k as int + 1)));
                assert(self.state().ready =~= put_flag(st0.ready, start, k as int + 1, true));
            }
            slot = next_slot(size, slot);
            k = k + 1;
        }
        assert(items@.take(k as int) =~= items@);
    }

    /// Puts default values in the missing items on the way from the readable position to
    /// `until`, marks them as ready and tells whether there were any.
    fn fill_missing(&mut self, until: usize) -> (hole: bool)
        requires
            old(self).wf(),
        ensures
            final(self).wf(),
            final(self).same_frame(old(self)),
            ({
                let st = old(self).state();
                let count = ring_count(st.size(), st.readable, until);
                &&& hole == has_hole(st.ready, st.readable, count)
                &&& final(self).state() == (RingState {
                    slots: fill_holes(st.slots, st.ready, st.readable, count, T::spec_default()),
                    ready: put_flag(st.ready, st.readable, count, true),
                    ..st
                })
            }),
    {
        let size: usize = self.rb.items_size;
        let start: usize = self.rb.readable_pos;
        let (first, count) = for_in_ring(size, start, until);
        let mut slot: usize = first;
        let mut k: usize = 0;
        let mut hole: bool = false;
        let ghost st0 = self.state();
        assert(fill_holes(st0.slots, st0.ready, start, 0, T::spec_default()) =~= st0.slots);
        assert(put_flag(st0.ready, start, 0, true) =~= st0.ready);
        while k < count
            invariant
                self.wf(),
                self.same_frame(old(self)),
                size == self.rb.size(),
                first == start as int % size as int,
                0 <= k <= count <= size,
                slot < size,
                k < size ==> slot == slot_at(size as int, start, k as int),
                st0 == old(self).state(),
                self.state() == (RingState {
                    slots: fill_holes(st0.slots, st0.ready, start, k as int, T::spec_default()),
                    ready: put_flag(st0.ready, start, k as int, true),
                    ..st0
                }),
                st0.slots.len() == size,
                st0.ready.len() == size,
                hole == has_hole(st0.ready, start, k as int),
            decreases count - k,
        {
            proof {
                ring_offset_inverts_slot_at(size as int, start, k as int);
                assert forall|i: int| 0 <= i < size && ring_offset(size as int, start, i) < k + 1 && !#[trigger] st0.ready[i]
                    implies ring_offset(size as int, start, i) < k || i == slot by {}
            }
            let ready = crate::flags::flag_get(&self.item_ready, slot);
            let is_ready: bool = match ready {
                Some(flag) => flag,
                None => false,
            };
            assert(is_ready == st0.ready[slot as int]);
            if !is_ready {
                hole = true;
                self.rb.store_slot(slot, T::default_item());
                let _ = crate::flags::flag_set(&mut self.item_ready, slot, true);
            }
            proof {
                assert(self.state().slots =~= fill_holes(st0.slots, st0.ready, start, k as int + 1, T::spec_default()));
                assert(self.state().ready =~= put_flag(st0.ready, start, k as int + 1, true));
                assert(hole == has_hole(st0.ready, start, k as int + 1));
            }
            slot = next_slot(size, slot);
            k = k + 1;
        }
        hole
    }

    /// How many items on the way from the readable position to `until` are ready without a gap.
    fn count_ready(&self, until: usize) -> (count: usize)
        requires
            self.wf(),
        ensures
            count == ready_run(
                self.state().ready,
                self.state().readable,
                0,
                ring_count(self.state().size(), self.state().readable, until),
            ),
    {
        let size: usize = self.rb.items_size;
        let start: usize = self.rb.readable_pos;
        let (first, count) = for_in_ring(size, start, until);
        let mut slot: usize = first;
        let mut k: usize = 0;
        while k < count
            invariant
                self.wf(),
                size == self.rb.size(),
                start == self.rb.readable_pos,
                count == ring_count(size as int, start, until),
                first == start as int % size as int,
                0 <= k <= count <= size,
                slot < size,
                k < size ==> slot == slot_at(size as int, start, k as int),
                ready_run(self.ready(), start, 0, count as int) == ready_run(
                    self.ready(),
                    start,
                    k as int,
                    count as int,
                ),
            decreases count - k,
        {
            match crate::flags::flag_get(&self.item_ready, slot) {
                Some(true) => {},
                _ => {
                    return k;
                },
            }
            slot = next_slot(size, slot);
            k = k + 1;
        }
        k
    }

    fn close_items_until_internal(&mut self, close_until_pos: usize, check_until_pos: usize)
        requires
            old(self).wf(),
        ensures
            final(self).wf(),
            final(self).same_frame(old(self)),
            final(self).state() == old(self).state().closed_until(close_until_pos).advanced_until(
                check_until_pos,
            ),
    {
        // Put default values in any holes in readable_pos..close_until_pos range:
        if wrapsub(close_until_pos, self.rb.readable_pos) > 0 {
            if self.rb.buffer.is_available() {
                let hole: bool = self.fill_missing(close_until_pos);
                if hole {
                    self.rb.holes_count = self.rb.holes_count.wrapping_add(1);
                }
            }
            self.rb.readable_pos = close_until_pos;
        }
        assert(self.state() == old(self).state().closed_until(close_until_pos));

        // Check for fixed holes and update readable_pos accordingly:
        if wrapsub(check_until_pos, self.rb.readable_pos) > 0 {
            let count: usize = self.count_ready(check_until_pos);
            proof {
                lemma_position_after(self.rb.readable_pos, count as int);
            }
            self.rb.readable_pos = self.rb.readable_pos.wrapping_add(count);
        }
    }

    /// Stores default items on the way from `start` to `until` and marks them as ready.
    fn store_defaults(&mut self, start: usize, until: usize)
        requires
            old(self).wf(),
        ensures
            final(self).wf(),
            final(self).same_frame(old(self)),
            ({
                let st = old(self).state();
                let count = ring_count(st.size(), start, until);
                final(self).state() == (RingState {
                    slots: put_items(st.slots, start, Seq::new(count as nat, |k: int| T::spec_default())),
                    ready: put_flag(st.ready, start, count, true),
                    ..st
                })
            }),
    {
        let size: usize = self.rb.items_size;
        let (first, count) = for_in_ring(size, start, until);
        let mut slot: usize = first;
        let mut k: usize = 0;
        let ghost st0 = self.state();
        assert(put_items(st0.slots, start, Seq::new(0, |k: int| T::spec_default())) =~= st0.slots);
        assert(put_flag(st0.ready, start, 0, true) =~= st0.ready);
        while k < count
            invariant
                self.wf(),
                self.same_frame(old(self)),
                size == self.rb.size(),
                first == start as int % size as int,
                0 <= k <= count <= size,
                slot < size,
                k < size ==> slot == slot_at(size as int, start, k as int),
                st0 == old(self).state(),
                self.state() == (RingState {
                    slots: put_items(st0.slots, start, Seq::new(k as nat, |k: int| T::spec_default())),
                    ready: put_flag(st0.ready, start, k as int, true),
                    ..st0
                }),
                st0.slots.len() == size,
                st0.ready.len() == size,
            decreases count - k,
        {
            self.rb.store_slot(slot, T::default_item());
            let _ = crate::flags::flag_set(&mut self.item_ready, slot, true);
            proof {
                ring_offset_inverts_slot_at(size as int, start, k as int);
                assert(self.state().slots =~= put_items(
                    st0.slots,
                    start,
                    Seq::new((k + 1) as nat, |k: int| T::spec_default()),
                ));
                assert(self.state().ready =~= put_flag(st0.ready, start, k as int + 1, true));
            }
            slot = next_slot(size, slot);
            k = k + 1;
        }
    }

    pub fn close_items_until(&mut self, until_pos: usize)
        requires
            old(self).wf(),
        ensures
            final(self).wf(),
            final(self).same_frame(old(self)),
            final(self).state() == old(self).state().closed_items_until(until_pos),
            old(self).in_order() ==> final(self).in_order(),
            0 <= position_diff(final(self).state().writing, old(self).state().writing),
            0 <= position_diff(final(self).state().writing, old(self).state().readable) ==> 0
                <= position_diff(final(self).state().readable, old(self).state().readable),
    {
        let writing_pos: usize = self.rb.writing_pos;
        let need_until_pos: usize = until_pos;
        let mut until_pos: usize = until_pos;
        proof {
            lemma_signed_residue_within_turn(until_pos - writing_pos, position_modulus());
        }
        if wrapsub(until_pos, writing_pos) > 0 {
            until_pos = writing_pos;
        }
        self.close_items_until_internal(until_pos, until_pos);

        // If closing not-yet-touched items was requested, do it:
        if need_until_pos != until_pos {
            self.rb.writing_pos = need_until_pos;
            if self.rb.buffer.is_available() {
                self.store_defaults(until_pos, need_until_pos);
            }
            self.rb.readable_pos = need_until_pos;
        }
        proof {
            old(self).lemma_state_shape();
            closing_moves_positions_forward(old(self).state(), need_until_pos, self.hole_fix_wait);
        }
        self.rb.commit_readable_pos();
    }
}

// ---------------------------------------------------------------------------------------------
// Reading
// ---------------------------------------------------------------------------------------------

/// Result of the `RBOutput::read_at` function.
#[derive(Debug, Clone, Copy, PartialEq, Eq, Structural)]
pub struct ReadResult {
    /// start index of useful data in output slice
    pub useful_start_index: usize,
    /// end index of useful data in output slice
    pub useful_end_index: usize,
}

/// How many items a reader may copy who asks for `wanted` items from position `start` on while
/// everything up to position `readable` can be read; `None`: they were not written yet, or so long
/// ago that they are overwritten.
pub open spec fn readable_items(size: int, readable: usize, start: usize, wanted: int) -> Option<
    int,
> {
    let ahead = position_diff(readable, start);
    if ahead < 0 || ahead > size {
        None
    } else if wanted < ahead {
        Some(wanted)
    } else {
        Some(ahead)
    }
}

/// Which of `copied` items from position `start` on are not overwritten when everything up to
/// position `writing` is being written.
pub open spec fn intact_items(size: int, writing: usize, start: usize, copied: int) -> (int, int) {
    let ahead = position_diff(writing, start);
    if ahead > size {
        (
            if ahead - size < copied {
                ahead - size
            } else {
                copied
            },
            copied,
        )
    } else {
        (0, copied)
    }
}

/// The decision taken before items are copied, for any readable position seen at that moment.
pub fn items_to_copy(items_size: usize, readable_pos: usize, start_timestamp: usize, wanted: usize) -> (count:
    Option<usize>)
    ensures
        count is Some <==> readable_items(items_size as int, readable_pos, start_timestamp, wanted as int) is Some,
        count is Some ==> count->0 == readable_items(
            items_size as int,
            readable_pos,
            start_timestamp,
            wanted as int,
        )->0,
{
    let readable: isize = wrapsub(readable_pos, start_timestamp);
    if readable < 0 || readable as usize > items_size {
        // we're trying to read not yet written data, or we're lagging behind so much that data at that timestamp has already been overwritten
        return None;
    }
    let readable: usize = readable as usize;
    if wanted < readable {
        Some(wanted)
    } else {
        Some(readable)
    }
}

/// The decision taken after `copied` items were copied, for any writing position seen at that moment.
pub fn useful_after_copy(items_size: usize, writing_pos: usize, start_timestamp: usize, copied: usize) -> (result:
    ReadResult)
    ensures
        result.useful_start_index == intact_items(items_size as int, writing_pos, start_timestamp, copied as int).0,
        result.useful_end_index == intact_items(items_size as int, writing_pos, start_timestamp, copied as int).1,
{
    let diff: isize = wrapsub(writing_pos, start_timestamp);
    if diff > 0 && diff as usize > items_size {
        // data has been overwritten in the meantime, so some data at the beginning of the buffer may be wrong
        let overwritten: usize = diff as usize - items_size;
        let start: usize = if overwritten < copied {
            overwritten
        } else {
            copied
        };
        return ReadResult { useful_start_index: start, useful_end_index: copied };
    }
    ReadResult { useful_start_index: 0, useful_end_index: copied }
}

pub struct RBOutput<'a, T: RingItem, P: ProxyToBuffer<T>> {
    rb: &'a RingBufferShared<T, P>,
}

impl<'a, T: RingItem, P: ProxyToBuffer<T>> RBOutput<'a, T, P> {
    pub closed spec fn spec_shared(&self) -> RingBufferShared<T, P> {
        *self.rb
    }

    pub fn new(rb: &'a RingBufferShared<T, P>) -> (output: Self)
        ensures
            output.spec_shared() == *rb,
    {
        RBOutput { rb }
    }

    pub fn shared(&self) -> (shared: &RingBufferShared<T, P>)
        ensures
            *shared == self.spec_shared(),
    {
        self.rb
    }

    pub fn readable_until(&self) -> (position: usize)
        ensures
            position == self.spec_shared().readable(),
    {
        self.rb.readable_pos
    }

    /// Because single ring buffer can be shared between multiple `RBOutput`s,
    /// this method, unlike `RBInput::write_from_at`, does not advance the read position.
    /// Use the method `read_done` when reads of all `RBOutput`s sharing the same ring buffer are done.
    pub fn read_at(&self, start_timestamp: usize, output: &mut [T]) -> (result: ReadResult)
        requires
            self.spec_shared().wf(),
        ensures
            final(output)@ == self.spec_shared().read_items(start_timestamp, old(output)@),
            result.useful_start_index == self.spec_shared().useful_items(
                start_timestamp,
                old(output)@.len() as int,
            ).0,
            result.useful_end_index == self.spec_shared().useful_items(
                start_timestamp,
                old(output)@.len() as int,
            ).1,
    {
        // in normal case: start_ts < readable_pos <= writing_pos
        let unconditional: bool = self.rb.buffer.unconditional_read();
        let output_len: usize = if unconditional {
            output.len()
        } else {
            match items_to_copy(
                self.rb.items_size,
                self.rb.readable_pos,
                start_timestamp,
                output.len(),
            ) {
                Some(n) => n,
                None => {
                    return ReadResult { useful_start_index: 0, useful_end_index: 0 };
                },
            }
        };
        if !self.rb.buffer.is_available() {
            return ReadResult { useful_start_index: 0, useful_end_index: 0 };
        }
        let size: usize = self.rb.items_size;
        let end: usize = start_timestamp.wrapping_add(output_len);
        let (first, count) = for_in_ring(size, start_timestamp, end);
        proof {
            lemma_position_after(start_timestamp, output_len as int);
            lemma_ring_count_of_items(size as int, start_timestamp, output_len as int);
        }
        let mut slot: usize = first;
        let mut k: usize = 0;
        while k < count
            invariant
                self.rb.wf(),
                size == self.rb.size(),
                first == start_timestamp as int % size as int,
                0 <= k <= count <= size,
                count <= output@.len(),
                slot < size,
                k < size ==> slot == slot_at(size as int, start_timestamp, k as int),
                output@.len() == old(output)@.len(),
                forall|j: int| 0 <= j < k ==> #[trigger] output@[j] == self.rb.slots()[slot_at(size as int, start_timestamp, j)],
                forall|j: int| k <= j < output@.len() ==> #[trigger] output@[j] == old(output)@[j],
            decreases count - k,
        {
            output[k] = self.rb.load_slot(slot);
            slot = next_slot(size, slot);
            k = k + 1;
        }
        if !unconditional {
            return useful_after_copy(size, self.rb.writing_pos, start_timestamp, output_len);
        }
        ReadResult { useful_start_index: 0, useful_end_index: output_len }
    }

    /// Readers do not hold back the writer, so there is nothing to release.
    pub fn read_done(&self, _until: usize) {
    }

    pub fn holes_count(&self) -> (count: usize)
        ensures
            count == self.spec_shared().holes(),
    {
        self.rb.holes_count
    }
}

/// Copying `n` items does not visit more than `n` slots, and visits exactly `n` of them if the ring
/// has that many.
pub proof fn lemma_ring_count_of_items(size: int, start: usize, n: int)
    requires
        is_pow2(size),
        0 < size <= usize::MAX,
        0 <= n <= usize::MAX,
    ensures
        0 <= ring_count(size, start, position_after(start, n)) <= n,
        n <= size ==> ring_count(size, start, position_after(start, n)) == n,
{
    let end = position_after(start, n);
    lemma_position_after(start, n);
    lemma_pow2_divides(size);
    let m = position_modulus();
    let d = end - start;
    assert(d == n || d == n - m);
    vstd::arithmetic::div_mod::lemma_mod_bound(d, size);
    if d == n - m {
        // size divides m
        vstd::arithmetic::div_mod::lemma_sub_mod_noop(n, m, size);
        vstd::arithmetic::div_mod::lemma_sub_mod_noop(n, 0, size);
        vstd::arithmetic::div_mod::lemma_small_mod(0, size as nat);
        assert((n - m) % size == n % size);
    }
    assert(d % size == n % size);
    vstd::arithmetic::div_mod::lemma_mod_decreases(n as nat, size as nat);
    if n < size {
        vstd::arithmetic::div_mod::lemma_small_mod(n as nat, size as nat);
    } else if n % size == 0 && n > 0 {
        vstd::arithmetic::div_mod::lemma_mod_is_zero(n as nat, size as nat);
        vstd::arithmetic::div_mod::lemma_mod_self_0(size);
    } else if n == size {
        vstd::arithmetic::div_mod::lemma_mod_self_0(size);
    }
}

/// The absolute value of a sample, limited to what a sample can hold.
pub open spec fn magnitude(s: Sample) -> int {
    if s == Sample::MIN {
        Sample::MAX as int
    } else if s < 0 {
        -s
    } else {
        s as int
    }
}

impl<P: ProxyToBuffer<Sample>> RingBufferShared<Sample, P> {
    /// The largest absolute value among all items; 0 if the storage is unavailable.
    pub fn peak_sample(&self) -> (peak: Sample)
        requires
            self.wf(),
        ensures
            !self.available() ==> peak == 0,
            self.available() ==> {
                &&& forall|i: int| 0 <= i < self.size() ==> magnitude(#[trigger] self.slots()[i]) <= peak
                &&& exists|i: int| 0 <= i < self.size() && magnitude(#[trigger] self.slots()[i]) == peak
            },
    {
        if !self.buffer.is_available() {
            return 0;
        }
        let mut peak: Sample = 0;
        let mut i: usize = 0;
        while i < self.items_size
            invariant
                self.wf(),
                i <= self.items_size,
                peak >= 0,
                forall|j: int| 0 <= j < i ==> magnitude(#[trigger] self.slots()[j]) <= peak,
                i > 0 ==> exists|j: int| 0 <= j < i && magnitude(#[trigger] self.slots()[j]) == peak,
            decreases self.items_size - i,
        {
            let s: Sample = self.load_slot(i);
            let m: Sample = if s == Sample::MIN {
                Sample::MAX
            } else if s < 0 {
                -s
            } else {
                s
            };
            assert(m == magnitude(self.slots()[i as int]));
            if i == 0 || m > peak {
                peak = m;
            }
            i = i + 1;
        }
        peak
    }
}

// ---------------------------------------------------------------------------------------------
// Construction
// ---------------------------------------------------------------------------------------------

/// A ring buffer of `length` items, all of them the default ones.
pub fn new_owned<T: RingItem>(length: usize, start_time: usize, hole_fix_wait: usize) -> (input: RBInput<
    T,
    OwnedBuffer<T>,
>)
    requires
        is_pow2(length as int),
    ensures
        input.wf(),
        input.in_order(),
        input.wait() == hole_fix_wait,
        input.spec_shared().spec_stride() == 1,
        input.spec_shared().size() == length,
        !input.spec_shared().reads_unconditionally(),
        input.spec_shared().report_destination() is None,
        input.state() == (RingState {
            slots: Seq::new(length as nat, |i: int| T::spec_default()),
            ready: Seq::new(length as nat, |i: int| false),
            readable: start_time,
            writing: start_time,
            holes: 0,
            available: true,
        }),
{
    proof {
        reveal(is_pow2);
        assert(usize::MAX % 2 == 1);
    }
    let shared = RingBufferShared::new(OwnedBuffer::<T>::new(length), 1, start_time, None);
    let input = RBInput::new(shared, hole_fix_wait);
    assert(input.state().slots =~= Seq::new(length as nat, |i: int| T::spec_default()));
    input
}

/// Memory which belongs to somebody else, with items `stride` elements apart.
pub struct ExternalBufferParameters<T> {
    pub items: Vec<T>,
    pub stride: usize,
    pub valid: bool,
    pub readable_pos_dest: Option<PositionReportDestination>,
}

impl<T> ExternalBufferParameters<T> {
    pub fn new(
        items: Vec<T>,
        stride: usize,
        valid: bool,
        readable_pos_dest: Option<PositionReportDestination>,
    ) -> (par: Self)
        ensures
            par == (ExternalBufferParameters { items, stride, valid, readable_pos_dest }),
    {
        Self { items, stride, valid, readable_pos_dest }
    }

    /// Whether a ring buffer can be laid over the memory.
    pub open spec fn wf(self) -> bool {
        &&& self.stride > 0
        &&& self.items@.len() + self.stride <= usize::MAX
        &&& is_pow2(items_in_storage(self.items@.len() as int, self.stride as int))
        &&& self.readable_pos_dest matches Some(dest) ==> dest.wf()
    }
}

pub fn shared_from_external<T: RingItem>(par: ExternalBufferParameters<T>, start_time: usize) -> (shared:
    RingBufferShared<T, ExternalBuffer<T>>)
    requires
        par.wf(),
    ensures
        shared.wf(),
        shared.storage().items@ == par.items@,
        shared.storage().valid == par.valid,
        shared.spec_stride() == par.stride,
        shared.size() == items_in_storage(par.items@.len() as int, par.stride as int),
        shared.slots() == Seq::new(shared.size() as nat, |i: int| par.items@[i * par.stride]),
        shared.readable() == start_time,
        shared.writing() == start_time,
        shared.holes() == 0,
        shared.report_destination() == par.readable_pos_dest,
{
    let external = ExternalBuffer::new(par.items, par.valid);
    RingBufferShared::new(external, par.stride, start_time, par.readable_pos_dest)
}

/// Ring buffer which is filled by somebody else; read it with `RBOutput::new`.
pub fn wrap_external_source<T: RingItem>(par: ExternalBufferParameters<T>, start_time: usize) -> (shared:
    RingBufferShared<T, ExternalBuffer<T>>)
    requires
        par.wf(),
    ensures
        shared.wf(),
        shared.storage().items@ == par.items@,
        shared.storage().valid == par.valid,
        shared.spec_stride() == par.stride,
        shared.size() == items_in_storage(par.items@.len() as int, par.stride as int),
        shared.slots() == Seq::new(shared.size() as nat, |i: int| par.items@[i * par.stride]),
        shared.readable() == start_time,
        shared.writing() == start_time,
        shared.holes() == 0,
        shared.report_destination() == par.readable_pos_dest,
{
    shared_from_external(par, start_time)
}

/// Ring buffer which is read by somebody else.
pub fn wrap_external_sink<T: RingItem>(
    par: ExternalBufferParameters<T>,
    start_time: usize,
    hole_fix_wait: usize,
) -> (input: RBInput<T, ExternalBuffer<T>>)
    requires
        par.wf(),
    ensures
        input.wf(),
        input.in_order(),
        input.wait() == hole_fix_wait,
        input.spec_shared().storage().items@ == par.items@,
        input.spec_shared().spec_stride() == par.stride,
        input.spec_shared().size() == items_in_storage(par.items@.len() as int, par.stride as int),
        input.spec_shared().report_destination() == par.readable_pos_dest,
        input.state() == (RingState {
            slots: Seq::new(
                items_in_storage(par.items@.len() as int, par.stride as int) as nat,
                |i: int| par.items@[i * par.stride],
            ),
            ready: Seq::new(
                items_in_storage(par.items@.len() as int, par.stride as int) as nat,
                |i: int| false,
            ),
            readable: start_time,
            writing: start_time,
            holes: 0,
            available: par.valid,
        }),
{
    let shared = shared_from_external(par, start_time);
    RBInput::new(shared, hole_fix_wait)
}

/// Writing side of a ring buffer in which somebody else stores the items.
pub struct ExternalRBInput<T: RingItem> {
    pub rb: RingBufferShared<T, ExternalBuffer<T>>,
    pub margin: usize,
}

impl<T: RingItem> ExternalRBInput<T> {
    /// Everything but the last `margin` items before `new_position` becomes readable.
    pub fn advance(&mut self, new_position: usize)
        requires
            old(self).rb.wf(),
        ensures
            final(self).rb.wf(),
            final(self).rb.same_frame(&old(self).rb),
            final(self).rb.slots() == old(self).rb.slots(),
            final(self).rb.holes() == old(self).rb.holes(),
            final(self).rb.writing() == new_position,
            final(self).rb.readable() == new_position.wrapping_sub(old(self).margin),
            final(self).margin == old(self).margin,
    {
        self.rb.writing_pos = new_position;
        self.rb.readable_pos = new_position.wrapping_sub(self.margin);
        self.rb.commit_readable_pos();
    }

    pub fn position(&self, clock: usize) -> (position: usize)
        ensures
            position == clock,
    {
        clock
    }
}

/// Reading side of a ring buffer from which somebody else takes the items.
pub struct ExternalRBOutput<T: RingItem> {
    pub rb: RingBufferShared<T, ExternalBuffer<T>>,
}

impl<T: RingItem> ExternalRBOutput<T> {
    pub fn position(&self, _clock: usize) -> (position: usize)
        ensures
            position == self.rb.readable(),
    {
        self.rb.readable_pos
    }
}

} // verus!

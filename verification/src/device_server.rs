//! What the device shares with its users.

use crate::common::{Clock, Sample};
use crate::ring_buffer::{new_owned, OwnedBuffer, RBInput, RingItem, RingState};
use std::sync::atomic::{AtomicU64, AtomicUsize, Ordering};
use vstd::arithmetic::power2::is_pow2;
use vstd::prelude::*;

verus! {

/// How often somebody wants to be notified of transfers.
#[derive(Debug, Clone, Copy, PartialEq, Eq, Structural)]
pub struct TransferNotifier {
    pub max_interval_samples: Clock,
}

/// Consistent (read_position, monotonic_time) snapshot written by the TX thread
/// at the exact point it updates `read_position`. Readers use a seqlock protocol:
/// odd seq = writer active, even seq = stable. Retry if seq changes between reads.
///
/// What atomics hold can be changed by any thread at any time, so nothing is said here of the
/// values which are loaded.
pub struct ReadPositionSnapshot {
    pub seq: AtomicUsize,
    pub read_position: AtomicUsize,
    /// Nanoseconds elapsed since a reference instant known to the TX thread.
    pub monotonic_nanos: AtomicU64,
}

impl ReadPositionSnapshot {
    /// A snapshot which holds `initial_values` until somebody writes to it.
    pub fn new() -> Self {
        let (seq, read_position, monotonic_nanos) = initial_values();
        Self {
            seq: AtomicUsize::new(seq),
            read_position: AtomicUsize::new(read_position),
            monotonic_nanos: AtomicU64::new(monotonic_nanos),
        }
    }

    /// Publishes a position and its time. Only one thread may do so.
    pub fn write(&self, read_position: usize, monotonic_nanos: u64) {
        let seq: usize = self.seq.load(Ordering::Relaxed);
        self.seq.store(seq.wrapping_add(1), Ordering::Release);  // odd = writing
        self.read_position.store(read_position, Ordering::Relaxed);
        self.monotonic_nanos.store(monotonic_nanos, Ordering::Relaxed);
        self.seq.store(seq.wrapping_add(2), Ordering::Release);  // even = stable
    }

    /// Reads a position and its time; `None` if they are just being changed. `accept_snapshot`
    /// says which, for any values which are loaded.
    pub fn read(&self) -> (snapshot: Option<(usize, u64)>) {
        let seq_before: usize = self.seq.load(Ordering::Acquire);
        let read_position: usize = self.read_position.load(Ordering::Acquire);
        let monotonic_nanos: u64 = self.monotonic_nanos.load(Ordering::Acquire);
        let seq_after: usize = self.seq.load(Ordering::Acquire);
        accept_snapshot(seq_before, read_position, monotonic_nanos, seq_after)
    }
}

/// What a snapshot is made with: `seq`, a position which is none, and no time. Readers accept it.
pub fn initial_values() -> (values: (usize, usize, u64))
    ensures
        values == (0usize, usize::MAX, 0u64),
        is_consistent(values.0, values.0),
{
    (0, usize::MAX, 0)
}

/// Whether what was loaded between the two loads of `seq` belongs together.
pub open spec fn is_consistent(seq_before: usize, seq_after: usize) -> bool {
    seq_before == seq_after && seq_before % 2 == 0
}

/// The decision of a reader, for any values which it has loaded.
pub fn accept_snapshot(
    seq_before: usize,
    read_position: usize,
    monotonic_nanos: u64,
    seq_after: usize,
) -> (snapshot: Option<(usize, u64)>)
    ensures
        snapshot == if is_consistent(seq_before, seq_after) {
            Some((read_position, monotonic_nanos))
        } else {
            None
        },
{
    if seq_before == seq_after && seq_before % 2 == 0 {
        Some((read_position, monotonic_nanos))
    } else {
        None
    }
}

/// Whether the ring buffer is one which nothing was written to yet, beginning at position 0.
pub open spec fn is_unwritten(
    input: RBInput<Sample, OwnedBuffer<Sample>>,
    buffer_length: usize,
    hole_fix_wait: usize,
) -> bool {
    &&& input.wf()
    &&& input.in_order()
    &&& input.wait() == hole_fix_wait
    &&& input.spec_shared().size() == buffer_length
    &&& input.spec_shared().spec_stride() == 1
    &&& !input.spec_shared().reads_unconditionally()
    &&& input.spec_shared().report_destination() is None
    &&& input.state() == (RingState {
        slots: Seq::new(buffer_length as nat, |i: int| Sample::spec_default()),
        ready: Seq::new(buffer_length as nat, |i: int| false),
        readable: 0,
        writing: 0,
        holes: 0,
        available: true,
    })
}

/// The ring buffers which samples to be transmitted are written to, one for each channel.
pub fn new_transmit_buffers(channel_count: usize, buffer_length: usize, hole_fix_wait: usize) -> (inputs: Vec<
    RBInput<Sample, OwnedBuffer<Sample>>,
>)
    requires
        is_pow2(buffer_length as int),
    ensures
        inputs@.len() == channel_count,
        forall|c: int|
            0 <= c < inputs@.len() ==> is_unwritten(#[trigger] inputs@[c], buffer_length, hole_fix_wait),
{
    let mut inputs: Vec<RBInput<Sample, OwnedBuffer<Sample>>> = Vec::new();
    let mut c: usize = 0;
    while c < channel_count
        invariant
            is_pow2(buffer_length as int),
            c <= channel_count,
            inputs@.len() == c,
            forall|d: int|
                0 <= d < inputs@.len() ==> is_unwritten(#[trigger] inputs@[d], buffer_length, hole_fix_wait),
        decreases channel_count - c,
    {
        inputs.push(new_owned(buffer_length, 0, hole_fix_wait));
        c = c + 1;
    }
    inputs
}

/// What the snapshot holds at some moment; `seq` as if it did not wrap around.
pub struct SnapshotState {
    pub seq: nat,
    pub read_position: usize,
    pub monotonic_nanos: u64,
}

/// What the writer may do at once: mark the beginning, change one of the values in between, mark the
/// end.
pub open spec fn is_writer_step(before: SnapshotState, after: SnapshotState) -> bool {
    ||| after == (SnapshotState { seq: before.seq + 1, ..before })
    ||| before.seq % 2 == 1 && after == (SnapshotState { read_position: after.read_position, ..before })
    ||| before.seq % 2 == 1 && after == (SnapshotState { monotonic_nanos: after.monotonic_nanos, ..before })
}

/// Whether the snapshot went through these states, one after another.
pub open spec fn is_history(states: Seq<SnapshotState>) -> bool {
    forall|i: int|
        #![trigger states[i]]
        0 <= i < states.len() - 1 ==> is_writer_step(states[i], states[i + 1])
}

/// The value of `seq` which a thread loads.
pub open spec fn loaded_seq(state: SnapshotState) -> usize {
    (state.seq as int % (usize::MAX + 1)) as usize
}

proof fn lemma_seq_grows(states: Seq<SnapshotState>, a: int, b: int)
    requires
        is_history(states),
        0 <= a <= b < states.len(),
    ensures
        states[a].seq <= states[b].seq,
        states[a].seq == states[b].seq && states[a].seq % 2 == 0 ==> states[a] == states[b],
    decreases b - a,
{
    if a < b {
        lemma_seq_grows(states, a, b - 1);
        assert(is_writer_step(states[b - 1], states[b - 1 + 1]));
    }
}

/// A reader which loads the values between two loads of `seq` and accepts them has got values which
/// were there at the same time, unless `seq` went all the way round in the meantime.
pub proof fn accepted_snapshot_is_consistent(
    states: Seq<SnapshotState>,
    seq_before_at: int,
    position_at: int,
    nanos_at: int,
    seq_after_at: int,
)
    requires
        is_history(states),
        0 <= seq_before_at <= position_at <= nanos_at <= seq_after_at < states.len(),
        states[seq_after_at].seq - states[seq_before_at].seq <= usize::MAX,
        is_consistent(loaded_seq(states[seq_before_at]), loaded_seq(states[seq_after_at])),
    ensures
        states[position_at].read_position == states[seq_before_at].read_position,
        states[nanos_at].monotonic_nanos == states[seq_before_at].monotonic_nanos,
{
    lemma_seq_grows(states, seq_before_at, seq_after_at);
    lemma_seq_grows(states, seq_before_at, position_at);
    lemma_seq_grows(states, position_at, nanos_at);
    lemma_seq_grows(states, nanos_at, seq_after_at);
    let m = usize::MAX + 1;
    let a = states[seq_before_at].seq as int;
    let b = states[seq_after_at].seq as int;
    // equal remainders of numbers which are less than the modulus apart
    assert(a == b) by {
        vstd::arithmetic::div_mod::lemma_fundamental_div_mod(a, m);
        vstd::arithmetic::div_mod::lemma_fundamental_div_mod(b, m);
        let qa = a / m;
        let qb = b / m;
        assert(b - a == m * (qb - qa)) by (nonlinear_arith)
            requires
                a == m * qa + a % m,
                b == m * qb + b % m,
                a % m == b % m,
        ;
        if qb > qa {
            assert(m * (qb - qa) >= m) by (nonlinear_arith)
                requires
                    qb - qa >= 1,
                    m >= 0,
            ;
        }
        if qb < qa {
            assert(m * (qb - qa) < 0) by (nonlinear_arith)
                requires
                    qb - qa <= -1,
                    m > 0,
            ;
        }
    }
    assert(a % 2 == 0) by {
        vstd::arithmetic::div_mod::lemma_fundamental_div_mod(a, m);
        vstd::layout::unsigned_int_max_values();
        assert(m % 2 == 0);
        let q = a / m;
        let h = m / 2;
        assert(m * q == 2 * (h * q)) by (nonlinear_arith)
            requires
                m == 2 * h,
        ;
    }
}

} // verus!

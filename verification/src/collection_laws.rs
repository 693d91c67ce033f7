//! What is collected out of ring buffers: which samples are read, and in which order they are handed on.

use crate::common::{Clock, Sample};
use crate::recorder::{interleaved, native_bytes};
use crate::ring_buffer::{
    lemma_ring_count_of_items, position_diff, ProxyToBuffer, RBOutput,
    RingBufferShared,
};
use crate::ring_laws::slots_follow_positions;
use crate::samples_collector::{
    channel_after, channels_after, collected, common_end, due_start, ends_of, goes_on, is_good, plan_of, Channel,
    Command,
};
use crate::samples_utils::sample_bytes;
use vstd::prelude::*;

verus! {

// ---------------------------------------------------------------------------------------------
// Reading of ring buffers
// ---------------------------------------------------------------------------------------------

/// Whether the item `k` positions after `start` is there for readers: it was made readable, and no later
/// item has taken its place or is taking it.
pub open spec fn is_there<P: ProxyToBuffer<Sample>>(rb: RingBufferShared<Sample, P>, start: usize, k: int) -> bool {
    let ahead = position_diff(rb.readable(), start);
    &&& 0 <= ahead <= rb.size()
    &&& k < ahead
    &&& position_diff(rb.writing(), start) <= k + rb.size()
}

/// A reader gets, for each of the positions from `start` on, what stands at that position in the ring; the
/// items which are there are useful, and no others are.
pub proof fn reader_gets_what_is_there<P: ProxyToBuffer<Sample>>(
    rb: RingBufferShared<Sample, P>,
    start: usize,
    before: Seq<Sample>,
    k: int,
)
    requires
        rb.wf(),
        rb.available(),
        !rb.reads_unconditionally(),
        before.len() <= rb.size(),
        0 <= k < before.len(),
    ensures
        ({
            let useful = rb.useful_items(start, before.len() as int);
            &&& useful.0 <= k < useful.1 <==> is_there(rb, start, k)
            &&& is_there(rb, start, k) ==> rb.read_items(start, before)[k] == rb.slots()[(start + k) % (usize::MAX + 1)
                % rb.size()]
            &&& rb.read_items(start, before).len() == before.len()
        }),
{
    rb.lemma_size_is_valid();
    let wanted = before.len() as int;
    if rb.copied_items(start, wanted) is Some {
        let n = rb.copied_items(start, wanted)->0;
        lemma_ring_count_of_items(rb.size(), start, n);
        if k < rb.size() {
            slots_follow_positions(rb.size(), start, k);
        }
    }
}

/// What is collected is what is there; silence stands in for everything else.
pub proof fn missing_samples_are_silent<P: ProxyToBuffer<Sample>>(
    rb: RingBufferShared<Sample, P>,
    start: usize,
    before: Seq<Sample>,
    k: int,
)
    requires
        rb.wf(),
        rb.available(),
        !rb.reads_unconditionally(),
        before.len() <= rb.size(),
        0 <= k < before.len(),
    ensures
        collected(rb, start, before).len() == before.len(),
        is_there(rb, start, k) ==> collected(rb, start, before)[k] == rb.slots()[(start + k) % (usize::MAX + 1)
            % rb.size()],
        !is_there(rb, start, k) ==> collected(rb, start, before)[k] == 0,
{
    reader_gets_what_is_there(rb, start, before, k);
}

/// A reading is good exactly if no more samples were given up than were known of, and, once anything has
/// been received, all samples which were asked for are there.
pub proof fn good_readings_miss_nothing<P: ProxyToBuffer<Sample>>(
    ch: Channel,
    rb: RingBufferShared<Sample, P>,
    start: usize,
    before: Seq<Sample>,
)
    requires
        rb.wf(),
        rb.available(),
        !rb.reads_unconditionally(),
        0 < before.len() <= rb.size(),
    ensures
        is_good(ch, rb, start, before.len() as int) ==> rb.holes() == ch.prev_holes_count,
        is_good(ch, rb, start, before.len() as int) && ch.was_connected ==> forall|k: int|
            0 <= k < before.len() ==> #[trigger] is_there(rb, start, k),
        rb.holes() == ch.prev_holes_count && (forall|k: int|
            0 <= k < before.len() ==> #[trigger] is_there(rb, start, k)) ==> is_good(
            ch,
            rb,
            start,
            before.len() as int,
        ),
        channel_after(ch, rb, start, before.len() as int).id == ch.id,
        channel_after(ch, rb, start, before.len() as int).latency_samples == ch.latency_samples,
        channel_after(ch, rb, start, before.len() as int).prev_holes_count == rb.holes(),
        channel_after(ch, rb, start, before.len() as int).was_connected <==> ch.was_connected || exists|k: int|
            0 <= k < before.len() && #[trigger] is_there(rb, start, k),
{
    let n = before.len() as int;
    let useful = rb.useful_items(start, n);
    assert forall|k: int| 0 <= k < n implies (useful.0 <= k < useful.1 <==> #[trigger] is_there(rb, start, k)) by {
        reader_gets_what_is_there(rb, start, before, k);
    }
    assert(useful.0 <= useful.1 <= n);
    if useful.0 < useful.1 {
        assert(is_there(rb, start, useful.0));
    }
    if forall|k: int| 0 <= k < n ==> #[trigger] is_there(rb, start, k) {
        assert(is_there(rb, start, 0));
        assert(is_there(rb, start, n - 1));
    }
}

// ---------------------------------------------------------------------------------------------
// What is read at a tick
// ---------------------------------------------------------------------------------------------

/// The latest samples which are due begin that many samples and the latency before the moment.
pub proof fn due_samples_end_the_latency_before(timestamp: Clock, latency_samples: Clock, count: usize)
    ensures
        (due_start(timestamp, latency_samples, count as int) + count + latency_samples - timestamp)
            % 0x1_0000_0000_0000_0000 == 0,
        latency_samples + count <= timestamp ==> due_start(timestamp, latency_samples, count as int) == timestamp
            - latency_samples - count,
{
    let m = 0x1_0000_0000_0000_0000int;
    let d = due_start(timestamp, latency_samples, count as int) + count + latency_samples - timestamp;
    assert(d == 0 || d == m || d == 2 * m);
    assert(0int % m == 0 && m % m == 0 && (2 * m) % m == 0);
}

/// How far the clock `a` is after the clock `b`, going round where the clock wraps.
pub open spec fn way_from(b: Clock, a: Clock) -> int {
    (a - b) % 0x1_0000_0000_0000_0000
}

proof fn lemma_way(b: Clock, a: Clock)
    ensures
        way_from(b, a) == a.wrapping_sub(b),
{
    let m = 0x1_0000_0000_0000_0000int;
    if a >= b {
        vstd::arithmetic::div_mod::lemma_small_mod((a - b) as nat, m as nat);
    } else {
        vstd::arithmetic::div_mod::lemma_mod_add_multiples_vanish(a - b, m);
        vstd::arithmetic::div_mod::lemma_small_mod((a - b + m) as nat, m as nat);
    }
}

/// All channels are read as far as the slowest one allows, unless that lags behind the fastest one by more
/// than 9600 samples: then they are read up to 9600 samples before the fastest one.
pub proof fn slow_channels_are_left_behind(min_end: Clock, max_end: Clock)
    ensures
        way_from(min_end, max_end) <= 9600 ==> common_end(min_end, max_end) == min_end,
        way_from(min_end, max_end) > 9600 ==> way_from(common_end(min_end, max_end), max_end) == 9600,
        way_from(common_end(min_end, max_end), max_end) <= 9600,
{
    lemma_way(min_end, max_end);
    lemma_way(common_end(min_end, max_end), max_end);
}

/// A reading goes on where the one before ended, as far as all channels can be read, but no more than 65536
/// samples at once; when more than 192000 samples have been missed, it goes on 192000 samples before the
/// end. The next reading goes on after it.
pub proof fn readings_go_on(min_end: Clock, max_end: Clock, clock: Clock)
    ensures
        ({
            let plan = plan_of(min_end, max_end, Some(clock));
            let end = common_end(min_end, max_end);
            let missing = way_from(clock, end);
            let start = plan.start_timestamp->0;
            &&& plan.start_timestamp is Some
            &&& plan.readable_until == end
            &&& missing <= 192000 ==> start == clock
            &&& missing > 192000 ==> way_from(start, end) == 192000
            &&& plan.count as int == if way_from(start, end) < 65536 { way_from(start, end) } else { 65536 }
            &&& way_from(start, plan.next_clock) == plan.count
        }),
        ({
            let plan = plan_of(min_end, max_end, None);
            &&& plan.start_timestamp is None
            &&& plan.count == 0
            &&& plan.next_clock == common_end(min_end, max_end)
        }),
{
    let plan = plan_of(min_end, max_end, Some(clock));
    let end = common_end(min_end, max_end);
    let start = plan.start_timestamp->0;
    lemma_way(clock, end);
    lemma_way(start, end);
    lemma_way(start, plan.next_clock);
}

/// Whether one of the first `n` sources can be read up to the clock.
pub open spec fn is_end_of_source<P: ProxyToBuffer<Sample>>(
    sources: Seq<Option<RBOutput<Sample, P>>>,
    n: int,
    end: Clock,
) -> bool {
    exists|i: int|
        0 <= i < n && #[trigger] sources[i] is Some && sources[i]->0.spec_shared().readable() as Clock == end
}

/// The clocks which are compared are those up to which the connected channels can be read, all of them and
/// no others.
pub proof fn ends_are_those_of_connected_channels<P: ProxyToBuffer<Sample>>(
    sources: Seq<Option<RBOutput<Sample, P>>>,
    n: int,
    end: Clock,
)
    requires
        0 <= n <= sources.len(),
    ensures
        ends_of(sources, n).contains(end) <==> is_end_of_source(sources, n, end),
    decreases n,
{
    if n > 0 {
        ends_are_those_of_connected_channels(sources, n - 1, end);
        let before = ends_of(sources, n - 1);
        let ends = ends_of(sources, n);
        if before.contains(end) {
            let p = choose|p: int| 0 <= p < before.len() && before[p] == end;
            assert(ends[p] == end);
            let i = choose|i: int|
                0 <= i < n - 1 && #[trigger] sources[i] is Some && sources[i]->0.spec_shared().readable() as Clock == end;
            assert(sources[i] is Some);
        }
        if sources[n - 1] is Some {
            let last = sources[n - 1]->0.spec_shared().readable() as Clock;
            assert(ends[before.len() as int] == last);
            if ends.contains(end) && last != end {
                let p = choose|p: int| 0 <= p < ends.len() && ends[p] == end;
                assert(before[p] == end);
            }
        }
    }
}

/// A command connects or disconnects the channel which it names, and leaves the others alone.
pub proof fn collector_commands_concern_one_channel(channels: Seq<Option<Channel>>, command: Command, j: int)
    requires
        command matches Command::ConnectChannel { channel_index, .. } ==> channel_index < channels.len()
            && channel_index < usize::MAX,
        command matches Command::DisconnectChannel { channel_index } ==> channel_index < channels.len(),
        0 <= j < channels.len(),
    ensures
        channels_after(channels, Some(command)).len() == channels.len(),
        match command {
            Command::ConnectChannel { channel_index, latency_samples } => {
                if j == channel_index {
                    &&& channels_after(channels, Some(command))[j] matches Some(ch)
                    &&& ch.id == channel_index + 1
                    &&& ch.latency_samples == latency_samples
                    &&& ch.prev_holes_count == 0
                    &&& !ch.was_connected
                } else {
                    channels_after(channels, Some(command))[j] == channels[j]
                }
            },
            Command::DisconnectChannel { channel_index } => channels_after(channels, Some(command))[j]
                == if j == channel_index { None } else { channels[j] },
            _ => channels_after(channels, Some(command))[j] == channels[j],
        },
        channels_after(channels, None) == channels,
        goes_on(Some(command)) <==> !(command is Shutdown),
        !goes_on(None),
{
}

// ---------------------------------------------------------------------------------------------
// Recording
// ---------------------------------------------------------------------------------------------

/// The sample of a channel at a moment stands after those of all earlier moments and of all channels before
/// it, with its bytes in the order of the machine.
pub proof fn recorded_samples_stand_in_turn(
    channels: Seq<Vec<Sample>>,
    samples_count: int,
    little_endian: bool,
    c: int,
    moment: int,
    b: int,
)
    requires
        0 <= c < channels.len(),
        0 <= moment < samples_count,
        0 <= b < 4,
    ensures
        ({
            let all = interleaved(channels, samples_count, little_endian);
            let at = (moment * channels.len() + c) * 4;
            &&& all.len() == channels.len() * samples_count * 4
            &&& 0 <= at
            &&& at + 4 <= all.len()
            &&& all[at + b] == sample_bytes(channels[c]@[moment])[if little_endian { 3 - b } else { b }]
        }),
{
    let n = channels.len() as int;
    let index = moment * n + c;
    let at = index * 4;
    assert(0 <= index < n * samples_count) by (nonlinear_arith)
        requires
            0 <= c < n,
            0 <= moment < samples_count,
            index == moment * n + c,
    ;
    vstd::arithmetic::div_mod::lemma_fundamental_div_mod_converse(index, n, moment, c);
    assert((at + b) / 4 == index && (at + b) % 4 == b);
    let s = channels[c]@[moment];
    assert(sample_bytes(s).len() == 4);
    assert(native_bytes(s, little_endian)[b] == sample_bytes(s)[if little_endian { 3 - b } else { b }]);
}

} // verus!

//! What commands do to received flows, and when things are due.

use crate::common::{clock_diff, clock_modulus, lemma_signed_residue_within_turn, Clock, ClockDiff, Sample};
use crate::flows_receiver::{
    buffers_clock, closing_interval_of, has_no_writer, id_at, is_channel_shifted, is_connection, is_disconnection, is_place, is_removal,
    is_shifted, is_sink_of, is_used_sink, is_writer_of, last_finished, next_time, packets_are_written_at_their_time,
    position_of_sample, shift_of, silence_end, without_writer, FlowsReceiverInternal, SilenceWriter,
};
use crate::flows_rx::{shifted_position, Sink, SocketData};
use crate::ring_buffer::ProxyToBuffer;
use vstd::prelude::*;

verus! {

// ---------------------------------------------------------------------------------------------
// Times
// ---------------------------------------------------------------------------------------------

/// A multiple of a turn of the clock has no remainder.
proof fn lemma_whole_turns()
    ensures
        0int % 0x1_0000_0000_0000_0000 == 0,
        0x1_0000_0000_0000_0000int % 0x1_0000_0000_0000_0000 == 0,
        (-0x1_0000_0000_0000_0000int) % 0x1_0000_0000_0000_0000 == 0,
        (2 * 0x1_0000_0000_0000_0000int) % 0x1_0000_0000_0000_0000 == 0,
        (-2 * 0x1_0000_0000_0000_0000int) % 0x1_0000_0000_0000_0000 == 0,
{
}

/// The shift leads from the timestamp of position 0 to the latency, going round where the clock wraps.
pub proof fn shift_leads_from_the_start_to_the_latency(start: Clock, latency_samples: usize)
    ensures
        (start + shift_of(Some(start), latency_samples) - latency_samples) % 0x1_0000_0000_0000_0000 == 0,
        start <= i64::MAX && latency_samples <= i64::MAX ==> shift_of(Some(start), latency_samples)
            == latency_samples - start,
        latency_samples <= i64::MAX ==> shift_of(None, latency_samples) == latency_samples,
{
    lemma_signed_residue_within_turn(latency_samples as Clock - start, clock_modulus());
    lemma_signed_residue_within_turn(latency_samples as Clock - 0, clock_modulus());
    lemma_whole_turns();
}

/// In a ring buffer, a sample stands as far after position 0 as its timestamp is after that of position 0,
/// and the latency further, as far as positions can hold it.
pub proof fn samples_stand_the_latency_after_their_time(timestamp: Clock, start: Clock, latency_samples: usize)
    ensures
        position_of_sample(timestamp, Some(start), latency_samples) as int == (timestamp - start + latency_samples)
            % 0x1_0000_0000_0000_0000 % (usize::MAX + 1),
        0 <= timestamp - start + latency_samples <= usize::MAX ==> position_of_sample(
            timestamp,
            Some(start),
            latency_samples,
        ) == timestamp - start + latency_samples,
{
    let m = 0x1_0000_0000_0000_0000int;
    let x = timestamp - start + latency_samples;
    vstd::arithmetic::div_mod::lemma_mod_bound(x, m);
    if 0 <= x <= usize::MAX {
        vstd::arithmetic::div_mod::lemma_small_mod(x as nat, m as nat);
        vstd::arithmetic::div_mod::lemma_small_mod(x as nat, (usize::MAX + 1) as nat);
    }
}

/// Wherever a ring buffer is connected, the samples of packets are written to it the latency of the flow
/// after their time, counted from the timestamp of position 0.
pub proof fn packets_are_written_the_latency_after_their_time<P: ProxyToBuffer<Sample>>(
    receiver: FlowsReceiverInternal<P>,
    s: int,
    c: int,
    k: int,
    timestamp: Clock,
    start: Clock,
)
    requires
        receiver.wf(),
        receiver.start_timestamp == Some(start),
        is_place(receiver.sockets@, s, c, k),
    ensures
        shifted_position(timestamp, receiver.sockets@[s]->0.channels@[c]->0.timestamp_shift) as int == (timestamp
            - start + receiver.sockets@[s]->0.latency_samples) % 0x1_0000_0000_0000_0000 % (usize::MAX + 1),
{
    packets_are_written_at_their_time(receiver, s, c, k, timestamp);
    samples_stand_the_latency_after_their_time(timestamp, start, receiver.sockets@[s]->0.latency_samples);
}

/// The next event is due one interval after the last one was due; if that has passed already, one interval
/// from now. It always lies in the future, and never further away than one interval.
pub proof fn events_follow_each_other(due: u64, interval: u64, now: u64)
    requires
        due <= now,
        interval > 0,
    ensures
        now < next_time(due, interval, now) <= now + interval,
        due + interval > now ==> next_time(due, interval, now) == due + interval,
        due + interval <= now ==> next_time(due, interval, now) == now + interval,
{
}

/// Missing samples are replaced twice in each interval in which somebody wants to be notified.
pub proof fn samples_are_closed_twice_an_interval(max_interval_samples: Clock, sample_rate: u32)
    requires
        sample_rate > 0,
    ensures
        ({
            let interval = closing_interval_of(Some(max_interval_samples), sample_rate);
            2 * interval * sample_rate <= max_interval_samples * 1_000_000_000 < 2 * (interval + 1) * sample_rate
        }),
        closing_interval_of(None, sample_rate) == 1_000_000,
{
    let x = max_interval_samples * 1_000_000_000;
    let r = sample_rate as int;
    let q = x / r;
    let i = q / 2;
    vstd::arithmetic::div_mod::lemma_fundamental_div_mod(x, r);
    vstd::arithmetic::div_mod::lemma_mod_bound(x, r);
    assert(2 * i <= q <= 2 * i + 1);
    assert(2 * i * r <= q * r && (q + 1) * r <= 2 * (i + 1) * r && q * r == r * q && (q + 1) * r == r * q + r)
        by (nonlinear_arith)
        requires
            2 * i <= q <= 2 * i + 1,
            r > 0,
    ;
}

/// The clock of ring buffers leads from the timestamp of position 0 to now.
pub proof fn clock_of_buffers_leads_to_now(now: Clock, start: Clock)
    ensures
        (start + buffers_clock(now, Some(start)) - now) % 0x1_0000_0000_0000_0000 == 0,
        start <= now ==> buffers_clock(now, Some(start)) == now - start,
        buffers_clock(now, None) == now,
{
    lemma_whole_turns();
}

/// Silence is written until one and a half turns of the ring have passed, so that nothing is left in it.
pub proof fn silence_lasts_for_more_than_the_ring(now: Clock, size: int, shift: ClockDiff)
    requires
        0 <= size <= 0x4000_0000_0000_0000,
    ensures
        (now + size + size / 2 + shift - silence_end(now, size, shift)) % 0x1_0000_0000_0000_0000 == 0,
        0 <= now + size + size / 2 + shift < 0x1_0000_0000_0000_0000 ==> silence_end(now, size, shift) == now + size
            + size / 2 + shift,
{
    let m = 0x1_0000_0000_0000_0000int;
    lemma_whole_turns();
    let d = now + size + size / 2 + shift - silence_end(now, size, shift);
    assert(d == 0 || d == m || d == -m || d == 2 * m);
}

/// The writer which is dismissed has done its work, and it is the last one which has; if none is
/// dismissed, none has.
pub proof fn finished_writers_are_dismissed<P: ProxyToBuffer<Sample>>(
    writers: Seq<SilenceWriter<P>>,
    ts: Clock,
    n: int,
)
    requires
        0 <= n <= writers.len(),
    ensures
        match last_finished(writers, ts, n) {
            Some(w) => {
                &&& 0 <= w < n
                &&& clock_diff(ts, writers[w].end_timestamp) >= 0
                &&& forall|v: int| w < v < n ==> clock_diff(ts, (#[trigger] writers[v]).end_timestamp) < 0
            },
            None => forall|v: int| 0 <= v < n ==> clock_diff(ts, (#[trigger] writers[v]).end_timestamp) < 0,
        },
    decreases n,
{
    if n > 0 {
        finished_writers_are_dismissed(writers, ts, n - 1);
    }
}

// ---------------------------------------------------------------------------------------------
// Connections
// ---------------------------------------------------------------------------------------------

/// Either a first writer has the number or none has.
proof fn lemma_writer<P: ProxyToBuffer<Sample>>(writers: Seq<SilenceWriter<P>>, id: usize, n: int)
    requires
        0 <= n <= writers.len(),
    ensures
        (exists|w: int| #[trigger] is_writer_of(writers, w, id) && w < n) || forall|v: int|
            0 <= v < n ==> (#[trigger] writers[v]).sink.id != id,
    decreases n,
{
    if n > 0 {
        lemma_writer(writers, id, n - 1);
        if forall|v: int| 0 <= v < n - 1 ==> (#[trigger] writers[v]).sink.id != id {
            if writers[n - 1].sink.id == id {
                assert(is_writer_of(writers, n - 1, id));
            }
        } else {
            let w = choose|w: int| #[trigger] is_writer_of(writers, w, id) && w < n - 1;
            assert(is_writer_of(writers, w, id));
        }
    }
}

/// A connected ring buffer stands after those which were connected to the channel before; all other
/// channels and flows are left alone.
pub proof fn connected_sink_is_added_to_the_channel<P: ProxyToBuffer<Sample>>(
    before: FlowsReceiverInternal<P>,
    after: FlowsReceiverInternal<P>,
    s: int,
    c: int,
    sink: Sink<P>,
    now: Option<Clock>,
)
    requires
        is_connection(before, after, s, c, sink, now),
        0 <= s < before.sockets@.len(),
        0 <= c < before.sockets@[s]->0.channels@.len(),
    ensures
        ({
            let channel_before = before.sockets@[s]->0.channels@[c];
            let channel_after = after.sockets@[s]->0.channels@[c];
            let count = match channel_before {
                Some(ch) => ch.sinks@.len() as int,
                None => 0,
            };
            &&& is_place(after.sockets@, s, c, count)
            &&& id_at(after.sockets@, s, c, count) == sink.id
            &&& channel_after->0.sinks@.len() == count + 1
            &&& forall|k: int|
                0 <= k < count ==> #[trigger] channel_after->0.sinks@[k] == channel_before->0.sinks@[k]
            &&& forall|d: int|
                0 <= d < before.sockets@[s]->0.channels@.len() && d != c
                    ==> #[trigger] after.sockets@[s]->0.channels@[d] == before.sockets@[s]->0.channels@[d]
            &&& forall|t: int|
                0 <= t < before.sockets@.len() && t != s ==> #[trigger] after.sockets@[t] == before.sockets@[t]
            &&& after.sockets@[s]->0.latency_samples == before.sockets@[s]->0.latency_samples
            &&& after.sockets@[s]->0.bytes_per_sample == before.sockets@[s]->0.bytes_per_sample
            &&& channel_before is None ==> channel_after->0.latency_samples == before.sockets@[s]->0.latency_samples
        }),
{
    let latency_samples = before.sockets@[s]->0.latency_samples;
    let shift = shift_of(before.start_timestamp, latency_samples);
    let writers = before.silence_writers@;
    let used = choose|used: Sink<P>| #[trigger]
        is_used_sink(used, sink, writers, now, shift) && crate::flows_receiver::is_connected_to(
            before.sockets@[s]->0.channels@[c],
            after.sockets@[s]->0.channels@[c],
            used,
            latency_samples,
            shift,
        );
    lemma_writer(writers, sink.id, writers.len() as int);
    if !has_no_writer(writers, sink.id) {
        let w = choose|w: int| #[trigger] is_writer_of(writers, w, sink.id) && w < writers.len();
        assert(is_writer_of(writers, w, sink.id));
    }
    assert(used.id == sink.id);
}

/// A ring buffer which was disconnected is not connected to the channel any more if it was connected once;
/// all others are still connected. Silence is written to it from now on.
pub proof fn disconnected_sink_is_taken_out_of_the_channel<P: ProxyToBuffer<Sample>>(
    before: Seq<Option<SocketData<P>>>,
    after: Seq<Option<SocketData<P>>>,
    writers_before: Seq<SilenceWriter<P>>,
    writers_after: Seq<SilenceWriter<P>>,
    s: int,
    c: int,
    id: usize,
    now: Clock,
    place: int,
)
    requires
        is_disconnection(before, after, writers_before, writers_after, s, c, id, Some(now)),
        0 <= s < before.len(),
        before[s] is Some,
        0 <= c < before[s]->0.channels@.len(),
        before[s]->0.channels@[c] is Some,
        0 <= place < before[s]->0.channels@[c]->0.sinks@.len(),
        before[s]->0.channels@[c]->0.sinks@[place].id == id,
        forall|k: int|
            0 <= k < before[s]->0.channels@[c]->0.sinks@.len() && k != place
                ==> (#[trigger] before[s]->0.channels@[c]->0.sinks@[k]).id != id,
    ensures
        ({
            let sinks_before = before[s]->0.channels@[c]->0.sinks@;
            let sinks_after = after[s]->0.channels@[c]->0.sinks@;
            &&& after[s] is Some
            &&& after[s]->0.channels@[c] is Some
            &&& sinks_after.len() == sinks_before.len() - 1
            &&& forall|k: int| 0 <= k < sinks_after.len() ==> (#[trigger] sinks_after[k]).id != id
            &&& forall|k: int|
                0 <= k < sinks_before.len() && k != place ==> sinks_after.contains(#[trigger] sinks_before[k])
            &&& forall|d: int|
                0 <= d < before[s]->0.channels@.len() && d != c ==> #[trigger] after[s]->0.channels@[d]
                    == before[s]->0.channels@[d]
            &&& forall|t: int| 0 <= t < before.len() && t != s ==> #[trigger] after[t] == before[t]
            &&& writers_after.len() == writers_before.len() + 1
            &&& writers_after.last().sink == sinks_before[place]
            &&& writers_after.last().end_timestamp == silence_end(
                now,
                sinks_before[place].input.spec_shared().size(),
                before[s]->0.channels@[c]->0.timestamp_shift,
            )
            &&& forall|w: int|
                0 <= w < writers_before.len() ==> #[trigger] writers_after[w] == writers_before[w]
        }),
{
    let sinks_before = before[s]->0.channels@[c]->0.sinks@;
    assert(is_sink_of(sinks_before, place, id));
    let r = choose|r: (Sink<P>, ClockDiff)| #[trigger]
        is_removal(before, after, writers_before, writers_after, s, c, id, Some(now), r);
    assert(is_removal(before, after, writers_before, writers_after, s, c, id, Some(now), r));
    let sinks_after = after[s]->0.channels@[c]->0.sinks@;
    let k = choose|k: int| #[trigger]
        is_sink_of(sinks_before, k, id) && r.0 == sinks_before[k] && sinks_after == sinks_before.update(
            k,
            sinks_before.last(),
        ).drop_last();
    assert(k == place);
    let last = sinks_before.len() - 1;
    assert forall|j: int| 0 <= j < sinks_before.len() && j != place implies sinks_after.contains(
        #[trigger] sinks_before[j],
    ) by {
        if j == last {
            assert(sinks_after[place] == sinks_before[j]);
        } else {
            assert(sinks_after[j] == sinks_before[j]);
        }
    }
    assert forall|j: int| 0 <= j < sinks_after.len() implies (#[trigger] sinks_after[j]).id != id by {
        if j == place {
            assert(sinks_after[j] == sinks_before[last]);
        } else {
            assert(sinks_after[j] == sinks_before[j]);
        }
    }
}

/// Nobody writes silence to a ring buffer any more which was connected; all others are still written to.
pub proof fn silence_ends_where_samples_come<P: ProxyToBuffer<Sample>>(
    before: Seq<SilenceWriter<P>>,
    after: Seq<SilenceWriter<P>>,
    id: usize,
    place: int,
)
    requires
        without_writer(before, after, id),
        forall|v: int| 0 <= v < before.len() && v != place ==> (#[trigger] before[v]).sink.id != id,
    ensures
        forall|v: int| 0 <= v < after.len() ==> (#[trigger] after[v]).sink.id != id,
        forall|v: int| 0 <= v < before.len() && before[v].sink.id != id ==> after.contains(#[trigger] before[v]),
        0 <= place < before.len() && before[place].sink.id == id ==> after.len() == before.len() - 1,
        !(0 <= place < before.len() && before[place].sink.id == id) ==> after == before,
{
    if 0 <= place < before.len() && before[place].sink.id == id {
        assert(is_writer_of(before, place, id));
        assert(after == before.update(place, before.last()).drop_last());
        assert forall|v: int| 0 <= v < before.len() && before[v].sink.id != id implies after.contains(
            #[trigger] before[v],
        ) by {
            if v == before.len() - 1 {
                assert(after[place] == before[v]);
            } else {
                assert(after[v] == before[v]);
            }
        }
    } else {
        assert(has_no_writer(before, id));
        assert forall|v: int| 0 <= v < before.len() && before[v].sink.id != id implies after.contains(
            #[trigger] before[v],
        ) by {
            assert(after[v] == before[v]);
        }
    }
}

/// When it becomes known which timestamp the first position has, all channels of all flows are shifted by it,
/// each with its latency; nothing else about them changes.
pub proof fn start_of_the_clock_shifts_every_channel<P: ProxyToBuffer<Sample>>(
    before: Option<SocketData<P>>,
    after: Option<SocketData<P>>,
    start_time: Clock,
    c: int,
)
    requires
        is_shifted(before, after, start_time),
    ensures
        before is Some <==> after is Some,
        before is Some ==> {
            &&& after->0.send_keepalives == before->0.send_keepalives
            &&& after->0.last_source == before->0.last_source
            &&& after->0.last_packet_time == before->0.last_packet_time
            &&& after->0.bytes_per_sample == before->0.bytes_per_sample
            &&& after->0.latency_samples == before->0.latency_samples
            &&& after->0.actual_latency_samples == before->0.actual_latency_samples
            &&& after->0.channels@.len() == before->0.channels@.len()
            &&& 0 <= c < before->0.channels@.len() ==> (before->0.channels@[c] is Some <==> after->0.channels@[c] is Some)
        },
        before is Some && 0 <= c < before->0.channels@.len() && before->0.channels@[c] is Some ==> {
            let old_channel = before->0.channels@[c]->0;
            let new_channel = after->0.channels@[c]->0;
            &&& new_channel.sinks == old_channel.sinks
            &&& new_channel.latency_samples == old_channel.latency_samples
            &&& new_channel.timestamp_shift == shift_of(Some(start_time), old_channel.latency_samples)
        },
{
    if before is Some && 0 <= c < before->0.channels@.len() {
        assert(is_channel_shifted(before->0.channels@[c], after->0.channels@[c], start_time));
    }
}

/// A ring buffer which is not connected cannot be disconnected: nothing changes.
pub proof fn only_connected_sinks_are_disconnected<P: ProxyToBuffer<Sample>>(
    before: Seq<Option<SocketData<P>>>,
    after: Seq<Option<SocketData<P>>>,
    writers_before: Seq<SilenceWriter<P>>,
    writers_after: Seq<SilenceWriter<P>>,
    s: int,
    c: int,
    id: usize,
    now: Option<Clock>,
)
    requires
        is_disconnection(before, after, writers_before, writers_after, s, c, id, now),
        before[s] is None || before[s]->0.channels@[c] is None || forall|k: int|
            0 <= k < before[s]->0.channels@[c]->0.sinks@.len() ==> (#[trigger] before[s]->0.channels@[c]->0.sinks@[k]).id
                != id,
    ensures
        after == before,
        writers_after == writers_before,
{
}

} // verus!

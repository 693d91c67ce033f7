//! The receiver of all flows: which ring buffers are connected to which channels, when silence has
//! to be written, and when transmitters are told that they are still listened to.

use crate::common::{clock_diff, clock_modulus, clock_position, position_of_clock, wrapped_diff, Clock, ClockDiff, Sample};
use crate::flags::{flag_set, flags_from, flags_of};
use crate::flows_rx::{
    channel_closed, channels_closed, channels_wf, close_channels, find_sink, same_sinks, shifted_position,
    sinks_wf, Channel, Sink, SocketData, CLOSING_SAMPLES_INTERVAL, KEEPALIVE_INTERVAL, MAX_FLOWS, MEDIA_HEADER_LENGTH,
};
use crate::mdns_client::SocketNumber;
use crate::net_utils::MTU;
use crate::ring_buffer::{ProxyToBuffer, RingState};
use bool_vec::BoolVec;
use vstd::prelude::*;

verus! {

/// Keeps a ring buffer full of silence for a while after it was disconnected.
pub struct SilenceWriter<P: ProxyToBuffer<Sample>> {
    pub sink: Sink<P>,
    pub end_timestamp: Clock,
}

pub enum Command<P: ProxyToBuffer<Sample>> {
    NoOp,
    Shutdown,
    AddSocket { index: usize, socket: SocketData<P> },
    RemoveSocket { index: usize },
    ConnectChannel { socket_index: usize, channel_in_flow: usize, sink: Sink<P> },
    DisconnectChannel { socket_index: usize, channel_in_flow: usize, sink_id: usize },
}

// ---------------------------------------------------------------------------------------------
// Places of sinks
// ---------------------------------------------------------------------------------------------

/// Whether there is a sink `k` in the channel `c` of the socket `s`.
pub open spec fn is_place<P: ProxyToBuffer<Sample>>(
    sockets: Seq<Option<SocketData<P>>>,
    s: int,
    c: int,
    k: int,
) -> bool {
    &&& 0 <= s < sockets.len()
    &&& sockets[s] is Some
    &&& 0 <= c < sockets[s]->0.channels@.len()
    &&& sockets[s]->0.channels@[c] is Some
    &&& 0 <= k < sockets[s]->0.channels@[c]->0.sinks@.len()
}

/// The number of the sink at a place.
pub open spec fn id_at<P: ProxyToBuffer<Sample>>(
    sockets: Seq<Option<SocketData<P>>>,
    s: int,
    c: int,
    k: int,
) -> usize {
    sockets[s]->0.channels@[c]->0.sinks@[k].id
}

/// Whether the sink with the number is connected to a channel.
pub open spec fn is_connected<P: ProxyToBuffer<Sample>>(sockets: Seq<Option<SocketData<P>>>, id: usize) -> bool {
    exists|s: int, c: int, k: int| is_place(sockets, s, c, k) && #[trigger] id_at(sockets, s, c, k) == id
}

/// Whether no ring buffer is connected twice.
pub open spec fn connected_once<P: ProxyToBuffer<Sample>>(sockets: Seq<Option<SocketData<P>>>) -> bool {
    forall|s1: int, c1: int, k1: int, s2: int, c2: int, k2: int|
        is_place(sockets, s1, c1, k1) && is_place(sockets, s2, c2, k2) && #[trigger] id_at(sockets, s1, c1, k1)
            == #[trigger] id_at(sockets, s2, c2, k2) ==> s1 == s2 && c1 == c2 && k1 == k2
}

/// Whether silence is written to no ring buffer twice, nor to one which is connected.
pub open spec fn silent_once<P: ProxyToBuffer<Sample>>(
    sockets: Seq<Option<SocketData<P>>>,
    writers: Seq<SilenceWriter<P>>,
) -> bool {
    &&& forall|w: int| 0 <= w < writers.len() ==> !is_connected(sockets, (#[trigger] writers[w]).sink.id)
    &&& forall|v: int, w: int|
        0 <= v < w < writers.len() ==> (#[trigger] writers[v]).sink.id != (#[trigger] writers[w]).sink.id
}

/// Whether the socket has the same sinks at the same places, but for their states.
pub open spec fn same_socket<P: ProxyToBuffer<Sample>>(
    a: Option<SocketData<P>>,
    b: Option<SocketData<P>>,
) -> bool {
    &&& a is Some <==> b is Some
    &&& a is Some ==> {
        &&& a->0.channels@.len() == b->0.channels@.len()
        &&& forall|c: int|
            0 <= c < a->0.channels@.len() ==> same_places(#[trigger] a->0.channels@[c], b->0.channels@[c])
    }
}

/// Whether the channel has the same sinks, but for their states.
pub open spec fn same_places<P: ProxyToBuffer<Sample>>(a: Option<Channel<P>>, b: Option<Channel<P>>) -> bool {
    &&& a is Some <==> b is Some
    &&& a is Some ==> same_sinks(a->0.sinks@, b->0.sinks@)
}

/// Whether all the sockets have the same sinks, but for their states.
pub open spec fn same_sockets<P: ProxyToBuffer<Sample>>(
    a: Seq<Option<SocketData<P>>>,
    b: Seq<Option<SocketData<P>>>,
) -> bool {
    &&& a.len() == b.len()
    &&& forall|s: int| 0 <= s < a.len() ==> same_socket(#[trigger] a[s], b[s])
}

proof fn lemma_same_place<P: ProxyToBuffer<Sample>>(
    a: Seq<Option<SocketData<P>>>,
    b: Seq<Option<SocketData<P>>>,
    s: int,
    c: int,
    k: int,
)
    requires
        same_sockets(a, b),
    ensures
        is_place(a, s, c, k) <==> is_place(b, s, c, k),
        is_place(a, s, c, k) ==> id_at(a, s, c, k) == id_at(b, s, c, k),
{
    if 0 <= s < a.len() {
        assert(same_socket(a[s], b[s]));
        if a[s] is Some && 0 <= c < a[s]->0.channels@.len() {
            assert(same_places(a[s]->0.channels@[c], b[s]->0.channels@[c]));
            if a[s]->0.channels@[c] is Some && 0 <= k < a[s]->0.channels@[c]->0.sinks@.len() {
                assert(a[s]->0.channels@[c]->0.sinks@[k].id == b[s]->0.channels@[c]->0.sinks@[k].id);
            }
        }
    }
}

/// Where sinks stay at their places, each is connected once as before.
proof fn lemma_same_sockets<P: ProxyToBuffer<Sample>>(
    a: Seq<Option<SocketData<P>>>,
    b: Seq<Option<SocketData<P>>>,
)
    requires
        same_sockets(a, b),
    ensures
        forall|id: usize| #[trigger] is_connected(a, id) <==> is_connected(b, id),
        connected_once(b) ==> connected_once(a),
{
    assert forall|id: usize| #[trigger] is_connected(a, id) <==> is_connected(b, id) by {
        if is_connected(a, id) {
            let (s, c, k) = choose|s: int, c: int, k: int|
                is_place(a, s, c, k) && #[trigger] id_at(a, s, c, k) == id;
            lemma_same_place(a, b, s, c, k);
            assert(is_place(b, s, c, k) && id_at(b, s, c, k) == id);
        }
        if is_connected(b, id) {
            let (s, c, k) = choose|s: int, c: int, k: int|
                is_place(b, s, c, k) && #[trigger] id_at(b, s, c, k) == id;
            lemma_same_place(a, b, s, c, k);
            assert(is_place(a, s, c, k) && id_at(a, s, c, k) == id);
        }
    }
    if connected_once(b) {
        assert forall|s1: int, c1: int, k1: int, s2: int, c2: int, k2: int|
            is_place(a, s1, c1, k1) && is_place(a, s2, c2, k2) && #[trigger] id_at(a, s1, c1, k1)
                == #[trigger] id_at(a, s2, c2, k2) implies s1 == s2 && c1 == c2 && k1 == k2 by {
            lemma_same_place(a, b, s1, c1, k1);
            lemma_same_place(a, b, s2, c2, k2);
            assert(id_at(b, s1, c1, k1) == id_at(b, s2, c2, k2));
        }
    }
}

// ---------------------------------------------------------------------------------------------
// State
// ---------------------------------------------------------------------------------------------

/// How positions in ring buffers relate to timestamps when position 0 belongs to the timestamp
/// `start` and samples are delayed by the latency.
pub open spec fn shift_of(start: Option<Clock>, latency_samples: usize) -> ClockDiff {
    clock_diff(
        latency_samples as Clock,
        match start {
            Some(start) => start,
            None => 0,
        },
    ) as ClockDiff
}

fn compute_shift(start: Option<Clock>, latency_samples: usize) -> (shift: ClockDiff)
    ensures
        shift == shift_of(start, latency_samples),
{
    match start {
        Some(start) => wrapped_diff(latency_samples as Clock, start),
        None => wrapped_diff(latency_samples as Clock, 0),
    }
}

/// Whether the channel has the latency of its flow, and its samples are shifted accordingly.
pub open spec fn is_timed<P: ProxyToBuffer<Sample>>(
    ch: Option<Channel<P>>,
    latency_samples: usize,
    start: Option<Clock>,
) -> bool {
    ch matches Some(ch) ==> ch.latency_samples == latency_samples && ch.timestamp_shift == shift_of(
        start,
        latency_samples,
    )
}

/// Whether this holds of all the channels of a flow.
pub open spec fn is_socket_timed<P: ProxyToBuffer<Sample>>(sd: Option<SocketData<P>>, start: Option<Clock>) -> bool {
    sd matches Some(sd) ==> forall|c: int|
        0 <= c < sd.channels@.len() ==> is_timed(#[trigger] sd.channels@[c], sd.latency_samples, start)
}

/// Whether the samples of all the channels are shifted by the latency of their flow and by the
/// timestamp of position 0.
pub open spec fn all_timed<P: ProxyToBuffer<Sample>>(
    sockets: Seq<Option<SocketData<P>>>,
    start: Option<Clock>,
) -> bool {
    forall|s: int| 0 <= s < sockets.len() ==> is_socket_timed(#[trigger] sockets[s], start)
}

pub struct FlowsReceiverInternal<P: ProxyToBuffer<Sample>> {
    pub sockets: Vec<Option<SocketData<P>>>,
    pub silence_writers: Vec<SilenceWriter<P>>,
    pub sample_rate: u32,
    /// whether the timestamp of position 0 has still to be told
    pub waiting_for_start: bool,
    pub start_timestamp: Option<Clock>,
    /// whether somebody wants to be notified of transfers
    pub notifies: bool,
    pub may_have_command: bool,
    /// in nanoseconds, as all the times here
    pub closing_samples_interval: u64,
    pub next_closing_samples: u64,
    pub next_keepalive: u64,
    pub keepalive_index: usize,
}

/// How often missing samples are replaced by silence.
pub open spec fn closing_interval_of(max_interval_samples: Option<Clock>, sample_rate: u32) -> int {
    match max_interval_samples {
        Some(samples) => samples * 1_000_000_000 / sample_rate as int / 2,
        None => CLOSING_SAMPLES_INTERVAL as int,
    }
}

/// One flow after another is kept alive in this interval.
pub const KEEPALIVE_INTERVAL_BETWEEN_FLOWS: u64 = KEEPALIVE_INTERVAL / 32;

/// The time of the next event after the one which was due at `due` and happens at `now`.
pub open spec fn next_time(due: u64, interval: u64, now: u64) -> int {
    if due + interval <= now {
        now + interval
    } else {
        due + interval
    }
}

fn compute_next_time(due: u64, interval: u64, now: u64) -> (next: u64)
    requires
        due <= now,
        now + interval <= u64::MAX,
    ensures
        next == next_time(due, interval, now),
{
    if due + interval <= now {
        now + interval
    } else {
        due + interval
    }
}

impl<P: ProxyToBuffer<Sample>> FlowsReceiverInternal<P> {
    pub open spec fn wf(&self) -> bool {
        &&& self.sockets@.len() == MAX_FLOWS
        &&& self.keepalive_index < MAX_FLOWS
        &&& self.sample_rate > 0
        &&& forall|s: int| 0 <= s < MAX_FLOWS && #[trigger] self.sockets@[s] is Some ==> self.sockets@[s]->0.wf()
        &&& forall|w: int| 0 <= w < self.silence_writers@.len() ==> (#[trigger] self.silence_writers@[w]).sink.input.wf()
        &&& connected_once(self.sockets@)
        &&& silent_once(self.sockets@, self.silence_writers@)
        &&& all_timed(self.sockets@, self.start_timestamp)
    }

    /// Whether everything but flows and writers of silence is the same.
    pub open spec fn same_schedule(&self, other: &Self) -> bool {
        &&& self.sample_rate == other.sample_rate
        &&& self.notifies == other.notifies
        &&& self.closing_samples_interval == other.closing_samples_interval
        &&& self.next_closing_samples == other.next_closing_samples
        &&& self.next_keepalive == other.next_keepalive
        &&& self.keepalive_index == other.keepalive_index
    }

    pub fn new(
        sample_rate: u32,
        max_interval_samples: Option<Clock>,
        waiting_for_start: bool,
        now: u64,
    ) -> (receiver: Self)
        requires
            sample_rate > 0,
            max_interval_samples matches Some(samples) ==> samples * 1_000_000_000 <= u64::MAX,
            now + closing_interval_of(max_interval_samples, sample_rate) <= u64::MAX,
            now + KEEPALIVE_INTERVAL_BETWEEN_FLOWS <= u64::MAX,
        ensures
            receiver.wf(),
            forall|s: int| 0 <= s < MAX_FLOWS ==> #[trigger] receiver.sockets@[s] is None,
            receiver.silence_writers@.len() == 0,
            receiver.sample_rate == sample_rate,
            receiver.waiting_for_start == waiting_for_start,
            receiver.start_timestamp is None,
            receiver.notifies == (max_interval_samples is Some),
            !receiver.may_have_command,
            receiver.closing_samples_interval == closing_interval_of(max_interval_samples, sample_rate),
            receiver.next_closing_samples == now + receiver.closing_samples_interval,
            receiver.next_keepalive == now + KEEPALIVE_INTERVAL_BETWEEN_FLOWS,
            receiver.keepalive_index == 0,
    {
        let mut sockets: Vec<Option<SocketData<P>>> = Vec::new();
        let mut s: usize = 0;
        while s < MAX_FLOWS
            invariant
                s <= MAX_FLOWS,
                sockets@.len() == s,
                forall|t: int| 0 <= t < s ==> #[trigger] sockets@[t] is None,
            decreases MAX_FLOWS - s,
        {
            sockets.push(None);
            s = s + 1;
        }
        let closing_samples_interval: u64 = match max_interval_samples {
            Some(samples) => samples * 1_000_000_000 / sample_rate as u64 / 2,
            None => CLOSING_SAMPLES_INTERVAL,
        };
        FlowsReceiverInternal {
            sockets,
            silence_writers: Vec::new(),
            sample_rate,
            waiting_for_start,
            start_timestamp: None,
            notifies: max_interval_samples.is_some(),
            may_have_command: false,
            closing_samples_interval,
            next_closing_samples: now + closing_samples_interval,
            next_keepalive: now + KEEPALIVE_INTERVAL_BETWEEN_FLOWS,
            keepalive_index: 0,
        }
    }

    /// Whether anything is written to ring buffers.
    pub open spec fn is_writing(&self) -> bool {
        ||| exists|s: int| 0 <= s < self.sockets@.len() && #[trigger] self.sockets@[s] is Some
        ||| self.silence_writers@.len() > 0
    }

    /// How long to wait for packets; `None`: until one arrives, or a command.
    pub fn poll_timeout(&self) -> (timeout: Option<u64>)
        ensures
            timeout == if self.may_have_command || self.is_writing() || self.notifies {
                Some(self.closing_samples_interval)
            } else {
                None
            },
    {
        if self.may_have_command || self.notifies || self.silence_writers.len() > 0 {
            return Some(self.closing_samples_interval);
        }
        let mut s: usize = 0;
        while s < self.sockets.len()
            invariant
                s <= self.sockets@.len(),
                forall|t: int| 0 <= t < s ==> #[trigger] self.sockets@[t] is None,
            decreases self.sockets@.len() - s,
        {
            if self.sockets[s].is_some() {
                return Some(self.closing_samples_interval);
            }
            s = s + 1;
        }
        None
    }

    /// A command may have arrived.
    pub fn wake(&mut self)
        ensures
            *final(self) == (FlowsReceiverInternal { may_have_command: true, ..*old(self) }),
    {
        self.may_have_command = true;
    }

    /// A packet arrived at the socket `index`; `false` if it was ignored. As long as the
    /// timestamp of position 0 is not known, packets are not written to ring buffers.
    pub fn receive(
        &mut self,
        index: usize,
        packet: &[u8],
        source: SocketNumber,
        now: Option<Clock>,
        elapsed_seconds: usize,
    ) -> (received: bool)
        requires
            old(self).wf(),
            index < MAX_FLOWS,
            packet@.len() <= MTU,
            old(self).sockets@[index as int] is Some && !old(self).waiting_for_start && packet@.len()
                >= MEDIA_HEADER_LENGTH ==> old(self).sockets@[index as int]->0.can_hold(packet@.len() as int),
        ensures
            final(self).wf(),
            final(self).same_schedule(old(self)),
            final(self).silence_writers@ == old(self).silence_writers@,
            final(self).waiting_for_start == old(self).waiting_for_start,
            final(self).start_timestamp == old(self).start_timestamp,
            final(self).may_have_command == old(self).may_have_command,
            received == (old(self).sockets@[index as int] is Some && packet@.len() >= MEDIA_HEADER_LENGTH),
            !received ==> final(self).sockets@ == old(self).sockets@,
            received ==> ({
                let timestamp = crate::flows_rx::packet_timestamp(packet@, old(self).sample_rate) as Clock;
                let before = old(self).sockets@[index as int]->0;
                let after = final(self).sockets@[index as int]->0;
                &&& final(self).sockets@ == old(self).sockets@.update(index as int, Some(after))
                &&& after.last_source == Some(source)
                &&& after.actual_latency_samples == crate::flows_rx::greatest_latency(
                    before.actual_latency_samples,
                    now,
                    timestamp,
                )
                &&& after.send_keepalives == before.send_keepalives
                &&& after.bytes_per_sample == before.bytes_per_sample
                &&& after.latency_samples == before.latency_samples
                &&& after.last_packet_time == if old(self).waiting_for_start {
                    before.last_packet_time
                } else {
                    elapsed_seconds
                }
                &&& if old(self).waiting_for_start {
                    after.channels@ == before.channels@
                } else {
                    crate::flows_rx::channels_written(
                        before.channels@,
                        after.channels@,
                        packet@,
                        timestamp,
                        before.bytes_per_sample as int,
                    )
                }
            }),
    {
        let write: bool = !self.waiting_for_start;
        let sample_rate: u32 = self.sample_rate;
        let ghost before = self.sockets@;
        let mut received: bool = false;
        if let Some(socket_data) = &mut self.sockets[index] {
            received = socket_data.receive(packet, source, sample_rate, now, elapsed_seconds, write);
        }
        proof {
            let after = self.sockets@;
            assert(after =~= before.update(index as int, after[index as int]));
            assert forall|s: int| 0 <= s < after.len() implies same_socket(#[trigger] after[s], before[s]) by {
                if s == index && after[s] is Some {
                    let a = after[s]->0;
                    let b = before[s]->0;
                    assert forall|c: int| 0 <= c < a.channels@.len() implies same_places(
                        #[trigger] a.channels@[c],
                        b.channels@[c],
                    ) by {
                        lemma_same_sinks_reflexive(b.channels@[c]);
                    }
                } else {
                    lemma_same_socket_reflexive(before[s]);
                }
            }
            lemma_same_sockets(after, before);
        }
        received
    }

    /// The timestamp of position 0 became known.
    pub fn start_at(&mut self, start_time: Clock)
        requires
            old(self).wf(),
        ensures
            final(self).wf(),
            final(self).same_schedule(old(self)),
            final(self).silence_writers@ == old(self).silence_writers@,
            final(self).may_have_command == old(self).may_have_command,
            !final(self).waiting_for_start,
            final(self).start_timestamp == Some(start_time),
            final(self).sockets@.len() == old(self).sockets@.len(),
            forall|s: int|
                0 <= s < MAX_FLOWS ==> is_shifted(old(self).sockets@[s], #[trigger] final(self).sockets@[s], start_time),
    {
        self.start_timestamp = Some(start_time);
        self.waiting_for_start = false;
        let mut s: usize = 0;
        while s < self.sockets.len()
            invariant
                s <= self.sockets@.len(),
                self.sockets@.len() == MAX_FLOWS,
                old(self).wf(),
                old(self).sockets@.len() == MAX_FLOWS,
                self.same_schedule(old(self)),
                self.silence_writers@ == old(self).silence_writers@,
                self.may_have_command == old(self).may_have_command,
                !self.waiting_for_start,
                self.start_timestamp == Some(start_time),
                forall|t: int| s <= t < MAX_FLOWS ==> #[trigger] self.sockets@[t] == old(self).sockets@[t],
                forall|t: int|
                    0 <= t < s ==> is_shifted(old(self).sockets@[t], #[trigger] self.sockets@[t], start_time),
            decreases self.sockets@.len() - s,
        {
            let ghost before = self.sockets@;
            assert(before[s as int] == old(self).sockets@[s as int]);
            if let Some(sd) = &mut self.sockets[s] {
                shift_channels(&mut sd.channels, start_time);
            }
            assert(self.sockets@ =~= before.update(s as int, self.sockets@[s as int]));
            s = s + 1;
        }
        proof {
            let a = self.sockets@;
            let b = old(self).sockets@;
            assert forall|t: int| 0 <= t < a.len() implies same_socket(#[trigger] a[t], b[t]) && (a[t] is Some
                ==> a[t]->0.wf()) by {
                assert(is_shifted(b[t], a[t], start_time));
                if a[t] is Some {
                    assert(b[t] is Some);
                    assert forall|c: int| 0 <= c < a[t]->0.channels@.len() implies same_places(
                        #[trigger] a[t]->0.channels@[c],
                        b[t]->0.channels@[c],
                    ) by {
                        lemma_same_sinks_reflexive(b[t]->0.channels@[c]);
                    }
                    assert(channels_wf(a[t]->0.channels@)) by {
                        assert forall|c: int|
                            0 <= c < a[t]->0.channels@.len() && #[trigger] a[t]->0.channels@[c] is Some implies sinks_wf(
                            a[t]->0.channels@[c]->0.sinks@,
                        ) by {
                            assert(b[t]->0.channels@[c] is Some);
                        }
                    }
                }
            }
            lemma_same_sockets(a, b);
        }
    }
}

proof fn lemma_same_sinks_reflexive<P: ProxyToBuffer<Sample>>(ch: Option<Channel<P>>)
    ensures
        same_places(ch, ch),
{
}

proof fn lemma_same_socket_reflexive<P: ProxyToBuffer<Sample>>(sd: Option<SocketData<P>>)
    ensures
        same_socket(sd, sd),
{
}

/// Whether nothing but the shift of timestamps was changed, by the timestamp of position 0.
pub open spec fn is_shifted<P: ProxyToBuffer<Sample>>(
    before: Option<SocketData<P>>,
    after: Option<SocketData<P>>,
    start_time: Clock,
) -> bool {
    &&& before is Some <==> after is Some
    &&& before is Some ==> {
        &&& after->0 == (SocketData { channels: after->0.channels, ..before->0 })
        &&& after->0.channels@.len() == before->0.channels@.len()
        &&& forall|c: int|
            0 <= c < before->0.channels@.len() ==> is_channel_shifted(
                before->0.channels@[c],
                #[trigger] after->0.channels@[c],
                start_time,
            )
    }
}

pub open spec fn is_channel_shifted<P: ProxyToBuffer<Sample>>(
    before: Option<Channel<P>>,
    after: Option<Channel<P>>,
    start_time: Clock,
) -> bool {
    &&& before is Some <==> after is Some
    &&& before is Some ==> after->0 == (Channel {
        timestamp_shift: shift_of(Some(start_time), before->0.latency_samples),
        ..before->0
    })
}

fn shift_channels<P: ProxyToBuffer<Sample>>(channels: &mut Vec<Option<Channel<P>>>, start_time: Clock)
    ensures
        final(channels)@.len() == old(channels)@.len(),
        forall|c: int|
            0 <= c < final(channels)@.len() ==> is_channel_shifted(
                old(channels)@[c],
                #[trigger] final(channels)@[c],
                start_time,
            ),
{
    let mut c: usize = 0;
    while c < channels.len()
        invariant
            c <= channels@.len(),
            channels@.len() == old(channels)@.len(),
            forall|d: int| c <= d < channels@.len() ==> #[trigger] channels@[d] == old(channels)@[d],
            forall|d: int|
                0 <= d < c ==> is_channel_shifted(old(channels)@[d], #[trigger] channels@[d], start_time),
        decreases channels@.len() - c,
    {
        let ghost before = channels@;
        assert(before[c as int] == old(channels)@[c as int]);
        if let Some(channel) = &mut channels[c] {
            channel.timestamp_shift = compute_shift(Some(start_time), channel.latency_samples);
        }
        assert(channels@ =~= before.update(c as int, channels@[c as int]));
        c = c + 1;
    }
}

/// The position where the sample of a timestamp belongs: as far after position 0 as the timestamp
/// is after the one of position 0, and the latency further.
pub open spec fn position_of_sample(timestamp: Clock, start: Option<Clock>, latency_samples: usize) -> usize {
    let start: Clock = match start {
        Some(start) => start,
        None => 0,
    };
    clock_position(((timestamp - start + latency_samples) % clock_modulus()) as Clock)
}

/// Wherever a ring buffer is connected, and whether it was connected before or after the timestamp
/// of position 0 became known, a packet is written to it where its timestamp belongs.
pub proof fn packets_are_written_at_their_time<P: ProxyToBuffer<Sample>>(
    receiver: FlowsReceiverInternal<P>,
    s: int,
    c: int,
    k: int,
    timestamp: Clock,
)
    requires
        receiver.wf(),
        is_place(receiver.sockets@, s, c, k),
    ensures
        shifted_position(timestamp, receiver.sockets@[s]->0.channels@[c]->0.timestamp_shift) == position_of_sample(
            timestamp,
            receiver.start_timestamp,
            receiver.sockets@[s]->0.latency_samples,
        ),
{
    let sd = receiver.sockets@[s];
    assert(is_socket_timed(sd, receiver.start_timestamp));
    assert(is_timed(sd->0.channels@[c], sd->0.latency_samples, receiver.start_timestamp));
    let start: Clock = match receiver.start_timestamp {
        Some(start) => start,
        None => 0,
    };
    let m = clock_modulus();
    let l = sd->0.latency_samples as int;
    let shift = sd->0.channels@[c]->0.timestamp_shift;
    crate::common::lemma_signed_residue_within_turn(l - start, m);
    let sum = timestamp - start + l;
    if sum < 0 {
        vstd::arithmetic::div_mod::lemma_mod_add_multiples_vanish(sum, m);
        vstd::arithmetic::div_mod::lemma_small_mod((sum + m) as nat, m as nat);
    } else if sum >= m {
        vstd::arithmetic::div_mod::lemma_mod_sub_multiples_vanish(sum, m);
        vstd::arithmetic::div_mod::lemma_small_mod((sum - m) as nat, m as nat);
    } else {
        vstd::arithmetic::div_mod::lemma_small_mod(sum as nat, m as nat);
    }
}

// ---------------------------------------------------------------------------------------------
// Commands
// ---------------------------------------------------------------------------------------------

/// Whether the writer `w` is the first one with the number.
pub open spec fn is_writer_of<P: ProxyToBuffer<Sample>>(writers: Seq<SilenceWriter<P>>, w: int, id: usize) -> bool {
    &&& 0 <= w < writers.len()
    &&& writers[w].sink.id == id
    &&& forall|v: int| 0 <= v < w ==> (#[trigger] writers[v]).sink.id != id
}

/// Whether no writer has the number.
pub open spec fn has_no_writer<P: ProxyToBuffer<Sample>>(writers: Seq<SilenceWriter<P>>, id: usize) -> bool {
    forall|v: int| 0 <= v < writers.len() ==> (#[trigger] writers[v]).sink.id != id
}

/// Whether `used` is the sink which is really connected when `sink` is to be: the one which has been
/// writing silence to the same ring buffer, else `sink` itself, starting anew.
pub open spec fn is_used_sink<P: ProxyToBuffer<Sample>>(
    used: Sink<P>,
    sink: Sink<P>,
    writers: Seq<SilenceWriter<P>>,
    now: Option<Clock>,
    shift: ClockDiff,
) -> bool {
    &&& forall|w: int| #[trigger] is_writer_of(writers, w, sink.id) ==> used == writers[w].sink
    &&& has_no_writer(writers, sink.id) ==> {
        &&& used.id == sink.id
        &&& used.input.same_frame(&sink.input)
        &&& used.input.state() == match now {
            Some(now) => RingState {
                readable: shifted_position(now, shift),
                writing: shifted_position(now, shift),
                ..sink.input.state()
            },
            None => sink.input.state(),
        }
    }
}

/// The writers after the one with the number was taken away.
pub open spec fn without_writer<P: ProxyToBuffer<Sample>>(
    before: Seq<SilenceWriter<P>>,
    after: Seq<SilenceWriter<P>>,
    id: usize,
) -> bool {
    &&& forall|w: int| #[trigger]
        is_writer_of(before, w, id) ==> after == before.update(w, before.last()).drop_last()
    &&& has_no_writer(before, id) ==> after == before
}

/// Whether the sink was connected to a channel of a flow.
pub open spec fn is_connected_to<P: ProxyToBuffer<Sample>>(
    before: Option<Channel<P>>,
    after: Option<Channel<P>>,
    used: Sink<P>,
    latency_samples: usize,
    shift: ClockDiff,
) -> bool {
    &&& after is Some
    &&& match before {
        None => {
            &&& after->0.sinks@ == seq![used]
            &&& after->0.latency_samples == latency_samples
            &&& after->0.timestamp_shift == shift
        },
        Some(ch) => {
            &&& after->0.sinks@ == ch.sinks@.push(used)
            &&& after->0.latency_samples == ch.latency_samples
            &&& after->0.timestamp_shift == ch.timestamp_shift
        },
    }
}

/// Whether the first sink with the number is at `k`.
pub open spec fn is_sink_of<P: ProxyToBuffer<Sample>>(sinks: Seq<Sink<P>>, k: int, id: usize) -> bool {
    &&& 0 <= k < sinks.len()
    &&& sinks[k].id == id
    &&& forall|j: int| 0 <= j < k ==> (#[trigger] sinks[j]).id != id
}

/// The end of silence after a ring buffer of the given size was disconnected.
pub open spec fn silence_end(now: Clock, size: int, shift: ClockDiff) -> Clock {
    now.wrapping_add((size + size / 2) as Clock).wrapping_add_signed(shift)
}

fn connect_sink<P: ProxyToBuffer<Sample>>(
    channels: &mut Vec<Option<Channel<P>>>,
    c: usize,
    sink: Sink<P>,
    latency_samples: usize,
    shift: ClockDiff,
)
    requires
        c < old(channels)@.len(),
        channels_wf(old(channels)@),
        sink.input.wf(),
    ensures
        channels_wf(final(channels)@),
        final(channels)@ == old(channels)@.update(c as int, final(channels)@[c as int]),
        is_connected_to(old(channels)@[c as int], final(channels)@[c as int], sink, latency_samples, shift),
{
    let ghost before = channels@;
    if channels[c].is_some() {
        if let Some(channel) = &mut channels[c] {
            channel.sinks.push(sink);
        }
    } else {
        let mut sinks: Vec<Sink<P>> = Vec::new();
        sinks.push(sink);
        assert(sinks@ =~= seq![sink]);
        channels.set(c, Some(Channel { sinks, latency_samples, timestamp_shift: shift }));
    }
    assert(channels@ =~= before.update(c as int, channels@[c as int]));
}

/// Takes the sink `k` out of a channel; returns it with the shift of timestamps of the channel.
fn disconnect_sink<P: ProxyToBuffer<Sample>>(
    channels: &mut Vec<Option<Channel<P>>>,
    c: usize,
    k: usize,
    id: usize,
) -> (removed: Option<(Sink<P>, ClockDiff)>)
    requires
        c < old(channels)@.len(),
        channels_wf(old(channels)@),
        old(channels)@[c as int] is Some,
        is_sink_of(old(channels)@[c as int]->0.sinks@, k as int, id),
    ensures
        channels_wf(final(channels)@),
        final(channels)@ == old(channels)@.update(c as int, final(channels)@[c as int]),
        removed is Some,
        is_disconnected_from(old(channels)@[c as int], final(channels)@[c as int], removed->0, id),
        removed matches Some(r) ==> r.0.input.wf(),
{
    let ghost before = channels@;
    let mut removed: Option<(Sink<P>, ClockDiff)> = None;
    if let Some(ch) = &mut channels[c] {
        let sink = ch.sinks.swap_remove(k);
        removed = Some((sink, ch.timestamp_shift));
    }
    assert(channels@ =~= before.update(c as int, channels@[c as int]));
    removed
}

/// Whether the sink `removed` with the number was taken out of the channel.
pub open spec fn is_disconnected_from<P: ProxyToBuffer<Sample>>(
    before: Option<Channel<P>>,
    after: Option<Channel<P>>,
    removed: (Sink<P>, ClockDiff),
    id: usize,
) -> bool {
    &&& before is Some
    &&& after is Some
    &&& removed.1 == before->0.timestamp_shift
    &&& after->0.timestamp_shift == before->0.timestamp_shift
    &&& after->0.latency_samples == before->0.latency_samples
    &&& exists|k: int| #[trigger]
        is_sink_of(before->0.sinks@, k, id) && removed.0 == before->0.sinks@[k] && after->0.sinks@
            == before->0.sinks@.update(k, before->0.sinks@.last()).drop_last()
}

/// Whether nothing but a channel of a flow was changed.
pub open spec fn is_channel_changed<P: ProxyToBuffer<Sample>>(
    before: Seq<Option<SocketData<P>>>,
    after: Seq<Option<SocketData<P>>>,
    s: int,
    c: int,
) -> bool {
    let a = after[s]->0;
    let b = before[s]->0;
    &&& before[s] is Some
    &&& after[s] is Some
    &&& after == before.update(s, after[s])
    &&& a == (SocketData { channels: a.channels, ..b })
    &&& a.channels@ == b.channels@.update(c, a.channels@[c])
}

/// Whether the sink was connected to a channel of a flow.
pub open spec fn is_connection<P: ProxyToBuffer<Sample>>(
    before: FlowsReceiverInternal<P>,
    after: FlowsReceiverInternal<P>,
    s: int,
    c: int,
    sink: Sink<P>,
    now: Option<Clock>,
) -> bool {
    let latency_samples = before.sockets@[s]->0.latency_samples;
    let shift = shift_of(before.start_timestamp, latency_samples);
    &&& is_channel_changed(before.sockets@, after.sockets@, s, c)
    &&& without_writer(before.silence_writers@, after.silence_writers@, sink.id)
    &&& exists|used: Sink<P>| #[trigger]
        is_used_sink(used, sink, before.silence_writers@, now, shift) && is_connected_to(
            before.sockets@[s]->0.channels@[c],
            after.sockets@[s]->0.channels@[c],
            used,
            latency_samples,
            shift,
        )
}

/// Whether the sink `r` with the number was taken out of a channel, and silence is written to it if
/// it is known until when.
pub open spec fn is_removal<P: ProxyToBuffer<Sample>>(
    before: Seq<Option<SocketData<P>>>,
    after: Seq<Option<SocketData<P>>>,
    writers_before: Seq<SilenceWriter<P>>,
    writers_after: Seq<SilenceWriter<P>>,
    s: int,
    c: int,
    id: usize,
    now: Option<Clock>,
    r: (Sink<P>, ClockDiff),
) -> bool {
    &&& is_channel_changed(before, after, s, c)
    &&& is_disconnected_from(before[s]->0.channels@[c], after[s]->0.channels@[c], r, id)
    &&& writers_after == match now {
        Some(now) => writers_before.push(
            SilenceWriter {
                sink: r.0,
                end_timestamp: silence_end(now, r.0.input.spec_shared().size(), r.1),
            },
        ),
        None => writers_before,
    }
}

/// Whether the sink with the number was disconnected from a channel of a flow; nothing changes
/// where it was not connected.
pub open spec fn is_disconnection<P: ProxyToBuffer<Sample>>(
    before: Seq<Option<SocketData<P>>>,
    after: Seq<Option<SocketData<P>>>,
    writers_before: Seq<SilenceWriter<P>>,
    writers_after: Seq<SilenceWriter<P>>,
    s: int,
    c: int,
    id: usize,
    now: Option<Clock>,
) -> bool {
    if before[s] is Some && before[s]->0.channels@[c] is Some && exists|k: int|
        is_sink_of(before[s]->0.channels@[c]->0.sinks@, k, id) {
        exists|r: (Sink<P>, ClockDiff)| #[trigger]
            is_removal(before, after, writers_before, writers_after, s, c, id, now, r)
    } else {
        after == before && writers_after == writers_before
    }
}

/// Where there are no other places than before, each sink is connected once as before.
proof fn lemma_fewer_places<P: ProxyToBuffer<Sample>>(
    before: Seq<Option<SocketData<P>>>,
    after: Seq<Option<SocketData<P>>>,
)
    requires
        connected_once(before),
        forall|s: int, c: int, k: int|
            is_place(after, s, c, k) ==> is_place(before, s, c, k) && #[trigger] id_at(after, s, c, k) == id_at(
                before,
                s,
                c,
                k,
            ),
    ensures
        connected_once(after),
        forall|id: usize| #[trigger] is_connected(after, id) ==> is_connected(before, id),
{
    assert forall|s1: int, c1: int, k1: int, s2: int, c2: int, k2: int|
        is_place(after, s1, c1, k1) && is_place(after, s2, c2, k2) && #[trigger] id_at(after, s1, c1, k1)
            == #[trigger] id_at(after, s2, c2, k2) implies s1 == s2 && c1 == c2 && k1 == k2 by {
        assert(id_at(before, s1, c1, k1) == id_at(before, s2, c2, k2));
    }
    assert forall|id: usize| #[trigger] is_connected(after, id) implies is_connected(before, id) by {
        let (s, c, k) = choose|s: int, c: int, k: int|
            is_place(after, s, c, k) && #[trigger] id_at(after, s, c, k) == id;
        assert(is_place(before, s, c, k) && id_at(before, s, c, k) == id);
    }
}

/// A sink which was not connected is connected once after it was added to a channel.
proof fn lemma_one_more_place<P: ProxyToBuffer<Sample>>(
    before: Seq<Option<SocketData<P>>>,
    after: Seq<Option<SocketData<P>>>,
    s: int,
    c: int,
    id: usize,
)
    requires
        connected_once(before),
        !is_connected(before, id),
        0 <= s < before.len(),
        is_channel_changed(before, after, s, c),
        0 <= c < before[s]->0.channels@.len(),
        ({
            let old_sinks = match before[s]->0.channels@[c] {
                Some(ch) => ch.sinks@,
                None => Seq::empty(),
            };
            let new_sinks = after[s]->0.channels@[c]->0.sinks@;
            &&& after[s]->0.channels@[c] is Some
            &&& new_sinks.len() == old_sinks.len() + 1
            &&& new_sinks.drop_last() == old_sinks
            &&& new_sinks.last().id == id
        }),
    ensures
        connected_once(after),
        forall|x: usize| #[trigger] is_connected(after, x) ==> is_connected(before, x) || x == id,
{
    let last = after[s]->0.channels@[c]->0.sinks@.len() - 1;
    assert forall|t: int, d: int, k: int| is_place(after, t, d, k) && !(t == s && d == c && k == last) implies is_place(
        before,
        t,
        d,
        k,
    ) && #[trigger] id_at(after, t, d, k) == id_at(before, t, d, k) by {
        if t == s && d == c {
            assert(after[s]->0.channels@[c]->0.sinks@.drop_last()[k] == after[s]->0.channels@[c]->0.sinks@[k]);
        }
    }
    assert forall|s1: int, c1: int, k1: int, s2: int, c2: int, k2: int|
        is_place(after, s1, c1, k1) && is_place(after, s2, c2, k2) && #[trigger] id_at(after, s1, c1, k1)
            == #[trigger] id_at(after, s2, c2, k2) implies s1 == s2 && c1 == c2 && k1 == k2 by {
        let new1 = s1 == s && c1 == c && k1 == last;
        let new2 = s2 == s && c2 == c && k2 == last;
        if !new1 {
            assert(id_at(before, s1, c1, k1) == id_at(after, s1, c1, k1));
        }
        if !new2 {
            assert(id_at(before, s2, c2, k2) == id_at(after, s2, c2, k2));
        }
    }
    assert forall|x: usize| #[trigger] is_connected(after, x) implies is_connected(before, x) || x == id by {
        let (t, d, k) = choose|t: int, d: int, k: int|
            is_place(after, t, d, k) && #[trigger] id_at(after, t, d, k) == x;
        if !(t == s && d == c && k == last) {
            assert(is_place(before, t, d, k) && id_at(before, t, d, k) == x);
        }
    }
}

/// A sink is not connected any more after it was taken out of its channel.
proof fn lemma_one_place_less<P: ProxyToBuffer<Sample>>(
    before: Seq<Option<SocketData<P>>>,
    after: Seq<Option<SocketData<P>>>,
    s: int,
    c: int,
    r: (Sink<P>, ClockDiff),
    id: usize,
)
    requires
        connected_once(before),
        0 <= s < before.len(),
        is_channel_changed(before, after, s, c),
        0 <= c < before[s]->0.channels@.len(),
        is_disconnected_from(before[s]->0.channels@[c], after[s]->0.channels@[c], r, id),
    ensures
        connected_once(after),
        forall|x: usize| #[trigger] is_connected(after, x) ==> is_connected(before, x) && x != id,
        is_connected(before, id),
        r.0.id == id,
{
    let old_sinks = before[s]->0.channels@[c]->0.sinks@;
    let new_sinks = after[s]->0.channels@[c]->0.sinks@;
    let removed = choose|k: int| #[trigger]
        is_sink_of(old_sinks, k, id) && r.0 == old_sinks[k] && new_sinks == old_sinks.update(
            k,
            old_sinks.last(),
        ).drop_last();
    let origin = |t: int, d: int, k: int|
        if t == s && d == c && k == removed {
            old_sinks.len() - 1
        } else {
            k
        };
    assert(is_place(before, s, c, removed) && id_at(before, s, c, removed) == id);
    assert forall|t: int, d: int, k: int| is_place(after, t, d, k) implies is_place(before, t, d, origin(t, d, k))
        && #[trigger] id_at(after, t, d, k) == id_at(before, t, d, origin(t, d, k)) && !(t == s && d == c && origin(
        t,
        d,
        k,
    ) == removed) by {}
    assert forall|s1: int, c1: int, k1: int, s2: int, c2: int, k2: int|
        is_place(after, s1, c1, k1) && is_place(after, s2, c2, k2) && #[trigger] id_at(after, s1, c1, k1)
            == #[trigger] id_at(after, s2, c2, k2) implies s1 == s2 && c1 == c2 && k1 == k2 by {
        assert(id_at(before, s1, c1, origin(s1, c1, k1)) == id_at(before, s2, c2, origin(s2, c2, k2)));
    }
    assert forall|x: usize| #[trigger] is_connected(after, x) implies is_connected(before, x) && x != id by {
        let (t, d, k) = choose|t: int, d: int, k: int|
            is_place(after, t, d, k) && #[trigger] id_at(after, t, d, k) == x;
        let o = origin(t, d, k);
        assert(is_place(before, t, d, o) && id_at(before, t, d, o) == x);
        if x == id {
            assert(id_at(before, t, d, o) == id_at(before, s, c, removed));
        }
    }
}

impl<P: ProxyToBuffer<Sample>> FlowsReceiverInternal<P> {
    /// Whether a command can be executed.
    pub open spec fn can_execute(&self, command: Command<P>) -> bool {
        match command {
            Command::AddSocket { index, socket } => {
                &&& index < MAX_FLOWS
                &&& self.sockets@[index as int] is None
                &&& socket.wf()
                &&& forall|c: int| 0 <= c < socket.channels@.len() ==> #[trigger] socket.channels@[c] is None
            },
            Command::RemoveSocket { index } => {
                &&& index < MAX_FLOWS
                &&& self.sockets@[index as int] is Some
            },
            Command::ConnectChannel { socket_index, channel_in_flow, sink } => {
                &&& socket_index < MAX_FLOWS
                &&& self.sockets@[socket_index as int] is Some
                &&& channel_in_flow < self.sockets@[socket_index as int]->0.channels@.len()
                &&& sink.input.wf()
                &&& !is_connected(self.sockets@, sink.id)
            },
            Command::DisconnectChannel { socket_index, channel_in_flow, sink_id: _ } => {
                &&& socket_index < MAX_FLOWS
                &&& self.sockets@[socket_index as int] is Some ==> channel_in_flow
                    < self.sockets@[socket_index as int]->0.channels@.len()
            },
            _ => true,
        }
    }

    /// Whether nothing but flows and writers of silence was changed.
    pub open spec fn same_but_flows(&self, other: &Self) -> bool {
        &&& self.same_schedule(other)
        &&& self.waiting_for_start == other.waiting_for_start
        &&& self.start_timestamp == other.start_timestamp
        &&& self.may_have_command == other.may_have_command
    }

    /// A flow is received from now on.
    pub fn add_socket(&mut self, index: usize, socket: SocketData<P>)
        requires
            old(self).wf(),
            old(self).can_execute((Command::AddSocket { index, socket })),
        ensures
            final(self).wf(),
            final(self).same_but_flows(old(self)),
            final(self).silence_writers@ == old(self).silence_writers@,
            final(self).sockets@ == old(self).sockets@.update(index as int, Some(socket)),
    {
        let ghost before = self.sockets@;
        self.sockets.set(index, Some(socket));
        proof {
            let after = self.sockets@;
            assert forall|s: int, c: int, k: int| is_place(after, s, c, k) implies is_place(before, s, c, k)
                && #[trigger] id_at(after, s, c, k) == id_at(before, s, c, k) by {}
            lemma_fewer_places(before, after);
        }
    }

    /// A flow is not received any more.
    pub fn remove_socket(&mut self, index: usize)
        requires
            old(self).wf(),
            old(self).can_execute((Command::RemoveSocket { index })),
        ensures
            final(self).wf(),
            final(self).same_but_flows(old(self)),
            final(self).silence_writers@ == old(self).silence_writers@,
            final(self).sockets@ == old(self).sockets@.update(index as int, None),
    {
        let ghost before = self.sockets@;
        self.sockets.set(index, None);
        proof {
            let after = self.sockets@;
            assert forall|s: int, c: int, k: int| is_place(after, s, c, k) implies is_place(before, s, c, k)
                && #[trigger] id_at(after, s, c, k) == id_at(before, s, c, k) by {}
            lemma_fewer_places(before, after);
        }
    }

    fn find_writer(&self, id: usize) -> (index: Option<usize>)
        ensures
            index matches Some(w) ==> is_writer_of(self.silence_writers@, w as int, id),
            index is None ==> has_no_writer(self.silence_writers@, id),
    {
        let mut w: usize = 0;
        while w < self.silence_writers.len()
            invariant
                w <= self.silence_writers@.len(),
                forall|v: int| 0 <= v < w ==> (#[trigger] self.silence_writers@[v]).sink.id != id,
            decreases self.silence_writers@.len() - w,
        {
            if self.silence_writers[w].sink.id == id {
                return Some(w);
            }
            w = w + 1;
        }
        None
    }

    /// The sink which is really connected, see `is_used_sink`.
    fn choose_sink(&mut self, sink: Sink<P>, now: Option<Clock>, shift: ClockDiff) -> (used: Sink<P>)
        requires
            old(self).wf(),
            sink.input.wf(),
            !is_connected(old(self).sockets@, sink.id),
        ensures
            final(self).wf(),
            final(self).same_but_flows(old(self)),
            final(self).sockets@ == old(self).sockets@,
            used.input.wf(),
            used.id == sink.id,
            is_used_sink(used, sink, old(self).silence_writers@, now, shift),
            without_writer(old(self).silence_writers@, final(self).silence_writers@, sink.id),
            has_no_writer(final(self).silence_writers@, sink.id),
    {
        let ghost writers = self.silence_writers@;
        let existing = self.find_writer(sink.id);
        match existing {
            Some(w) => {
                let writer = self.silence_writers.swap_remove(w);
                proof {
                    let after = self.silence_writers@;
                    assert(after.len() == writers.len() - 1);
                    assert forall|v: int| 0 <= v < after.len() implies #[trigger] after[v] == writers[if v == w {
                        writers.len() - 1
                    } else {
                        v
                    }] by {}
                    assert forall|x: int| #[trigger] is_writer_of(writers, x, sink.id) implies x == w by {
                        assert(x <= w && w <= x);
                    }
                }
                writer.sink
            },
            None => {
                let mut sink = sink;
                if let Some(now) = now {
                    sink.input.reset(position_of_clock(now.wrapping_add_signed(shift)));
                }
                sink
            },
        }
    }

    /// A ring buffer receives a channel of a flow from now on.
    pub fn connect_channel(&mut self, socket_index: usize, channel_in_flow: usize, sink: Sink<P>, now: Option<Clock>)
        requires
            old(self).wf(),
            old(self).can_execute((Command::ConnectChannel { socket_index, channel_in_flow, sink })),
        ensures
            final(self).wf(),
            final(self).same_but_flows(old(self)),
            is_connection(
                *old(self),
                *final(self),
                socket_index as int,
                channel_in_flow as int,
                sink,
                now,
            ),
    {
        let mut latency_samples: usize = 0;
        if let Some(socket) = &self.sockets[socket_index] {
            latency_samples = socket.latency_samples;
        }
        let shift: ClockDiff = compute_shift(self.start_timestamp, latency_samples);
        let used = self.choose_sink(sink, now, shift);
        let ghost before = self.sockets@;
        let ghost id = used.id;
        assert(is_used_sink(used, sink, old(self).silence_writers@, now, shift));
        if let Some(socket) = &mut self.sockets[socket_index] {
            connect_sink(&mut socket.channels, channel_in_flow, used, latency_samples, shift);
        }
        proof {
            let after = self.sockets@;
            assert(after =~= before.update(socket_index as int, after[socket_index as int]));
            let old_channel = before[socket_index as int]->0.channels@[channel_in_flow as int];
            let new_sinks = after[socket_index as int]->0.channels@[channel_in_flow as int]->0.sinks@;
            assert(new_sinks.drop_last() =~= match old_channel {
                Some(ch) => ch.sinks@,
                None => Seq::empty(),
            });
            lemma_one_more_place(before, after, socket_index as int, channel_in_flow as int, id);
        }
    }

    /// A ring buffer does not receive a channel any more. Silence is written to it until
    /// everything in it is overwritten.
    pub fn disconnect_channel(
        &mut self,
        socket_index: usize,
        channel_in_flow: usize,
        sink_id: usize,
        now: Option<Clock>,
    )
        requires
            old(self).wf(),
            old(self).can_execute((Command::DisconnectChannel { socket_index, channel_in_flow, sink_id })),
        ensures
            final(self).wf(),
            final(self).same_but_flows(old(self)),
            is_disconnection(
                old(self).sockets@,
                final(self).sockets@,
                old(self).silence_writers@,
                final(self).silence_writers@,
                socket_index as int,
                channel_in_flow as int,
                sink_id,
                now,
            ),
    {
        let ghost before = self.sockets@;
        let ghost writers = self.silence_writers@;
        let mut place: Option<usize> = None;
        if let Some(sd) = &self.sockets[socket_index] {
            if let Some(ch) = &sd.channels[channel_in_flow] {
                place = find_sink(&ch.sinks, sink_id);
            }
        }
        let k: usize = match place {
            Some(k) => k,
            None => {
                return;
            },
        };
        assert(is_sink_of(
            before[socket_index as int]->0.channels@[channel_in_flow as int]->0.sinks@,
            k as int,
            sink_id,
        ));
        let mut removed: Option<(Sink<P>, ClockDiff)> = None;
        if let Some(sd) = &mut self.sockets[socket_index] {
            removed = disconnect_sink(&mut sd.channels, channel_in_flow, k, sink_id);
        }
        assert(self.sockets@ =~= before.update(socket_index as int, self.sockets@[socket_index as int]));
        match removed {
            Some(r) => {
                let (sink, shift) = r;
                proof {
                    lemma_one_place_less(
                        before,
                        self.sockets@,
                        socket_index as int,
                        channel_in_flow as int,
                        r,
                        sink_id,
                    );
                }
                if let Some(now) = now {
                    let rb_size: u64 = sink.input.ring_buffer_size() as u64;
                    proof {
                        sink.input.lemma_size();
                    }
                    let end_timestamp: Clock = now.wrapping_add(rb_size + rb_size / 2).wrapping_add_signed(shift);
                    self.silence_writers.push(SilenceWriter { sink, end_timestamp });
                }
                assert(is_channel_changed(
                    before,
                    self.sockets@,
                    socket_index as int,
                    channel_in_flow as int,
                ));
                assert(is_removal(
                    before,
                    self.sockets@,
                    writers,
                    self.silence_writers@,
                    socket_index as int,
                    channel_in_flow as int,
                    sink_id,
                    now,
                    r,
                ));
            },
            None => {},
        }
    }
}

/// What came out of the queue of commands.
pub enum Incoming<P: ProxyToBuffer<Sample>> {
    Command(Command<P>),
    Empty,
    Disconnected,
}

/// Whether the command was executed.
pub open spec fn is_executed<P: ProxyToBuffer<Sample>>(
    before: FlowsReceiverInternal<P>,
    after: FlowsReceiverInternal<P>,
    command: Command<P>,
    now: Option<Clock>,
) -> bool {
    &&& after.same_but_flows(&before)
    &&& match command {
        Command::AddSocket { index, socket } => {
            &&& after.silence_writers@ == before.silence_writers@
            &&& after.sockets@ == before.sockets@.update(index as int, Some(socket))
        },
        Command::RemoveSocket { index } => {
            &&& after.silence_writers@ == before.silence_writers@
            &&& after.sockets@ == before.sockets@.update(index as int, None)
        },
        Command::ConnectChannel { socket_index, channel_in_flow, sink } => is_connection(
            before,
            after,
            socket_index as int,
            channel_in_flow as int,
            sink,
            now,
        ),
        Command::DisconnectChannel { socket_index, channel_in_flow, sink_id } => is_disconnection(
            before.sockets@,
            after.sockets@,
            before.silence_writers@,
            after.silence_writers@,
            socket_index as int,
            channel_in_flow as int,
            sink_id,
            now,
        ),
        _ => after == before,
    }
}

impl<P: ProxyToBuffer<Sample>> FlowsReceiverInternal<P> {
    /// Does what a command asks for, if there is one; `false` if the receiver has to stop.
    pub fn handle_command(&mut self, incoming: Incoming<P>, now: Option<Clock>) -> (go_on: bool)
        requires
            old(self).wf(),
            incoming matches Incoming::Command(command) ==> old(self).can_execute(command),
        ensures
            final(self).wf(),
            go_on == !(incoming is Disconnected || (incoming matches Incoming::Command(command)
                && command is Shutdown)),
            incoming is Disconnected ==> *final(self) == *old(self),
            incoming is Empty ==> *final(self) == (FlowsReceiverInternal { may_have_command: false, ..*old(self) }),
            incoming matches Incoming::Command(command) ==> is_executed(*old(self), *final(self), command, now),
    {
        match incoming {
            Incoming::Command(command) => match command {
                Command::Shutdown => false,
                Command::AddSocket { index, socket } => {
                    self.add_socket(index, socket);
                    true
                },
                Command::RemoveSocket { index } => {
                    self.remove_socket(index);
                    true
                },
                Command::ConnectChannel { socket_index, channel_in_flow, sink } => {
                    self.connect_channel(socket_index, channel_in_flow, sink, now);
                    true
                },
                Command::DisconnectChannel { socket_index, channel_in_flow, sink_id } => {
                    self.disconnect_channel(socket_index, channel_in_flow, sink_id, now);
                    true
                },
                Command::NoOp => true,
            },
            Incoming::Empty => {
                self.may_have_command = false;
                true
            },
            Incoming::Disconnected => false,
        }
    }
}

// ---------------------------------------------------------------------------------------------
// Silence
// ---------------------------------------------------------------------------------------------

/// Whether all the ring buffers of the flows were closed up to the position.
pub open spec fn sockets_closed<P: ProxyToBuffer<Sample>>(
    before: Seq<Option<SocketData<P>>>,
    after: Seq<Option<SocketData<P>>>,
    position: usize,
) -> bool {
    &&& after.len() == before.len()
    &&& forall|s: int| 0 <= s < after.len() ==> socket_closed(before[s], #[trigger] after[s], position)
}

pub open spec fn socket_closed<P: ProxyToBuffer<Sample>>(
    before: Option<SocketData<P>>,
    after: Option<SocketData<P>>,
    position: usize,
) -> bool {
    &&& before is Some <==> after is Some
    &&& before is Some ==> {
        &&& after->0 == (SocketData { channels: after->0.channels, ..before->0 })
        &&& channels_closed(before->0.channels@, after->0.channels@, position)
    }
}

/// Whether silence was written up to the position.
pub open spec fn writers_closed<P: ProxyToBuffer<Sample>>(
    before: Seq<SilenceWriter<P>>,
    after: Seq<SilenceWriter<P>>,
    position: usize,
) -> bool {
    &&& after.len() == before.len()
    &&& forall|w: int| 0 <= w < after.len() ==> writer_closed(before[w], #[trigger] after[w], position)
}

pub open spec fn writer_closed<P: ProxyToBuffer<Sample>>(
    before: SilenceWriter<P>,
    after: SilenceWriter<P>,
    position: usize,
) -> bool {
    &&& after.end_timestamp == before.end_timestamp
    &&& after.sink.id == before.sink.id
    &&& after.sink.input.same_frame(&before.sink.input)
    &&& after.sink.input.state() == before.sink.input.state().closed_items_until(position)
}

/// The last one of the first `n` writers whose work is done.
pub open spec fn last_finished<P: ProxyToBuffer<Sample>>(
    writers: Seq<SilenceWriter<P>>,
    ts: Clock,
    n: int,
) -> Option<int>
    decreases n,
{
    if n <= 0 {
        None
    } else if clock_diff(ts, writers[n - 1].end_timestamp) >= 0 {
        Some(n - 1)
    } else {
        last_finished(writers, ts, n - 1)
    }
}

/// The clock of ring buffers whose position 0 belongs to the timestamp `start`.
pub open spec fn buffers_clock(now: Clock, start: Option<Clock>) -> Clock {
    now.wrapping_sub(
        match start {
            Some(start) => start,
            None => 0,
        },
    )
}

/// Whether silence was written and one finished writer was dismissed.
pub open spec fn silence_written<P: ProxyToBuffer<Sample>>(
    before: Seq<SilenceWriter<P>>,
    after: Seq<SilenceWriter<P>>,
    ts: Clock,
) -> bool {
    exists|written: Seq<SilenceWriter<P>>| #[trigger]
        writers_closed(before, written, clock_position(ts)) && after == match last_finished(
            before,
            ts,
            before.len() as int,
        ) {
            Some(w) => written.update(w, written.last()).drop_last(),
            None => written,
        }
}

impl<P: ProxyToBuffer<Sample>> FlowsReceiverInternal<P> {
    fn close_sockets(&mut self, position: usize)
        requires
            old(self).wf(),
        ensures
            final(self).wf(),
            final(self).same_but_flows(old(self)),
            final(self).silence_writers@ == old(self).silence_writers@,
            sockets_closed(old(self).sockets@, final(self).sockets@, position),
    {
        let mut s: usize = 0;
        while s < MAX_FLOWS
            invariant
                s <= MAX_FLOWS,
                self.sockets@.len() == MAX_FLOWS,
                old(self).wf(),
                self.same_but_flows(old(self)),
                self.silence_writers@ == old(self).silence_writers@,
                forall|t: int| s <= t < MAX_FLOWS ==> #[trigger] self.sockets@[t] == old(self).sockets@[t],
                forall|t: int|
                    0 <= t < s ==> socket_closed(old(self).sockets@[t], #[trigger] self.sockets@[t], position),
                forall|t: int| 0 <= t < s && #[trigger] self.sockets@[t] is Some ==> self.sockets@[t]->0.wf(),
            decreases MAX_FLOWS - s,
        {
            let ghost before = self.sockets@;
            assert(before[s as int] == old(self).sockets@[s as int]);
            if let Some(sd) = &mut self.sockets[s] {
                close_channels(&mut sd.channels, position);
            }
            assert(self.sockets@ =~= before.update(s as int, self.sockets@[s as int]));
            s = s + 1;
        }
        proof {
            let a = self.sockets@;
            let b = old(self).sockets@;
            assert forall|t: int| 0 <= t < a.len() implies same_socket(#[trigger] a[t], b[t]) by {
                assert(socket_closed(b[t], a[t], position));
                if a[t] is Some {
                    assert forall|c: int| 0 <= c < a[t]->0.channels@.len() implies same_places(
                        #[trigger] a[t]->0.channels@[c],
                        b[t]->0.channels@[c],
                    ) by {
                        assert(channel_closed(b[t]->0.channels@[c], a[t]->0.channels@[c], position));
                    }
                }
            }
            lemma_same_sockets(a, b);
        }
    }

    fn close_writers(&mut self, ts: Clock) -> (finished: Option<usize>)
        requires
            old(self).wf(),
        ensures
            final(self).wf(),
            final(self).same_but_flows(old(self)),
            final(self).sockets@ == old(self).sockets@,
            writers_closed(old(self).silence_writers@, final(self).silence_writers@, clock_position(ts)),
            finished is Some <==> last_finished(
                old(self).silence_writers@,
                ts,
                old(self).silence_writers@.len() as int,
            ) is Some,
            finished matches Some(w) ==> w == last_finished(
                old(self).silence_writers@,
                ts,
                old(self).silence_writers@.len() as int,
            )->0 && w < final(self).silence_writers@.len(),
    {
        let position: usize = position_of_clock(ts);
        let mut finished: Option<usize> = None;
        let mut w: usize = 0;
        while w < self.silence_writers.len()
            invariant
                w <= self.silence_writers@.len(),
                self.silence_writers@.len() == old(self).silence_writers@.len(),
                old(self).wf(),
                self.same_but_flows(old(self)),
                self.sockets@ == old(self).sockets@,
                position == clock_position(ts),
                forall|v: int|
                    w <= v < self.silence_writers@.len() ==> #[trigger] self.silence_writers@[v] == old(
                        self,
                    ).silence_writers@[v],
                forall|v: int|
                    0 <= v < w ==> writer_closed(
                        old(self).silence_writers@[v],
                        #[trigger] self.silence_writers@[v],
                        position,
                    ) && self.silence_writers@[v].sink.input.wf(),
                finished is Some <==> last_finished(old(self).silence_writers@, ts, w as int) is Some,
                finished matches Some(f) ==> f == last_finished(old(self).silence_writers@, ts, w as int)->0 && f
                    < w,
            decreases self.silence_writers@.len() - w,
        {
            let ghost before = self.silence_writers@;
            assert(before[w as int] == old(self).silence_writers@[w as int]);
            self.silence_writers[w].sink.input.close_items_until(position);
            assert(self.silence_writers@ =~= before.update(w as int, self.silence_writers@[w as int]));
            if wrapped_diff(ts, self.silence_writers[w].end_timestamp) >= 0 {
                finished = Some(w);
            }
            w = w + 1;
        }
        proof {
            let a = self.silence_writers@;
            let b = old(self).silence_writers@;
            assert forall|v: int| 0 <= v < a.len() implies !is_connected(
                self.sockets@,
                (#[trigger] a[v]).sink.id,
            ) by {
                assert(writer_closed(b[v], a[v], position));
                assert(!is_connected(old(self).sockets@, b[v].sink.id));
            }
            assert forall|v: int, x: int| 0 <= v < x < a.len() implies (#[trigger] a[v]).sink.id != (
            #[trigger] a[x]).sink.id by {
                assert(b[v].sink.id != b[x].sink.id);
            }
        }
        finished
    }

    /// If it is time, everything which should have arrived by now becomes readable, silence
    /// standing in for missing samples. Normally it is written already because samples are written
    /// ahead of time; if a flow breaks, silence is heard. Returns whether the clock would have been
    /// needed but is not there.
    pub fn close_samples(&mut self, now: u64, now_ts: Option<Clock>) -> (clock_missing: bool)
        requires
            old(self).wf(),
            now + old(self).closing_samples_interval <= u64::MAX,
        ensures
            final(self).wf(),
            ({
                let due = !old(self).waiting_for_start && now >= old(self).next_closing_samples;
                &&& clock_missing == (due && now_ts is None)
                &&& !due ==> *final(self) == *old(self)
                &&& due ==> {
                    &&& final(self).sample_rate == old(self).sample_rate
                    &&& final(self).waiting_for_start == old(self).waiting_for_start
                    &&& final(self).start_timestamp == old(self).start_timestamp
                    &&& final(self).notifies == old(self).notifies
                    &&& final(self).may_have_command == old(self).may_have_command
                    &&& final(self).closing_samples_interval == old(self).closing_samples_interval
                    &&& final(self).next_closing_samples == next_time(
                        old(self).next_closing_samples,
                        old(self).closing_samples_interval,
                        now,
                    )
                    &&& final(self).next_keepalive == old(self).next_keepalive
                    &&& final(self).keepalive_index == old(self).keepalive_index
                }
                &&& due ==> match now_ts {
                    Some(now_ts) => {
                        let ts = buffers_clock(now_ts, old(self).start_timestamp);
                        &&& sockets_closed(old(self).sockets@, final(self).sockets@, clock_position(ts))
                        &&& silence_written(old(self).silence_writers@, final(self).silence_writers@, ts)
                    },
                    None => {
                        &&& final(self).sockets@ == old(self).sockets@
                        &&& final(self).silence_writers@ == old(self).silence_writers@
                    },
                }
            }),
    {
        if self.waiting_for_start || now < self.next_closing_samples {
            return false;
        }
        let clock_missing: bool = now_ts.is_none();
        if let Some(now_ts) = now_ts {
            let start: Clock = match self.start_timestamp {
                Some(start) => start,
                None => 0,
            };
            let ts: Clock = now_ts.wrapping_sub(start);
            self.close_sockets(position_of_clock(ts));
            let finished = self.close_writers(ts);
            let ghost written = self.silence_writers@;
            assert(writers_closed(old(self).silence_writers@, written, clock_position(ts)));
            if let Some(w) = finished {
                self.silence_writers.swap_remove(w);
                proof {
                    let after = self.silence_writers@;
                    assert forall|v: int| 0 <= v < after.len() implies #[trigger] after[v] == written[if v == w {
                        written.len() - 1
                    } else {
                        v
                    }] by {}
                }
            }
        }
        self.next_closing_samples = compute_next_time(
            self.next_closing_samples,
            self.closing_samples_interval,
            now,
        );
        clock_missing
    }

    /// If it is time, the next flow in turn is looked at; returns whom to tell that
    /// the flow is still wanted.
    pub fn keepalive(&mut self, now: u64) -> (destination: Option<SocketNumber>)
        requires
            old(self).wf(),
            now + KEEPALIVE_INTERVAL_BETWEEN_FLOWS <= u64::MAX,
        ensures
            final(self).wf(),
            now < old(self).next_keepalive ==> destination is None && *final(self) == *old(self),
            now >= old(self).next_keepalive ==> {
                &&& destination == match old(self).sockets@[old(self).keepalive_index as int] {
                    Some(sd) => if sd.send_keepalives {
                        sd.last_source
                    } else {
                        None
                    },
                    None => None,
                }
                &&& *final(self) == (FlowsReceiverInternal {
                    next_keepalive: next_time(
                        old(self).next_keepalive,
                        KEEPALIVE_INTERVAL_BETWEEN_FLOWS,
                        now,
                    ) as u64,
                    keepalive_index: ((old(self).keepalive_index + 1) % MAX_FLOWS as int) as usize,
                    ..*old(self)
                })
            },
    {
        if now < self.next_keepalive {
            return None;
        }
        let mut destination: Option<SocketNumber> = None;
        if let Some(sd) = &self.sockets[self.keepalive_index] {
            if sd.send_keepalives {
                destination = sd.last_source;
            }
        }
        self.next_keepalive = compute_next_time(self.next_keepalive, KEEPALIVE_INTERVAL_BETWEEN_FLOWS, now);
        self.keepalive_index = self.keepalive_index + 1;
        if self.keepalive_index >= MAX_FLOWS {
            self.keepalive_index = 0;
        }
        destination
    }
}

// ---------------------------------------------------------------------------------------------
// Handle
// ---------------------------------------------------------------------------------------------

/// What is known of a received flow.
pub struct FlowInfo {
    pub rx_port: u16,
    /// for each channel of the flow, which local channels it is connected to
    pub channels_map: Vec<BoolVec>,
    pub latency_samples: u32,
}

/// Keeps track of received flows and gives commands to the receiver.
pub struct FlowsReceiver {
    pub max_channels: usize,
    pub flows_info: Vec<Option<FlowInfo>>,
}

/// Whether nothing but one connection was changed in the map.
pub open spec fn is_map_changed(
    before: Seq<Option<FlowInfo>>,
    after: Seq<Option<FlowInfo>>,
    flow: int,
    channel_in_flow: int,
    local_channel: usize,
    connected: bool,
) -> bool {
    let a = after[flow]->0;
    let b = before[flow]->0;
    let flags = flags_of(b.channels_map@[channel_in_flow]);
    &&& after[flow] is Some
    &&& after == before.update(flow, after[flow])
    &&& a.rx_port == b.rx_port
    &&& a.latency_samples == b.latency_samples
    &&& a.channels_map@ == b.channels_map@.update(channel_in_flow, a.channels_map@[channel_in_flow])
    &&& flags_of(a.channels_map@[channel_in_flow]) == if local_channel < flags.len() {
        flags.update(local_channel as int, connected)
    } else {
        flags
    }
}

impl FlowsReceiver {
    pub open spec fn wf(&self) -> bool {
        self.flows_info@.len() == MAX_FLOWS
    }

    pub fn new(max_channels: usize) -> (receiver: Self)
        ensures
            receiver.wf(),
            receiver.max_channels == max_channels,
            forall|f: int| 0 <= f < MAX_FLOWS ==> #[trigger] receiver.flows_info@[f] is None,
    {
        let mut flows_info: Vec<Option<FlowInfo>> = Vec::new();
        let mut f: usize = 0;
        while f < MAX_FLOWS
            invariant
                f <= MAX_FLOWS,
                flows_info@.len() == f,
                forall|g: int| 0 <= g < f ==> #[trigger] flows_info@[g] is None,
            decreases MAX_FLOWS - f,
        {
            flows_info.push(None);
            f = f + 1;
        }
        FlowsReceiver { max_channels, flows_info }
    }

    pub fn add_socket<P: ProxyToBuffer<Sample>>(
        &mut self,
        local_index: usize,
        rx_port: u16,
        send_keepalives: bool,
        bytes_per_sample: usize,
        channels_count: usize,
        latency_samples: usize,
        last_packet_time: usize,
    ) -> (command: Command<P>)
        requires
            old(self).wf(),
            local_index < MAX_FLOWS,
            2 <= bytes_per_sample <= 4,
            0 < channels_count,
            channels_count * 4 + MTU <= usize::MAX,
            latency_samples <= u32::MAX,
        ensures
            final(self).wf(),
            final(self).max_channels == old(self).max_channels,
            final(self).flows_info@ == old(self).flows_info@.update(
                local_index as int,
                final(self).flows_info@[local_index as int],
            ),
            final(self).flows_info@[local_index as int] matches Some(info) && {
                &&& info.rx_port == rx_port
                &&& info.latency_samples == latency_samples
                &&& info.channels_map@.len() == channels_count
                &&& forall|c: int|
                    0 <= c < channels_count ==> flags_of(#[trigger] info.channels_map@[c]) == Seq::new(
                        old(self).max_channels as nat,
                        |i: int| false,
                    )
            },
            command matches Command::AddSocket { index, socket } && {
                &&& index == local_index
                &&& socket.wf()
                &&& socket.send_keepalives == send_keepalives
                &&& socket.last_source is None
                &&& socket.last_packet_time == last_packet_time
                &&& socket.bytes_per_sample == bytes_per_sample
                &&& socket.latency_samples == latency_samples
                &&& socket.channels@.len() == channels_count
                &&& forall|c: int| 0 <= c < channels_count ==> #[trigger] socket.channels@[c] is None
                &&& socket.actual_latency_samples == 0
            },
    {
        let mut channels_map: Vec<BoolVec> = Vec::new();
        let max_channels: usize = self.max_channels;
        let none: Vec<bool> = vec![false; max_channels];
        assert(none@ =~= Seq::new(max_channels as nat, |i: int| false));
        let mut c: usize = 0;
        while c < channels_count
            invariant
                c <= channels_count,
                none@ == Seq::new(max_channels as nat, |i: int| false),
                channels_map@.len() == c,
                forall|d: int|
                    0 <= d < c ==> flags_of(#[trigger] channels_map@[d]) == Seq::new(
                        max_channels as nat,
                        |i: int| false,
                    ),
            decreases channels_count - c,
        {
            channels_map.push(flags_from(none.as_slice()));
            c = c + 1;
        }
        self.flows_info.set(
            local_index,
            Some(FlowInfo { rx_port, channels_map, latency_samples: latency_samples as u32 }),
        );
        Command::AddSocket {
            index: local_index,
            socket: SocketData::new(
                send_keepalives,
                bytes_per_sample,
                channels_count,
                latency_samples,
                last_packet_time,
            ),
        }
    }

    pub fn remove_socket<P: ProxyToBuffer<Sample>>(&mut self, local_index: usize) -> (command: Command<P>)
        requires
            old(self).wf(),
            local_index < MAX_FLOWS,
        ensures
            final(self).wf(),
            final(self).max_channels == old(self).max_channels,
            final(self).flows_info@ == old(self).flows_info@.update(local_index as int, None),
            command == (Command::<P>::RemoveSocket { index: local_index }),
    {
        self.flows_info.set(local_index, None);
        Command::RemoveSocket { index: local_index }
    }

    fn set_connection(&mut self, flow: usize, channel_in_flow: usize, local_channel_index: usize, connected: bool)
        requires
            old(self).wf(),
            flow < MAX_FLOWS,
            old(self).flows_info@[flow as int] is Some,
            channel_in_flow < old(self).flows_info@[flow as int]->0.channels_map@.len(),
        ensures
            final(self).wf(),
            final(self).max_channels == old(self).max_channels,
            is_map_changed(
                old(self).flows_info@,
                final(self).flows_info@,
                flow as int,
                channel_in_flow as int,
                local_channel_index,
                connected,
            ),
    {
        let ghost before = self.flows_info@;
        if let Some(info) = &mut self.flows_info[flow] {
            let _ = flag_set(&mut info.channels_map[channel_in_flow], local_channel_index, connected);
        }
        assert(self.flows_info@ =~= before.update(flow as int, self.flows_info@[flow as int]));
        assert(self.flows_info@[flow as int]->0.channels_map@ =~= before[flow as int]->0.channels_map@.update(
            channel_in_flow as int,
            self.flows_info@[flow as int]->0.channels_map@[channel_in_flow as int],
        ));
    }

    pub fn connect_channel<P: ProxyToBuffer<Sample>>(
        &mut self,
        local_flow_index: usize,
        channel_in_flow: usize,
        local_channel_index: usize,
        sink: Sink<P>,
    ) -> (command: Command<P>)
        requires
            old(self).wf(),
            local_flow_index < MAX_FLOWS,
            old(self).flows_info@[local_flow_index as int] is Some,
            channel_in_flow < old(self).flows_info@[local_flow_index as int]->0.channels_map@.len(),
        ensures
            final(self).wf(),
            final(self).max_channels == old(self).max_channels,
            is_map_changed(
                old(self).flows_info@,
                final(self).flows_info@,
                local_flow_index as int,
                channel_in_flow as int,
                local_channel_index,
                true,
            ),
            command == (Command::ConnectChannel { socket_index: local_flow_index, channel_in_flow, sink }),
    {
        self.set_connection(local_flow_index, channel_in_flow, local_channel_index, true);
        Command::ConnectChannel { socket_index: local_flow_index, channel_in_flow, sink }
    }

    pub fn disconnect_channel<P: ProxyToBuffer<Sample>>(
        &mut self,
        local_flow_index: usize,
        channel_in_flow: usize,
        local_channel_index: usize,
        sink_id: usize,
    ) -> (command: Command<P>)
        requires
            old(self).wf(),
            local_flow_index < MAX_FLOWS,
            old(self).flows_info@[local_flow_index as int] is Some,
            channel_in_flow < old(self).flows_info@[local_flow_index as int]->0.channels_map@.len(),
        ensures
            final(self).wf(),
            final(self).max_channels == old(self).max_channels,
            is_map_changed(
                old(self).flows_info@,
                final(self).flows_info@,
                local_flow_index as int,
                channel_in_flow as int,
                local_channel_index,
                false,
            ),
            command == (Command::<P>::DisconnectChannel {
                socket_index: local_flow_index,
                channel_in_flow,
                sink_id,
            }),
    {
        self.set_connection(local_flow_index, channel_in_flow, local_channel_index, false);
        Command::DisconnectChannel { socket_index: local_flow_index, channel_in_flow, sink_id }
    }
}

} // verus!

//! Reception of audio flows: packets are taken apart and written to the ring buffers of the
//! channels which are connected.

use crate::byte_utils::{be32_at, make_u32};
use crate::common::{clock_diff, clock_position, position_of_clock, wrapped_diff, Clock, ClockDiff, Sample};
use crate::mdns_client::SocketNumber;
use crate::net_utils::MTU;
use crate::ring_buffer::{position_modulus, ProxyToBuffer, RBInput};
use crate::samples_utils::{
    sample_from_bytes, S16ReaderIterator, S24ReaderIterator, S32ReaderIterator, SamplesReader,
};
use vstd::prelude::*;

verus! {

pub const MAX_FLOWS: usize = 32;

/// How often a transmitter is told that its flow is still wanted, in nanoseconds.
pub const KEEPALIVE_INTERVAL: u64 = 250_000_000;

/// How often missing samples are replaced by silence if nobody needs it otherwise, in nanoseconds.
pub const CLOSING_SAMPLES_INTERVAL: u64 = 1_000_000;

/// What precedes the samples in a packet.
pub const MEDIA_HEADER_LENGTH: usize = 9;

/// What is sent to a transmitter to keep a flow alive.
pub fn keepalive_content() -> (content: [u8; 2])
    ensures
        content@ == seq![0x13u8, 0x37u8],
{
    let content: [u8; 2] = [0x13, 0x37];
    assert(content@ =~= seq![0x13u8, 0x37u8]);
    content
}

// ---------------------------------------------------------------------------------------------
// Packets
// ---------------------------------------------------------------------------------------------

/// The clock at which the first samples of the packet were taken.
pub open spec fn packet_timestamp(packet: Seq<u8>, sample_rate: u32) -> int {
    (be32_at(packet, 1) * sample_rate + be32_at(packet, 5)) % position_modulus()
}

/// Reads the clock from the header of a packet.
pub fn read_timestamp(packet: &[u8], sample_rate: u32) -> (timestamp: Clock)
    requires
        packet@.len() >= MEDIA_HEADER_LENGTH,
    ensures
        timestamp == packet_timestamp(packet@, sample_rate),
{
    let seconds: u32 = make_u32(packet[1], packet[2], packet[3], packet[4]);
    let samples: u32 = make_u32(packet[5], packet[6], packet[7], packet[8]);
    let whole: usize = (seconds as usize).wrapping_mul(sample_rate as usize);
    proof {
        let m = position_modulus();
        let product = seconds * sample_rate;
        assert(whole == product % m);
        vstd::arithmetic::div_mod::lemma_add_mod_noop(product, samples as int, m);
        vstd::arithmetic::div_mod::lemma_small_mod(samples as nat, m as nat);
        let sum = whole + samples;
        if sum >= m {
            vstd::arithmetic::div_mod::lemma_mod_sub_multiples_vanish(sum, m);
            vstd::arithmetic::div_mod::lemma_small_mod((sum - m) as nat, m as nat);
        } else {
            vstd::arithmetic::div_mod::lemma_small_mod(sum as nat, m as nat);
        }
    }
    whole.wrapping_add(samples as usize) as Clock
}

/// How many samples of each channel stand in a packet with `length` bytes.
pub open spec fn samples_in_packet(length: int, channels: int, bytes_per_sample: int) -> int {
    (length - MEDIA_HEADER_LENGTH) / (channels * bytes_per_sample)
}

/// The samples of one channel of the packet.
pub open spec fn channel_samples(
    packet: Seq<u8>,
    channel: int,
    channels: int,
    bytes_per_sample: int,
) -> Seq<Sample> {
    Seq::new(
        samples_in_packet(packet.len() as int, channels, bytes_per_sample) as nat,
        |i: int|
            {
                let at = MEDIA_HEADER_LENGTH + (i * channels + channel) * bytes_per_sample;
                sample_from_bytes(packet.subrange(at, at + bytes_per_sample)) as Sample
            },
    )
}

/// Takes the samples of one channel out of a packet.
pub fn read_samples(packet: &[u8], channel: usize, channels: usize, bytes_per_sample: usize) -> (samples: Vec<
    Sample,
>)
    requires
        MEDIA_HEADER_LENGTH <= packet@.len() <= MTU,
        channel < channels,
        channels * 4 + MTU <= usize::MAX,
        2 <= bytes_per_sample <= 4,
    ensures
        samples@ == channel_samples(
            packet@,
            channel as int,
            channels as int,
            bytes_per_sample as int,
        ),
{
    let audio_bytes = &packet[MEDIA_HEADER_LENGTH..packet.len()];
    proof {
        assert(0 <= channels * bytes_per_sample <= channels * 4) by (nonlinear_arith)
            requires
                0 <= channels,
                0 <= bytes_per_sample <= 4,
        ;
        assert(channel * bytes_per_sample + bytes_per_sample <= channels * bytes_per_sample) by (nonlinear_arith)
            requires
                0 <= channel < channels,
                0 <= bytes_per_sample,
        ;
        assert(0 <= channel * bytes_per_sample) by (nonlinear_arith)
            requires
                0 <= channel,
                0 <= bytes_per_sample,
        ;
        assert(channels * bytes_per_sample > 0) by (nonlinear_arith)
            requires
                0 < channels,
                0 < bytes_per_sample,
        ;
    }
    let stride: usize = channels * bytes_per_sample;
    let samples_count: usize = audio_bytes.len() / stride;
    let read_pos: usize = channel * bytes_per_sample;
    let reader = SamplesReader { bytes: audio_bytes, read_pos, stride, remaining_samples: samples_count };
    proof {
        vstd::arithmetic::div_mod::lemma_fundamental_div_mod(audio_bytes@.len() as int, stride as int);
        let q = audio_bytes@.len() as int / stride as int;
        assert(stride * q <= audio_bytes@.len());
        if samples_count > 0 {
            assert((samples_count - 1) * stride + stride == stride * q) by (nonlinear_arith)
                requires
                    samples_count == q,
            ;
        }
    }
    let samples: Vec<Sample> = if bytes_per_sample == 2 {
        S16ReaderIterator(reader).collect()
    } else if bytes_per_sample == 3 {
        S24ReaderIterator(reader).collect()
    } else {
        S32ReaderIterator(reader).collect()
    };
    proof {
        let expected = channel_samples(packet@, channel as int, channels as int, bytes_per_sample as int);
        assert forall|i: int| 0 <= i < samples@.len() implies samples@[i] == #[trigger] expected[i] by {
            let from = read_pos + i * stride;
            let at = MEDIA_HEADER_LENGTH + (i * channels + channel) * bytes_per_sample;
            assert(at == MEDIA_HEADER_LENGTH + from) by (nonlinear_arith)
                requires
                    at == MEDIA_HEADER_LENGTH + (i * channels + channel) * bytes_per_sample,
                    from == channel * bytes_per_sample + i * (channels * bytes_per_sample),
            ;
            assert(i * stride + stride <= stride * samples_count) by (nonlinear_arith)
                requires
                    0 <= i < samples_count,
                    0 <= stride,
            ;
            assert(0 <= i * stride) by (nonlinear_arith)
                requires
                    0 <= i,
                    0 <= stride,
            ;
            assert(audio_bytes@.subrange(from, from + bytes_per_sample) =~= packet@.subrange(
                at,
                at + bytes_per_sample,
            ));
        }
        assert(samples@ =~= expected);
    }
    samples
}

// ---------------------------------------------------------------------------------------------
// Sinks
// ---------------------------------------------------------------------------------------------

/// The writing side of a ring buffer, with a number which tells it apart from others.
pub struct Sink<P: ProxyToBuffer<Sample>> {
    pub id: usize,
    pub input: RBInput<Sample, P>,
}

/// A connected channel of a flow.
pub struct Channel<P: ProxyToBuffer<Sample>> {
    pub sinks: Vec<Sink<P>>,
    pub timestamp_shift: ClockDiff,
    pub latency_samples: usize,
}

/// Whether all the sinks are valid.
pub open spec fn sinks_wf<P: ProxyToBuffer<Sample>>(sinks: Seq<Sink<P>>) -> bool {
    forall|k: int| 0 <= k < sinks.len() ==> (#[trigger] sinks[k]).input.wf()
}

/// Whether the sinks are the same but for their states.
pub open spec fn same_sinks<P: ProxyToBuffer<Sample>>(a: Seq<Sink<P>>, b: Seq<Sink<P>>) -> bool {
    &&& a.len() == b.len()
    &&& forall|k: int| 0 <= k < a.len() ==> (#[trigger] a[k]).id == b[k].id && a[k].input.same_frame(&b[k].input)
}

/// Whether `samples` were written to all the sinks.
pub open spec fn sinks_written<P: ProxyToBuffer<Sample>>(
    before: Seq<Sink<P>>,
    after: Seq<Sink<P>>,
    position: usize,
    samples: Seq<Sample>,
) -> bool {
    &&& same_sinks(after, before)
    &&& forall|k: int|
        0 <= k < after.len() ==> (#[trigger] after[k]).input.state() == before[k].input.state().written(
            position,
            samples,
            before[k].input.wait(),
        )
}

/// Whether all the sinks were closed up to the position.
pub open spec fn sinks_closed<P: ProxyToBuffer<Sample>>(
    before: Seq<Sink<P>>,
    after: Seq<Sink<P>>,
    position: usize,
) -> bool {
    &&& same_sinks(after, before)
    &&& forall|k: int|
        0 <= k < after.len() ==> (#[trigger] after[k]).input.state() == before[k].input.state().closed_items_until(
            position,
        )
}

/// Whether the ring buffers of all the sinks hold more than `count` samples.
pub open spec fn sinks_hold<P: ProxyToBuffer<Sample>>(sinks: Seq<Sink<P>>, count: int) -> bool {
    forall|k: int| 0 <= k < sinks.len() ==> count < (#[trigger] sinks[k]).input.spec_shared().size()
}

fn write_to_sinks<P: ProxyToBuffer<Sample>>(sinks: &mut Vec<Sink<P>>, position: usize, samples: &[Sample])
    requires
        sinks_wf(old(sinks)@),
        sinks_hold(old(sinks)@, samples@.len() as int),
    ensures
        sinks_wf(final(sinks)@),
        sinks_written(old(sinks)@, final(sinks)@, position, samples@),
{
    let mut k: usize = 0;
    while k < sinks.len()
        invariant
            k <= sinks@.len(),
            sinks@.len() == old(sinks)@.len(),
            sinks_wf(sinks@),
            sinks_hold(old(sinks)@, samples@.len() as int),
            forall|j: int| k <= j < sinks@.len() ==> #[trigger] sinks@[j] == old(sinks)@[j],
            sinks_written(old(sinks)@.take(k as int), sinks@.take(k as int), position, samples@),
        decreases sinks@.len() - k,
    {
        let ghost before = sinks@;
        sinks[k].input.write_from_at(position, samples);
        proof {
            assert(before[k as int] == old(sinks)@[k as int]);
            assert forall|j: int| 0 <= j < k + 1 implies ({
                let a = #[trigger] sinks@.take(k + 1)[j];
                let b = old(sinks)@.take(k + 1)[j];
                &&& a.id == b.id
                &&& a.input.same_frame(&b.input)
                &&& a.input.state() == b.input.state().written(position, samples@, b.input.wait())
            }) by {
                if j < k {
                    assert(before.take(k as int)[j] == sinks@[j]);
                    assert(old(sinks)@.take(k as int)[j] == old(sinks)@[j]);
                }
            }
        }
        k = k + 1;
    }
    assert(sinks@.take(k as int) =~= sinks@);
    assert(old(sinks)@.take(k as int) =~= old(sinks)@);
}

fn close_sinks<P: ProxyToBuffer<Sample>>(sinks: &mut Vec<Sink<P>>, position: usize)
    requires
        sinks_wf(old(sinks)@),
    ensures
        sinks_wf(final(sinks)@),
        sinks_closed(old(sinks)@, final(sinks)@, position),
{
    let mut k: usize = 0;
    while k < sinks.len()
        invariant
            k <= sinks@.len(),
            sinks@.len() == old(sinks)@.len(),
            sinks_wf(sinks@),
            forall|j: int| k <= j < sinks@.len() ==> #[trigger] sinks@[j] == old(sinks)@[j],
            sinks_closed(old(sinks)@.take(k as int), sinks@.take(k as int), position),
        decreases sinks@.len() - k,
    {
        let ghost before = sinks@;
        sinks[k].input.close_items_until(position);
        proof {
            assert(before[k as int] == old(sinks)@[k as int]);
            assert forall|j: int| 0 <= j < k + 1 implies ({
                let a = #[trigger] sinks@.take(k + 1)[j];
                let b = old(sinks)@.take(k + 1)[j];
                &&& a.id == b.id
                &&& a.input.same_frame(&b.input)
                &&& a.input.state() == b.input.state().closed_items_until(position)
            }) by {
                if j < k {
                    assert(before.take(k as int)[j] == sinks@[j]);
                    assert(old(sinks)@.take(k as int)[j] == old(sinks)@[j]);
                }
            }
        }
        k = k + 1;
    }
    assert(sinks@.take(k as int) =~= sinks@);
    assert(old(sinks)@.take(k as int) =~= old(sinks)@);
}

fn do_sinks_hold<P: ProxyToBuffer<Sample>>(sinks: &Vec<Sink<P>>, count: usize) -> (hold: bool)
    ensures
        hold == sinks_hold(sinks@, count as int),
{
    let mut k: usize = 0;
    while k < sinks.len()
        invariant
            k <= sinks@.len(),
            forall|j: int| 0 <= j < k ==> count < (#[trigger] sinks@[j]).input.spec_shared().size(),
        decreases sinks@.len() - k,
    {
        if count >= sinks[k].input.ring_buffer_size() {
            return false;
        }
        k = k + 1;
    }
    true
}

/// The place of the sink with the given number.
pub(crate) fn find_sink<P: ProxyToBuffer<Sample>>(sinks: &Vec<Sink<P>>, id: usize) -> (index: Option<usize>)
    ensures
        index matches Some(i) ==> i < sinks@.len() && sinks@[i as int].id == id && forall|j: int|
            0 <= j < i ==> (#[trigger] sinks@[j]).id != id,
        index is None ==> forall|j: int| 0 <= j < sinks@.len() ==> (#[trigger] sinks@[j]).id != id,
{
    let mut i: usize = 0;
    while i < sinks.len()
        invariant
            i <= sinks@.len(),
            forall|j: int| 0 <= j < i ==> (#[trigger] sinks@[j]).id != id,
        decreases sinks@.len() - i,
    {
        if sinks[i].id == id {
            return Some(i);
        }
        i = i + 1;
    }
    None
}

// ---------------------------------------------------------------------------------------------
// Channels of a flow
// ---------------------------------------------------------------------------------------------

/// Whether all the connected channels are valid.
pub open spec fn channels_wf<P: ProxyToBuffer<Sample>>(channels: Seq<Option<Channel<P>>>) -> bool {
    forall|c: int|
        0 <= c < channels.len() && #[trigger] channels[c] is Some ==> sinks_wf(channels[c]->0.sinks@)
}

/// Whether a channel is the same but for the states of its sinks.
pub open spec fn same_channel<P: ProxyToBuffer<Sample>>(a: Option<Channel<P>>, b: Option<Channel<P>>) -> bool {
    &&& a is Some <==> b is Some
    &&& a is Some ==> {
        &&& same_sinks(a->0.sinks@, b->0.sinks@)
        &&& a->0.timestamp_shift == b->0.timestamp_shift
        &&& a->0.latency_samples == b->0.latency_samples
    }
}

/// The position at which samples with the given timestamp are written.
pub open spec fn shifted_position(timestamp: Clock, shift: ClockDiff) -> usize {
    clock_position(timestamp.wrapping_add_signed(shift))
}

/// Whether the samples of the packet were written to all the sinks of the channel `c`.
pub open spec fn channel_written<P: ProxyToBuffer<Sample>>(
    before: Option<Channel<P>>,
    after: Option<Channel<P>>,
    timestamp: Clock,
    samples: Seq<Sample>,
) -> bool {
    &&& same_channel(after, before)
    &&& before is Some ==> sinks_written(
        before->0.sinks@,
        after->0.sinks@,
        shifted_position(timestamp, before->0.timestamp_shift),
        samples,
    )
}

/// Whether all the sinks of the channel were closed up to the position.
pub open spec fn channel_closed<P: ProxyToBuffer<Sample>>(
    before: Option<Channel<P>>,
    after: Option<Channel<P>>,
    position: usize,
) -> bool {
    &&& same_channel(after, before)
    &&& before is Some ==> sinks_closed(before->0.sinks@, after->0.sinks@, position)
}

/// Whether the packet was written to all the channels of the flow.
pub open spec fn channels_written<P: ProxyToBuffer<Sample>>(
    before: Seq<Option<Channel<P>>>,
    after: Seq<Option<Channel<P>>>,
    packet: Seq<u8>,
    timestamp: Clock,
    bytes_per_sample: int,
) -> bool {
    &&& after.len() == before.len()
    &&& forall|c: int|
        0 <= c < after.len() ==> channel_written(
            before[c],
            #[trigger] after[c],
            timestamp,
            channel_samples(packet, c, before.len() as int, bytes_per_sample),
        )
}

/// Whether all the channels were closed up to the position.
pub open spec fn channels_closed<P: ProxyToBuffer<Sample>>(
    before: Seq<Option<Channel<P>>>,
    after: Seq<Option<Channel<P>>>,
    position: usize,
) -> bool {
    &&& after.len() == before.len()
    &&& forall|c: int| 0 <= c < after.len() ==> channel_closed(before[c], #[trigger] after[c], position)
}

/// Whether the ring buffers of all the channels hold more than `count` samples.
pub open spec fn channels_hold<P: ProxyToBuffer<Sample>>(channels: Seq<Option<Channel<P>>>, count: int) -> bool {
    forall|c: int|
        0 <= c < channels.len() && #[trigger] channels[c] is Some ==> sinks_hold(
            channels[c]->0.sinks@,
            count,
        )
}

fn write_to_channels<P: ProxyToBuffer<Sample>>(
    channels: &mut Vec<Option<Channel<P>>>,
    packet: &[u8],
    timestamp: Clock,
    bytes_per_sample: usize,
)
    requires
        channels_wf(old(channels)@),
        old(channels)@.len() * 4 + MTU <= usize::MAX,
        MEDIA_HEADER_LENGTH <= packet@.len() <= MTU,
        2 <= bytes_per_sample <= 4,
        channels_hold(
            old(channels)@,
            samples_in_packet(packet@.len() as int, old(channels)@.len() as int, bytes_per_sample as int),
        ),
    ensures
        channels_wf(final(channels)@),
        channels_written(old(channels)@, final(channels)@, packet@, timestamp, bytes_per_sample as int),
{
    let count: usize = channels.len();
    let mut c: usize = 0;
    while c < count
        invariant
            c <= count,
            count == channels@.len(),
            count == old(channels)@.len(),
            channels_wf(channels@),
            channels_wf(old(channels)@),
            count * 4 + MTU <= usize::MAX,
            MEDIA_HEADER_LENGTH <= packet@.len() <= MTU,
            2 <= bytes_per_sample <= 4,
            channels_hold(
                old(channels)@,
                samples_in_packet(packet@.len() as int, count as int, bytes_per_sample as int),
            ),
            forall|d: int| c <= d < count ==> #[trigger] channels@[d] == old(channels)@[d],
            forall|d: int|
                0 <= d < c ==> channel_written(
                    old(channels)@[d],
                    #[trigger] channels@[d],
                    timestamp,
                    channel_samples(packet@, d, count as int, bytes_per_sample as int),
                ),
        decreases count - c,
    {
        let ghost before = channels@;
        assert(before[c as int] == old(channels)@[c as int]);
        if let Some(ch) = &mut channels[c] {
            let samples = read_samples(packet, c, count, bytes_per_sample);
            proof {
                lemma_samples_in_packet(packet@.len() as int, count as int, bytes_per_sample as int);
            }
            let position: usize = position_of_clock(timestamp.wrapping_add_signed(ch.timestamp_shift));
            write_to_sinks(&mut ch.sinks, position, samples.as_slice());
        }
        assert(channels@ =~= before.update(c as int, channels@[c as int]));
        c = c + 1;
    }
}

/// A packet has no negative number of samples.
proof fn lemma_samples_in_packet(length: int, channels: int, bytes_per_sample: int)
    requires
        length >= MEDIA_HEADER_LENGTH,
        channels > 0,
        bytes_per_sample > 0,
    ensures
        samples_in_packet(length, channels, bytes_per_sample) >= 0,
{
    assert(channels * bytes_per_sample > 0) by (nonlinear_arith)
        requires
            channels > 0,
            bytes_per_sample > 0,
    ;
    vstd::arithmetic::div_mod::lemma_div_pos_is_pos(
        length - MEDIA_HEADER_LENGTH,
        channels * bytes_per_sample,
    );
}

pub(crate) fn close_channels<P: ProxyToBuffer<Sample>>(channels: &mut Vec<Option<Channel<P>>>, position: usize)
    requires
        channels_wf(old(channels)@),
    ensures
        channels_wf(final(channels)@),
        channels_closed(old(channels)@, final(channels)@, position),
{
    let count: usize = channels.len();
    let mut c: usize = 0;
    while c < count
        invariant
            c <= count,
            count == channels@.len(),
            count == old(channels)@.len(),
            channels_wf(channels@),
            forall|d: int| c <= d < count ==> #[trigger] channels@[d] == old(channels)@[d],
            forall|d: int|
                0 <= d < c ==> channel_closed(old(channels)@[d], #[trigger] channels@[d], position),
        decreases count - c,
    {
        let ghost before = channels@;
        assert(before[c as int] == old(channels)@[c as int]);
        if let Some(ch) = &mut channels[c] {
            close_sinks(&mut ch.sinks, position);
        }
        assert(channels@ =~= before.update(c as int, channels@[c as int]));
        c = c + 1;
    }
}

// ---------------------------------------------------------------------------------------------
// Sockets
// ---------------------------------------------------------------------------------------------

/// A flow and the socket at which it arrives.
pub struct SocketData<P: ProxyToBuffer<Sample>> {
    pub send_keepalives: bool,
    pub last_source: Option<SocketNumber>,
    /// in seconds
    pub last_packet_time: usize,
    pub bytes_per_sample: usize,
    pub latency_samples: usize,
    pub channels: Vec<Option<Channel<P>>>,
    /// the greatest latency so far
    pub actual_latency_samples: i32,
}

impl<P: ProxyToBuffer<Sample>> SocketData<P> {
    pub open spec fn wf(&self) -> bool {
        &&& 2 <= self.bytes_per_sample <= 4
        &&& self.channels@.len() > 0
        &&& self.channels@.len() * 4 + MTU <= usize::MAX
        &&& channels_wf(self.channels@)
    }

    /// Whether a packet with `length` bytes can be written to the ring buffers.
    pub open spec fn can_hold(&self, length: int) -> bool {
        channels_hold(
            self.channels@,
            samples_in_packet(length, self.channels@.len() as int, self.bytes_per_sample as int),
        )
    }

    /// A new flow: nothing is connected yet.
    pub fn new(
        send_keepalives: bool,
        bytes_per_sample: usize,
        channels_count: usize,
        latency_samples: usize,
        last_packet_time: usize,
    ) -> (sd: Self)
        requires
            2 <= bytes_per_sample <= 4,
            0 < channels_count,
            channels_count * 4 + MTU <= usize::MAX,
        ensures
            sd.wf(),
            sd.send_keepalives == send_keepalives,
            sd.last_source is None,
            sd.last_packet_time == last_packet_time,
            sd.bytes_per_sample == bytes_per_sample,
            sd.latency_samples == latency_samples,
            sd.channels@.len() == channels_count,
            forall|c: int| 0 <= c < channels_count ==> #[trigger] sd.channels@[c] is None,
            sd.actual_latency_samples == 0,
    {
        let mut channels: Vec<Option<Channel<P>>> = Vec::new();
        let mut c: usize = 0;
        while c < channels_count
            invariant
                c <= channels_count,
                channels@.len() == c,
                forall|d: int| 0 <= d < c ==> #[trigger] channels@[d] is None,
            decreases channels_count - c,
        {
            channels.push(None);
            c = c + 1;
        }
        SocketData {
            send_keepalives,
            last_source: None,
            last_packet_time,
            bytes_per_sample,
            latency_samples,
            channels,
            actual_latency_samples: 0,
        }
    }

    /// Whether `receive` may be called with a packet of `length` bytes.
    pub fn is_packet_holdable(&self, length: usize) -> (holdable: bool)
        requires
            self.wf(),
            MEDIA_HEADER_LENGTH <= length,
        ensures
            holdable == self.can_hold(length as int),
    {
        let count: usize = self.channels.len();
        proof {
            assert(0 < count * self.bytes_per_sample <= count * 4) by (nonlinear_arith)
                requires
                    0 < count,
                    0 < self.bytes_per_sample <= 4,
            ;
        }
        let samples: usize = (length - MEDIA_HEADER_LENGTH) / (count * self.bytes_per_sample);
        let mut c: usize = 0;
        while c < count
            invariant
                c <= count,
                count == self.channels@.len(),
                samples == samples_in_packet(length as int, count as int, self.bytes_per_sample as int),
                forall|d: int|
                    0 <= d < c && #[trigger] self.channels@[d] is Some ==> sinks_hold(
                        self.channels@[d]->0.sinks@,
                        samples as int,
                    ),
            decreases count - c,
        {
            if let Some(ch) = &self.channels[c] {
                if !do_sinks_hold(&ch.sinks, samples) {
                    assert(self.channels@[c as int] is Some);
                    return false;
                }
            }
            c = c + 1;
        }
        true
    }
}

/// The greatest latency after a packet with the given timestamp arrived.
pub open spec fn greatest_latency(before: i32, now: Option<Clock>, timestamp: Clock) -> i32 {
    match now {
        Some(now) => {
            let diff = clock_diff(now, timestamp);
            let latency = if diff < 0 {
                0
            } else if diff > i32::MAX {
                i32::MAX as int
            } else {
                diff
            };
            if latency > before {
                latency as i32
            } else {
                before
            }
        },
        None => before,
    }
}

impl<P: ProxyToBuffer<Sample>> SocketData<P> {
    /// Takes a packet in: its samples are written to the ring buffers of connected channels if
    /// `write` says so. A packet which is too short is ignored.
    pub fn receive(
        &mut self,
        packet: &[u8],
        source: SocketNumber,
        sample_rate: u32,
        now: Option<Clock>,
        elapsed_seconds: usize,
        write: bool,
    ) -> (received: bool)
        requires
            old(self).wf(),
            packet@.len() <= MTU,
            write && packet@.len() >= MEDIA_HEADER_LENGTH ==> old(self).can_hold(packet@.len() as int),
        ensures
            received == (packet@.len() >= MEDIA_HEADER_LENGTH),
            !received ==> *final(self) == *old(self),
            final(self).wf(),
            received ==> ({
                let timestamp = packet_timestamp(packet@, sample_rate) as Clock;
                &&& final(self).send_keepalives == old(self).send_keepalives
                &&& final(self).bytes_per_sample == old(self).bytes_per_sample
                &&& final(self).latency_samples == old(self).latency_samples
                &&& final(self).last_source == Some(source)
                &&& final(self).actual_latency_samples == greatest_latency(
                    old(self).actual_latency_samples,
                    now,
                    timestamp,
                )
                &&& write ==> final(self).last_packet_time == elapsed_seconds && channels_written(
                    old(self).channels@,
                    final(self).channels@,
                    packet@,
                    timestamp,
                    old(self).bytes_per_sample as int,
                )
                &&& !write ==> final(self).last_packet_time == old(self).last_packet_time
                    && final(self).channels@ == old(self).channels@
            }),
    {
        if packet.len() < MEDIA_HEADER_LENGTH {
            return false;
        }
        let timestamp: Clock = read_timestamp(packet, sample_rate);
        if let Some(now) = now {
            let diff: ClockDiff = wrapped_diff(now, timestamp);
            let latency: i32 = if diff < 0 {
                0
            } else if diff > i32::MAX as ClockDiff {
                i32::MAX
            } else {
                diff as i32
            };
            if latency > self.actual_latency_samples {
                self.actual_latency_samples = latency;
            }
        }
        if write {
            self.last_packet_time = elapsed_seconds;
            write_to_channels(&mut self.channels, packet, timestamp, self.bytes_per_sample);
        }
        self.last_source = Some(source);
        true
    }
}

} // verus!

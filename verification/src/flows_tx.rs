//! Transmission of flows.

use crate::byte_utils::{be32, copy_to_buffer, overwrite};
use crate::common::{
    clock_diff, clock_modulus, clock_position, position_of_clock, wrapped_diff, Clock, ClockDiff, Sample,
};
use crate::ring_buffer::{ProxyToBuffer, RBOutput, RingBufferShared};
use crate::samples_utils::{
    samples_written, write_s16_samples, write_s24_samples, write_s32_samples, written_with_noise,
};
use rand::rngs::SmallRng;
use vstd::prelude::*;

verus! {

/// The least number of frames in a packet.
pub const FPP_MIN: u16 = 2;

/// The greatest number of frames which the transmitter can put in a packet.
pub const FPP_MAX: u16 = 256;

/// The greatest number of frames in a packet which is advertised, and granted on request.
pub const FPP_MAX_ADVERTISED: u16 = 32;

pub const MAX_FLOWS: u32 = 32;

pub const MAX_CHANNELS_IN_FLOW: u16 = 8;

pub const KEEPALIVE_TIMEOUT_SECONDS: Clock = 4;

pub const DISCONTINUITY_THRESHOLD_SAMPLES: usize = 192000;

/// it's better to have the clock in the past than in the future - otherwise receivers go mad
pub const CLOCK_OFFSET_NS: ClockDiff = -500_000;

/// The length of the header of a media packet.
pub const MEDIA_HEADER_LENGTH: usize = 9;

// ---------------------------------------------------------------------------------------------
// Timing of a flow
// ---------------------------------------------------------------------------------------------

/// A flow which is being transmitted.
pub struct TxFlow {
    pub channel_indices: Vec<Option<usize>>,
    /// the timestamp of the next packet
    pub next_ts: Clock,
    /// frames per packet
    pub fpp: usize,
    pub bytes_per_sample: usize,
    /// when the flow is given up if the receiver shows no sign of life; `None`: never
    pub expires: Option<Clock>,
    pub expired: bool,
}

/// The first multiple of `fpp` after `now`.
pub open spec fn next_packet_start(now: Clock, fpp: int) -> Clock {
    now.wrapping_add((fpp - now as int % fpp) as Clock)
}

/// When a receiver which gave a sign of life at `now` is given up.
pub open spec fn keepalive_deadline(now: Clock, sample_rate: u32) -> Clock {
    now.wrapping_add((KEEPALIVE_TIMEOUT_SECONDS * sample_rate) as Clock)
}

/// Packets start at multiples of their length, the next one after now and no later than one
/// packet from now.
pub proof fn packets_are_aligned(now: Clock, fpp: int)
    requires
        0 < fpp,
        now + fpp < clock_modulus(),
    ensures
        next_packet_start(now, fpp) as int % fpp == 0,
        now < next_packet_start(now, fpp) <= now + fpp,
{
    let r = now as int % fpp;
    vstd::arithmetic::div_mod::lemma_mod_bound(now as int, fpp);
    vstd::arithmetic::div_mod::lemma_fundamental_div_mod(now as int, fpp);
    let q = now as int / fpp;
    assert(now + (fpp - r) == fpp * q + fpp);
    assert(fpp * q + fpp == (q + 1) * fpp) by (nonlinear_arith);
    vstd::arithmetic::div_mod::lemma_mod_multiples_basic(q + 1, fpp);
}

impl TxFlow {
    /// Starts over with the first packet after `now`.
    pub fn bootstrap_next_ts(&mut self, now: Clock)
        requires
            old(self).fpp > 0,
        ensures
            *final(self) == (TxFlow {
                next_ts: next_packet_start(now, old(self).fpp as int),
                ..*old(self)
            }),
    {
        let remainder: Clock = now % (self.fpp as Clock);
        self.next_ts = now.wrapping_add(self.fpp as Clock - remainder);
    }

    /// The receiver gave a sign of life at `now`.
    pub fn keep_alive(&mut self, now: Clock, sample_rate: u32)
        ensures
            *final(self) == (TxFlow {
                expires: if old(self).expires is Some {
                    Some(keepalive_deadline(now, sample_rate))
                } else {
                    None
                },
                ..*old(self)
            }),
    {
        if self.expires.is_some() {
            self.expires = Some(now.wrapping_add(KEEPALIVE_TIMEOUT_SECONDS * sample_rate as Clock));
        }
    }

    /// Whether the timestamp of the next packet is too far from `now`: the transmitter lags behind
    /// by more than `max_lag_samples`, or the clock has jumped.
    pub open spec fn is_off(&self, now: Clock, max_lag_samples: usize) -> bool {
        let lag = clock_diff(now, self.next_ts);
        lag > max_lag_samples || lag < -DISCONTINUITY_THRESHOLD_SAMPLES
    }

    /// Starts over if the timestamp of the next packet is too far from `now`. Returns whether it
    /// did, that is whether there is a dropout.
    pub fn resync(&mut self, now: Clock, max_lag_samples: usize) -> (dropout: bool)
        requires
            old(self).fpp > 0,
            max_lag_samples <= i64::MAX,
        ensures
            dropout == old(self).is_off(now, max_lag_samples),
            *final(self) == if dropout {
                TxFlow { next_ts: next_packet_start(now, old(self).fpp as int), ..*old(self) }
            } else {
                *old(self)
            },
    {
        let lag: ClockDiff = wrapped_diff(now, self.next_ts);
        let off: bool = lag > max_lag_samples as ClockDiff || lag < -(
        DISCONTINUITY_THRESHOLD_SAMPLES as ClockDiff);
        if off {
            self.bootstrap_next_ts(now);
        }
        off
    }

    /// Whether a packet is due.
    pub fn is_packet_due(&self, now: Clock) -> (due: bool)
        ensures
            due == (clock_diff(now, self.next_ts) >= 0),
    {
        wrapped_diff(now, self.next_ts) >= 0
    }

    /// The packet of the flow was handed over to the network; goes on to the next one if all of
    /// it (`to_send` bytes) was.
    pub fn packet_sent(&mut self, written: usize, to_send: usize) -> (complete: bool)
        ensures
            complete == (written == to_send),
            *final(self) == if complete {
                TxFlow {
                    next_ts: old(self).next_ts.wrapping_add(old(self).fpp as Clock),
                    ..*old(self)
                }
            } else {
                *old(self)
            },
    {
        if written == to_send {
            self.next_ts = self.next_ts.wrapping_add(self.fpp as Clock);
            true
        } else {
            false
        }
    }

    /// Whether the receiver gave a sign of life (`received`) or, if it did not, whether the flow
    /// is to be given up now.
    pub fn check_keepalive(&mut self, received: bool, now: Clock, sample_rate: u32)
        ensures
            *final(self) == match old(self).expires {
                None => *old(self),
                Some(expires) => if received {
                    TxFlow { expires: Some(keepalive_deadline(now, sample_rate)), ..*old(self) }
                } else if clock_diff(expires, now) < 0 {
                    TxFlow { expired: true, ..*old(self) }
                } else {
                    *old(self)
                },
            },
    {
        match self.expires {
            Some(expires) => {
                if received {
                    self.keep_alive(now, sample_rate);
                } else if wrapped_diff(expires, now) < 0 {
                    self.expired = true;
                }
            },
            None => {},
        }
    }
}

/// A receiver which gives a sign of life within the timeout never has its flow expire because of it.
pub proof fn flow_does_not_expire_within_timeout(now: Clock, later: Clock, sample_rate: u32)
    requires
        0 <= clock_diff(later, now) <= KEEPALIVE_TIMEOUT_SECONDS * sample_rate,
    ensures
        clock_diff(keepalive_deadline(now, sample_rate), later) >= 0,
{
    let d = keepalive_deadline(now, sample_rate);
    crate::common::lemma_signed_residue_within_turn(later - now, clock_modulus());
    crate::common::lemma_signed_residue_within_turn(d - later, clock_modulus());
    assert(KEEPALIVE_TIMEOUT_SECONDS * sample_rate <= 4 * 0xffff_ffff);
}

// ---------------------------------------------------------------------------------------------
// Media packets
// ---------------------------------------------------------------------------------------------

/// How timestamps of packets relate to positions of samples, and what the samples are like.
#[derive(Clone, Copy, Debug, PartialEq, Eq, Structural)]
pub struct TxParameters {
    pub sample_rate: u32,
    pub clock_offset_samples: i64,
    pub timestamp_shift: ClockDiff,
    pub tx_source_bit_depth: u8,
}

/// The header of the media packet with the given timestamp: seconds and samples.
pub open spec fn media_header(next_ts: Clock, par: TxParameters) -> Seq<u8> {
    let packet_ts = next_ts.wrapping_add_signed(par.clock_offset_samples) as int;
    let rate = par.sample_rate as int;
    seq![2u8] + be32((packet_ts / rate % 0x1_0000_0000) as u32) + be32((packet_ts % rate) as u32)
}

/// The position of the first sample of the packet with the given timestamp.
pub open spec fn start_position(next_ts: Clock, par: TxParameters) -> usize {
    clock_position(next_ts.wrapping_add_signed(par.timestamp_shift))
}

/// Whether samples have to be dithered which are sent with fewer bits than they come with.
pub open spec fn needs_dither(par: TxParameters, output_bit_depth: u8) -> bool {
    par.tx_source_bit_depth > output_bit_depth
}

pub fn should_dither(par: TxParameters, output_bit_depth: u8) -> (dither: bool)
    ensures
        dither == needs_dither(par, output_bit_depth),
{
    par.tx_source_bit_depth > output_bit_depth
}

/// The samples read, with silence in place of those which are not useful.
pub open spec fn silenced(samples: Seq<Sample>, useful: (int, int), fpp: int) -> Seq<Sample> {
    if useful.0 != 0 || useful.1 != fpp {
        Seq::new(
            samples.len(),
            |k: int|
                if useful.0 <= k < useful.1 {
                    samples[k]
                } else {
                    0
                },
        )
    } else {
        samples
    }
}

/// Working memory of the transmitter.
pub struct TxBuffers {
    pub samples: Seq<Sample>,
    pub packet: Seq<u8>,
}

/// What `samples`, whose first `fpp` items are used, hold after the samples of a channel were
/// read into them.
pub open spec fn channel_samples<P: ProxyToBuffer<Sample>>(
    rb: RingBufferShared<Sample, P>,
    start: usize,
    samples: Seq<Sample>,
    fpp: int,
) -> Seq<Sample> {
    let read = rb.read_items(start, samples.take(fpp)) + samples.skip(fpp);
    silenced(read, rb.useful_items(start, fpp), fpp)
}

/// Whether `packet` is what `before` becomes when samples are written to it for the channel of
/// the flow at `index`.
pub open spec fn is_channel_written(
    flow: TxFlow,
    par: TxParameters,
    samples: Seq<Sample>,
    index: int,
    before: Seq<u8>,
    packet: Seq<u8>,
) -> bool {
    let width = flow.bytes_per_sample as int;
    let start = MEDIA_HEADER_LENGTH + index * width;
    let stride = flow.channel_indices@.len() * width;
    if width == 2 && needs_dither(par, 16) {
        written_with_noise(samples, before, packet, start, stride, 2, 0x8000)
    } else if width == 3 && needs_dither(par, 24) {
        written_with_noise(samples, before, packet, start, stride, 3, 0x80)
    } else if 2 <= width <= 4 {
        packet == samples_written(samples, before, start, stride, width)
    } else {
        packet == before
    }
}

/// Whether the working memory may hold `after` when it held `before` and the channel of the flow at
/// `index` was put into the packet.
pub open spec fn is_channel_step<P: ProxyToBuffer<Sample>>(
    flow: TxFlow,
    par: TxParameters,
    sources: Seq<RBOutput<Sample, P>>,
    before: TxBuffers,
    after: TxBuffers,
    index: int,
) -> bool {
    match flow.channel_indices@[index] {
        None => after == before,
        Some(ch) => {
            &&& after.samples == channel_samples(
                sources[ch as int].spec_shared(),
                start_position(flow.next_ts, par),
                before.samples,
                flow.fpp as int,
            )
            &&& is_channel_written(
                flow,
                par,
                after.samples.take(flow.fpp as int),
                index,
                before.packet,
                after.packet,
            )
        },
    }
}

/// Whether the working memory may hold `after` when it held `before` and the first `n` channels
/// of the flow were put into the packet.
pub open spec fn are_channels_written<P: ProxyToBuffer<Sample>>(
    flow: TxFlow,
    par: TxParameters,
    sources: Seq<RBOutput<Sample, P>>,
    before: TxBuffers,
    after: TxBuffers,
    n: int,
) -> bool
    decreases n,
{
    if n <= 0 {
        after == before
    } else {
        let last = n - 1;
        exists|mid: TxBuffers|
            are_channels_written(flow, par, sources, before, mid, last) && #[trigger] is_channel_step(
                flow,
                par,
                sources,
                mid,
                after,
                last,
            )
    }
}

/// The length of the packets of a flow.
pub open spec fn media_packet_len(flow: TxFlow) -> int {
    MEDIA_HEADER_LENGTH + flow.channel_indices@.len() * flow.bytes_per_sample * flow.fpp
}

/// Whether packets of the flow can be made out of the sources in buffers of the given sizes.
pub open spec fn is_sendable<P: ProxyToBuffer<Sample>>(
    flow: TxFlow,
    sources: Seq<RBOutput<Sample, P>>,
    samples_len: int,
    packet_len: int,
) -> bool {
    &&& flow.fpp <= samples_len
    &&& media_packet_len(flow) <= packet_len
    &&& flow.channel_indices@.len() * flow.bytes_per_sample <= packet_len
    &&& packet_len <= 0x1_0000
    &&& forall|i: int|
        0 <= i < flow.channel_indices@.len() && #[trigger] flow.channel_indices@[i] is Some ==> {
            let ch = flow.channel_indices@[i]->0 as int;
            ch < sources.len() && sources[ch].spec_shared().wf()
        }
}

/// What became of a packet.
pub struct BuiltPacket {
    /// the length of the packet
    pub to_send: usize,
    /// where samples have been read
    pub start_ts: usize,
}

/// Fills the place of samples in the packet with silence.
pub fn clear_media(flow: &TxFlow, pbuff: &mut [u8])
    requires
        media_packet_len(*flow) <= old(pbuff)@.len(),
        flow.channel_indices@.len() * flow.bytes_per_sample <= usize::MAX,
    ensures
        final(pbuff)@ == overwrite(
            old(pbuff)@,
            MEDIA_HEADER_LENGTH as int,
            Seq::new((media_packet_len(*flow) - MEDIA_HEADER_LENGTH) as nat, |i: int| 0u8),
        ),
{
    let len: usize = pbuff.len();
    let stride: usize = flow.channel_indices.len() * flow.bytes_per_sample;
    let end: usize = MEDIA_HEADER_LENGTH + stride * flow.fpp;
    let mut i: usize = MEDIA_HEADER_LENGTH;
    while i < end
        invariant
            MEDIA_HEADER_LENGTH <= i <= end <= len,
            len == old(pbuff)@.len(),
            pbuff@ == overwrite(
                old(pbuff)@,
                MEDIA_HEADER_LENGTH as int,
                Seq::new((i - MEDIA_HEADER_LENGTH) as nat, |i: int| 0u8),
            ),
        decreases end - i,
    {
        pbuff[i] = 0;
        i = i + 1;
        assert(pbuff@ =~= overwrite(
            old(pbuff)@,
            MEDIA_HEADER_LENGTH as int,
            Seq::new((i - MEDIA_HEADER_LENGTH) as nat, |i: int| 0u8),
        ));
    }
}

/// Reads the samples of a channel; silence stands in for those which are missing.
fn read_channel<P: ProxyToBuffer<Sample>>(
    source: &RBOutput<Sample, P>,
    start_ts: usize,
    samples: &mut [Sample],
    fpp: usize,
)
    requires
        source.spec_shared().wf(),
        fpp <= old(samples)@.len(),
    ensures
        final(samples)@ == channel_samples(source.spec_shared(), start_ts, old(samples)@, fpp as int),
{
    let ghost before = samples@;
    let ghost rb = source.spec_shared();
    let len: usize = samples.len();
    proof {
        lemma_useful_items(rb, start_ts, fpp as int);
    }
    let r = {
        let (used, _rest) = samples.split_at_mut(fpp);
        assert(used@ =~= before.take(fpp as int));
        source.read_at(start_ts, used)
    };
    let ghost read = rb.read_items(start_ts, before.take(fpp as int)) + before.skip(fpp as int);
    assert(samples@ =~= read);
    if r.useful_start_index != 0 || r.useful_end_index != fpp {
        let mut i: usize = 0;
        while i < len
            invariant
                i <= len,
                len == samples@.len(),
                len == read.len(),
                forall|k: int|
                    0 <= k < i ==> #[trigger] samples@[k] == if r.useful_start_index <= k < r.useful_end_index {
                        read[k]
                    } else {
                        0
                    },
                forall|k: int| i <= k < len ==> #[trigger] samples@[k] == read[k],
            decreases len - i,
        {
            if i < r.useful_start_index || i >= r.useful_end_index {
                samples[i] = 0;
            }
            i = i + 1;
        }
        assert(samples@ =~= silenced(read, rb.useful_items(start_ts, fpp as int), fpp as int));
    }
}

proof fn lemma_useful_items<P: ProxyToBuffer<Sample>>(rb: RingBufferShared<Sample, P>, start: usize, wanted: int)
    requires
        0 <= wanted,
    ensures
        0 <= rb.useful_items(start, wanted).0 <= rb.useful_items(start, wanted).1 <= wanted,
        rb.read_items(start, Seq::new(wanted as nat, |i: int| 0)).len() == wanted,
{
}

/// Puts the samples of a channel into the packet.
fn write_channel(
    flow: &TxFlow,
    par: TxParameters,
    samples: &[Sample],
    index_in_flow: usize,
    pbuff: &mut [u8],
    dither_rng: &mut SmallRng,
)
    requires
        index_in_flow < flow.channel_indices@.len(),
        flow.channel_indices@.len() * flow.bytes_per_sample <= old(pbuff)@.len() <= 0x1_0000,
    ensures
        final(pbuff)@.len() == old(pbuff)@.len(),
        is_channel_written(
            *flow,
            par,
            samples@,
            index_in_flow as int,
            old(pbuff)@,
            final(pbuff)@,
        ),
{
    let n: usize = flow.channel_indices.len();
    let width: usize = flow.bytes_per_sample;
    proof {
        let (i, w, m) = (index_in_flow as int, width as int, n as int);
        assert(0 <= i * w <= m * w) by (nonlinear_arith)
            requires
                0 <= i <= m,
                0 <= w,
        ;
    }
    let start: usize = MEDIA_HEADER_LENGTH + index_in_flow * width;
    let stride: usize = n * width;
    let ghost before = pbuff@;
    match width {
        2 => {
            if should_dither(par, 16) {
                write_s16_samples(samples, pbuff, start, stride, Some(dither_rng));
                proof {
                    let out = choose|out: Seq<Sample>|
                        crate::samples_utils::dithered(samples@, out, 0x8000) && pbuff@ == samples_written(
                            out,
                            before,
                            start as int,
                            stride as int,
                            2,
                        );
                    crate::samples_utils::writing_samples_keeps_what_is_before(
                        out,
                        before,
                        start as int,
                        stride as int,
                        2,
                    );
                }
            } else {
                write_s16_samples(samples, pbuff, start, stride, None);
            }
        },
        3 => {
            if should_dither(par, 24) {
                write_s24_samples(samples, pbuff, start, stride, Some(dither_rng));
                proof {
                    let out = choose|out: Seq<Sample>|
                        crate::samples_utils::dithered(samples@, out, 0x80) && pbuff@ == samples_written(
                            out,
                            before,
                            start as int,
                            stride as int,
                            3,
                        );
                    crate::samples_utils::writing_samples_keeps_what_is_before(
                        out,
                        before,
                        start as int,
                        stride as int,
                        3,
                    );
                }
            } else {
                write_s24_samples(samples, pbuff, start, stride, None);
            }
        },
        4 => write_s32_samples(samples, pbuff, start, stride, None),
        _ => {},
    }
    proof {
        if 2 <= width <= 4 {
            crate::samples_utils::writing_samples_keeps_what_is_before(
                samples@,
                before,
                start as int,
                stride as int,
                width as int,
            );
        }
    }
}

/// Makes the next packet of the flow in `pbuff`, whose place for samples has been filled with
/// silence before the first packet of the flow.
pub fn build_packet<P: ProxyToBuffer<Sample>>(
    flow: &TxFlow,
    par: TxParameters,
    sources: &Vec<RBOutput<Sample, P>>,
    tmp_samples: &mut [Sample],
    pbuff: &mut [u8],
    dither_rng: &mut SmallRng,
) -> (built: BuiltPacket)
    requires
        par.sample_rate > 0,
        is_sendable(*flow, sources@, old(tmp_samples)@.len() as int, old(pbuff)@.len() as int),
    ensures
        final(tmp_samples)@.len() == old(tmp_samples)@.len(),
        final(pbuff)@.len() == old(pbuff)@.len(),
        are_channels_written(
            *flow,
            par,
            sources@,
            (TxBuffers {
                samples: old(tmp_samples)@,
                packet: overwrite(old(pbuff)@, 0, media_header(flow.next_ts, par)),
            }),
            (TxBuffers { samples: final(tmp_samples)@, packet: final(pbuff)@ }),
            flow.channel_indices@.len() as int,
        ),
        built.to_send == media_packet_len(*flow),
        built.start_ts == start_position(flow.next_ts, par),
        built.start_ts as int == (flow.next_ts + par.timestamp_shift) % 0x1_0000_0000_0000_0000 % (usize::MAX + 1),
{
    let n: usize = flow.channel_indices.len();
    let packet_len: usize = pbuff.len();
    let packet_ts: Clock = flow.next_ts.wrapping_add_signed(par.clock_offset_samples);
    let rate: Clock = par.sample_rate as Clock;
    let seconds: u32 = (packet_ts / rate % 0x1_0000_0000) as u32;
    let subsec_samples: u32 = (packet_ts % rate) as u32;
    let header: [u8; 9] = [
        2,
        (seconds / 0x100_0000) as u8,
        (seconds / 0x1_0000 % 256) as u8,
        (seconds / 0x100 % 256) as u8,
        (seconds % 256) as u8,
        (subsec_samples / 0x100_0000) as u8,
        (subsec_samples / 0x1_0000 % 256) as u8,
        (subsec_samples / 0x100 % 256) as u8,
        (subsec_samples % 256) as u8,
    ];
    assert(header@ =~= media_header(flow.next_ts, par));
    copy_to_buffer(pbuff, 0, header.as_slice());
    let start_ts: usize = position_of_clock(flow.next_ts.wrapping_add_signed(par.timestamp_shift));
    let ghost before = TxBuffers { samples: tmp_samples@, packet: pbuff@ };
    let mut i: usize = 0;
    while i < n
        invariant
            par.sample_rate > 0,
            n == flow.channel_indices@.len(),
            i <= n,
            packet_len == pbuff@.len(),
            is_sendable(*flow, sources@, tmp_samples@.len() as int, packet_len as int),
            tmp_samples@.len() == before.samples.len(),
            start_ts == start_position(flow.next_ts, par),
            are_channels_written(
                *flow,
                par,
                sources@,
                before,
                (TxBuffers { samples: tmp_samples@, packet: pbuff@ }),
                i as int,
            ),
        decreases n - i,
    {
        let ghost mid = TxBuffers { samples: tmp_samples@, packet: pbuff@ };
        match flow.channel_indices[i] {
            Some(ch_index) => {
                assert(flow.channel_indices@[i as int] is Some);
                read_channel(&sources[ch_index], start_ts, tmp_samples, flow.fpp);
                proof {
                    lemma_useful_items(sources@[ch_index as int].spec_shared(), start_ts, flow.fpp as int);
                    assert(tmp_samples@.len() == mid.samples.len());
                }
                let samples = slice_to(tmp_samples, flow.fpp);
                write_channel(flow, par, samples, i, pbuff, dither_rng);
            },
            None => {},
        }
        proof {
            let after = TxBuffers { samples: tmp_samples@, packet: pbuff@ };
            assert(is_channel_step(*flow, par, sources@, mid, after, i as int));
            lemma_channel_step(*flow, par, sources@, before, mid, after, i as int + 1);
        }
        i = i + 1;
    }
    proof {
        let (c, w, f) = (n as int, flow.bytes_per_sample as int, flow.fpp as int);
        assert(0 <= c * w * f) by (nonlinear_arith)
            requires
                0 <= c,
                0 <= w,
                0 <= f,
        ;
    }
    let stride: usize = n * flow.bytes_per_sample;
    proof {
        crate::transmit_laws::packet_is_read_at_its_shifted_time(flow.next_ts, par);
    }
    BuiltPacket {
        to_send: MEDIA_HEADER_LENGTH + stride * flow.fpp,
        start_ts,
    }
}

proof fn lemma_channel_step<P: ProxyToBuffer<Sample>>(
    flow: TxFlow,
    par: TxParameters,
    sources: Seq<RBOutput<Sample, P>>,
    before: TxBuffers,
    mid: TxBuffers,
    after: TxBuffers,
    n: int,
)
    requires
        n > 0,
        are_channels_written(flow, par, sources, before, mid, n - 1),
        is_channel_step(flow, par, sources, mid, after, n - 1),
    ensures
        are_channels_written(flow, par, sources, before, after, n),
{
}

fn slice_to(samples: &[Sample], end: usize) -> (head: &[Sample])
    requires
        end <= samples@.len(),
    ensures
        head@ == samples@.take(end as int),
{
    let head = &samples[0..end];
    assert(head@ =~= samples@.take(end as int));
    head
}

// ---------------------------------------------------------------------------------------------
// Parameters
// ---------------------------------------------------------------------------------------------

/// How positions of samples relate to timestamps when the sample at position 0 was due at
/// `start_time` and is sent `send_latency_samples` later.
pub open spec fn shift_of_start(start_time: Clock, send_latency_samples: Clock) -> int {
    crate::common::signed_residue(-(start_time + send_latency_samples), clock_modulus())
}

pub fn compute_timestamp_shift(start_time: Clock, send_latency_samples: Clock) -> (shift: ClockDiff)
    ensures
        shift == shift_of_start(start_time, send_latency_samples),
        (start_time + send_latency_samples + shift) % 0x1_0000_0000_0000_0000 == 0,
{
    let sum: Clock = start_time.wrapping_add(send_latency_samples);
    proof {
        let m = clock_modulus();
        let total = start_time + send_latency_samples;
        assert(sum == total || sum == total - m);
        // both differ from zero by the same remainder
        assert((0 - sum) % m == (-total) % m) by {
            if sum == total - m {
                vstd::arithmetic::div_mod::lemma_mod_add_multiples_vanish(-total, m);
            }
        }
    }
    proof {
        crate::transmit_laws::shift_takes_back_the_start(start_time, send_latency_samples);
    }
    wrapped_diff(0, sum)
}

/// `CLOCK_OFFSET_NS` in samples, rounded towards zero.
pub fn clock_offset_samples(sample_rate: u32) -> (offset: i64)
    ensures
        offset == -(500_000 * sample_rate / 1_000_000_000),
        -offset * 2000 <= sample_rate < (1 - offset) * 2000,
{
    let magnitude: u64 = 500_000 * sample_rate as u64 / 1_000_000_000;
    -(magnitude as i64)
}

/// A latency in samples.
pub fn latency_in_samples(latency_ns: u64, sample_rate: u32) -> (samples: u64)
    requires
        latency_ns * sample_rate <= u64::MAX,
    ensures
        samples == latency_ns * sample_rate / 1_000_000_000,
        samples * 1_000_000_000 <= latency_ns * sample_rate < (samples + 1) * 1_000_000_000,
{
    latency_ns * sample_rate as u64 / 1_000_000_000
}

/// Whether the transmitter, which started to send at `now`, has to give way because it has been
/// busy for more than 5 milliseconds.
pub fn should_yield(real_now: Clock, now: Clock, sample_rate: u32) -> (blocked: bool)
    ensures
        blocked == (clock_diff(real_now, now) > sample_rate / 200),
{
    wrapped_diff(real_now, now) > (sample_rate / 200) as ClockDiff
}

// ---------------------------------------------------------------------------------------------
// Table of transmitted flows
// ---------------------------------------------------------------------------------------------

/// The flows being transmitted.
pub struct TxFlows {
    pub flows: Vec<Option<TxFlow>>,
}

/// The earlier one of two clocks.
pub open spec fn earlier(a: Option<Clock>, b: Clock) -> Clock {
    match a {
        None => b,
        Some(a) => if clock_diff(a, b) > 0 {
            b
        } else {
            a
        },
    }
}

/// The timestamp of the first packet due of the first `n` flows.
pub open spec fn first_due(flows: Seq<Option<TxFlow>>, n: int) -> Option<Clock>
    decreases n,
{
    if n <= 0 {
        None
    } else {
        let before = first_due(flows, n - 1);
        match flows[n - 1] {
            Some(flow) => if flow.expired {
                before
            } else {
                Some(earlier(before, flow.next_ts))
            },
            None => before,
        }
    }
}

/// The earlier one of two clocks, if there are any.
pub fn earlier_of(a: Option<Clock>, b: Option<Clock>) -> (r: Option<Clock>)
    ensures
        r == match b {
            Some(b) => Some(earlier(a, b)),
            None => a,
        },
{
    match b {
        None => a,
        Some(b) => match a {
            None => Some(b),
            Some(a) => if wrapped_diff(a, b) > 0 {
                Some(b)
            } else {
                Some(a)
            },
        },
    }
}

/// A flow as it starts.
pub open spec fn started_flow(
    channel_indices: Seq<Option<usize>>,
    fpp: usize,
    bytes_per_sample: usize,
    needs_keepalives: bool,
    expired: bool,
    now: Option<Clock>,
    sample_rate: u32,
    flow: TxFlow,
) -> bool {
    &&& flow.channel_indices@ == channel_indices
    &&& flow.fpp == fpp
    &&& flow.bytes_per_sample == bytes_per_sample
    &&& flow.expired == expired
    &&& flow.next_ts == match now {
        Some(now) => next_packet_start(now, fpp as int),
        None => 0,
    }
    &&& flow.expires == if needs_keepalives {
        Some(
            match now {
                Some(now) => keepalive_deadline(now, sample_rate),
                None => 0,
            },
        )
    } else {
        None
    }
}

impl TxFlows {
    /// No flows.
    pub fn new() -> (table: Self)
        ensures
            table.flows@ == Seq::new(MAX_FLOWS as nat, |i: int| None::<TxFlow>),
    {
        let mut flows: Vec<Option<TxFlow>> = Vec::new();
        let mut i: u32 = 0;
        while i < MAX_FLOWS
            invariant
                i <= MAX_FLOWS,
                flows@ == Seq::new(i as nat, |i: int| None::<TxFlow>),
            decreases MAX_FLOWS - i,
        {
            flows.push(None);
            i = i + 1;
        }
        TxFlows { flows }
    }

    /// The timestamp of the first packet due.
    pub fn min_next_ts(&self) -> (ts: Option<Clock>)
        ensures
            ts == first_due(self.flows@, self.flows@.len() as int),
    {
        let mut ts: Option<Clock> = None;
        let mut i: usize = 0;
        while i < self.flows.len()
            invariant
                i <= self.flows@.len(),
                ts == first_due(self.flows@, i as int),
            decreases self.flows@.len() - i,
        {
            match &self.flows[i] {
                Some(flow) => {
                    if !flow.expired {
                        ts = earlier_of(ts, Some(flow.next_ts));
                    }
                },
                None => {},
            }
            i = i + 1;
        }
        ts
    }

    /// Puts all flows in time when the clock becomes ready.
    pub fn bootstrap_all(&mut self, now: Clock, sample_rate: u32)
        requires
            forall|i: int|
                0 <= i < old(self).flows@.len() && #[trigger] old(self).flows@[i] is Some
                    ==> old(self).flows@[i]->0.fpp > 0,
        ensures
            final(self).flows@ == Seq::new(
                old(self).flows@.len(),
                |i: int|
                    match old(self).flows@[i] {
                        None => None,
                        Some(flow) => Some(
                            TxFlow {
                                next_ts: next_packet_start(now, flow.fpp as int),
                                expires: if flow.expires is Some {
                                    Some(keepalive_deadline(now, sample_rate))
                                } else {
                                    None
                                },
                                ..flow
                            },
                        ),
                    },
            ),
    {
        let ghost before = self.flows@;
        let ghost expected = Seq::new(
            before.len(),
            |i: int|
                match before[i] {
                    None => None,
                    Some(flow) => Some(
                        TxFlow {
                            next_ts: next_packet_start(now, flow.fpp as int),
                            expires: if flow.expires is Some {
                                Some(keepalive_deadline(now, sample_rate))
                            } else {
                                None
                            },
                            ..flow
                        },
                    ),
                },
        );
        let mut i: usize = 0;
        while i < self.flows.len()
            invariant
                before == old(self).flows@,
                forall|i: int| 0 <= i < before.len() && #[trigger] before[i] is Some ==> before[i]->0.fpp > 0,
                i <= self.flows@.len(),
                self.flows@.len() == before.len(),
                expected.len() == before.len(),
                expected == Seq::new(
                    before.len(),
                    |i: int|
                        match before[i] {
                            None => None,
                            Some(flow) => Some(
                                TxFlow {
                                    next_ts: next_packet_start(now, flow.fpp as int),
                                    expires: if flow.expires is Some {
                                        Some(keepalive_deadline(now, sample_rate))
                                    } else {
                                        None
                                    },
                                    ..flow
                                },
                            ),
                        },
                ),
                forall|k: int| 0 <= k < i ==> #[trigger] self.flows@[k] == expected[k],
                forall|k: int| i <= k < before.len() ==> #[trigger] self.flows@[k] == before[k],
            decreases self.flows@.len() - i,
        {
            assert(self.flows@[i as int] == before[i as int]);
            match &mut self.flows[i] {
                Some(flow) => {
                    flow.bootstrap_next_ts(now);
                    flow.keep_alive(now, sample_rate);
                },
                None => {},
            }
            assert(self.flows@[i as int] == expected[i as int]);
            i = i + 1;
        }
        assert(self.flows@ =~= expected);
    }

    /// Starts a flow; `now` is `None` as long as the clock is not ready.
    pub fn add_flow(
        &mut self,
        index: usize,
        channel_indices: Vec<Option<usize>>,
        fpp: usize,
        bytes_per_sample: usize,
        needs_keepalives: bool,
        expired: bool,
        now: Option<Clock>,
        sample_rate: u32,
    )
        requires
            index < old(self).flows@.len(),
            fpp > 0,
        ensures
            final(self).flows@.len() == old(self).flows@.len(),
            final(self).flows@[index as int] is Some,
            started_flow(
                channel_indices@,
                fpp,
                bytes_per_sample,
                needs_keepalives,
                expired,
                now,
                sample_rate,
                final(self).flows@[index as int]->0,
            ),
            forall|i: int|
                0 <= i < old(self).flows@.len() && i != index ==> #[trigger] final(self).flows@[i] == old(
                    self,
                ).flows@[i],
    {
        let mut flow = TxFlow {
            channel_indices,
            next_ts: 0,
            fpp,
            bytes_per_sample,
            expires: if needs_keepalives {
                Some(0)
            } else {
                None
            },
            expired,
        };
        match now {
            Some(now) => {
                flow.bootstrap_next_ts(now);
                if needs_keepalives {
                    flow.keep_alive(now, sample_rate);
                }
            },
            None => {},
        }
        self.flows.set(index, Some(flow));
    }

    /// Stops a flow.
    pub fn remove_flow(&mut self, index: usize)
        requires
            index < old(self).flows@.len(),
        ensures
            final(self).flows@ == old(self).flows@.update(index as int, None),
    {
        self.flows.set(index, None);
    }

    /// A flow which was held back until now is sent from now on.
    pub fn activate(&mut self, index: usize)
        requires
            index < old(self).flows@.len(),
            old(self).flows@[index as int] is Some,
        ensures
            final(self).flows@ == old(self).flows@.update(
                index as int,
                Some(TxFlow { expired: false, ..old(self).flows@[index as int]->0 }),
            ),
    {
        let ghost before = self.flows@;
        if let Some(flow) = &mut self.flows[index] {
            flow.expired = false;
        }
        assert(self.flows@ =~= before.update(
            index as int,
            Some(TxFlow { expired: false, ..before[index as int]->0 }),
        ));
    }

    /// Changes the channels of a flow; a flow which has expired is resumed.
    pub fn set_channels(
        &mut self,
        index: usize,
        channel_indices: Vec<Option<usize>>,
        now: Option<Clock>,
        sample_rate: u32,
    )
        requires
            index < old(self).flows@.len(),
            old(self).flows@[index as int] is Some,
            old(self).flows@[index as int]->0.fpp > 0,
        ensures
            final(self).flows@ == old(self).flows@.update(
                index as int,
                Some(
                    ({
                        let flow = old(self).flows@[index as int]->0;
                        TxFlow {
                            channel_indices,
                            next_ts: if flow.expired && now is Some {
                                next_packet_start(now->0, flow.fpp as int)
                            } else {
                                flow.next_ts
                            },
                            expires: if flow.expires is Some && now is Some {
                                Some(keepalive_deadline(now->0, sample_rate))
                            } else {
                                flow.expires
                            },
                            expired: false,
                            ..flow
                        }
                    }),
                ),
            ),
    {
        let ghost before = self.flows@;
        let ghost chs = channel_indices;
        match &mut self.flows[index] {
            Some(flow) => {
                flow.channel_indices = channel_indices;
                match now {
                    Some(now) => {
                        flow.keep_alive(now, sample_rate);
                    },
                    None => {},
                }
                if flow.expired {
                    match now {
                        Some(now) => {
                            flow.bootstrap_next_ts(now);
                        },
                        None => {},
                    }
                    flow.expired = false;
                }
            },
            None => {},
        }
        assert(self.flows@ =~= before.update(index as int, self.flows@[index as int]));
    }
}

// ---------------------------------------------------------------------------------------------
// When to wake up
// ---------------------------------------------------------------------------------------------

/// The value of the published timestamp which says that there is none.
pub const NO_TIMESTAMP: usize = usize::MAX;

/// The timestamp of the next packet as it is published.
pub open spec fn published(min_next_ts: Option<Clock>) -> usize {
    match min_next_ts {
        None => usize::MAX,
        Some(ts) => if clock_position(ts) == usize::MAX {
            (usize::MAX - 1) as usize
        } else {
            clock_position(ts)
        },
    }
}

pub fn published_timestamp(min_next_ts: Option<Clock>) -> (ts: usize)
    ensures
        ts == published(min_next_ts),
        min_next_ts is Some ==> ts != NO_TIMESTAMP,
{
    match min_next_ts {
        None => NO_TIMESTAMP,
        Some(ts) => {
            let position: usize = position_of_clock(ts);
            if position == NO_TIMESTAMP {
                NO_TIMESTAMP - 1
            } else {
                position
            }
        },
    }
}

/// Waits shorter than this many nanoseconds are spent asleep, longer ones also listening to commands.
pub const SELECT_THRESHOLD_NS: u64 = 100_000_000;

/// How long to wait, in nanoseconds, if nothing is due.
pub const IDLE_WAIT_NS: u64 = 20_000_000_000;

/// How the transmitter waits.
#[derive(Debug, Clone, Copy, PartialEq, Eq, Structural)]
pub enum Wait {
    /// asleep, then packets are sent
    Sleep { nanoseconds: u64 },
    /// until a command comes; if none does, packets are sent
    Listen { nanoseconds: u64 },
}

/// Decides how to wait for `duration_ns` nanoseconds, `None` if nothing is due.
pub fn choose_wait(duration_ns: Option<u64>) -> (wait: Wait)
    ensures
        wait == match duration_ns {
            Some(ns) => if ns < SELECT_THRESHOLD_NS {
                Wait::Sleep { nanoseconds: ns }
            } else {
                Wait::Listen { nanoseconds: ns }
            },
            None => Wait::Listen { nanoseconds: IDLE_WAIT_NS },
        },
{
    let ns: u64 = match duration_ns {
        Some(ns) => ns,
        None => IDLE_WAIT_NS,
    };
    if ns < SELECT_THRESHOLD_NS {
        Wait::Sleep { nanoseconds: ns }
    } else {
        Wait::Listen { nanoseconds: ns }
    }
}

/// What the transmitter has to do besides sending, and when.
pub struct TxSchedule {
    /// when the user has to be notified next; only if `max_interval_samples` is given
    pub next_on_transfer: Clock,
    /// when commands and signs of life have to be looked for next
    pub next_process_events: Clock,
    /// how often the user has to be notified
    pub max_interval_samples: Option<Clock>,
}

impl TxSchedule {
    pub fn new(now: Clock, max_interval_samples: Option<Clock>) -> (schedule: Self)
        ensures
            schedule == (TxSchedule {
                next_on_transfer: now,
                next_process_events: now,
                max_interval_samples,
            }),
    {
        TxSchedule { next_on_transfer: now, next_process_events: now, max_interval_samples }
    }

    /// When to wake up, given when the next packet is due; `None` if nothing is due.
    pub fn sleep_until(&self, min_next_ts: Option<Clock>) -> (until: Option<Clock>)
        ensures
            until == if self.max_interval_samples is Some {
                Some(earlier(min_next_ts, self.next_on_transfer))
            } else {
                min_next_ts
            },
    {
        if self.max_interval_samples.is_some() {
            earlier_of(min_next_ts, Some(self.next_on_transfer))
        } else {
            min_next_ts
        }
    }

    /// Whether commands and signs of life have to be looked for; if so, they are next looked for a
    /// 30th of a second later.
    pub fn events_due(&mut self, now: Clock, sample_rate: u32) -> (due: bool)
        ensures
            due == (clock_diff(now, old(self).next_process_events) >= 0),
            *final(self) == if due {
                TxSchedule {
                    next_process_events: now.wrapping_add((sample_rate / 30) as Clock),
                    ..*old(self)
                }
            } else {
                *old(self)
            },
    {
        if wrapped_diff(now, self.next_process_events) >= 0 {
            self.next_process_events = now.wrapping_add((sample_rate / 30) as Clock);
            true
        } else {
            false
        }
    }

    /// When the user has to be notified next after it was at `next`.
    pub open spec fn next_notification(next: Clock, now: Clock, max_interval: Clock) -> Clock {
        if clock_diff(next, now) <= 0 {
            let half = next.wrapping_add((max_interval / 2) as Clock);
            let diff = clock_diff(half, now);
            if diff < 0 || diff > max_interval * 2 {
                // the clock has jumped
                now.wrapping_add(max_interval)
            } else {
                half
            }
        } else {
            now.wrapping_add(max_interval)
        }
    }

    /// Plans the next notification of the user.
    pub fn plan_notification(&mut self, now: Clock)
        requires
            old(self).max_interval_samples is Some ==> old(self).max_interval_samples->0 * 2 <= i64::MAX,
        ensures
            *final(self) == match old(self).max_interval_samples {
                Some(max_interval) => TxSchedule {
                    next_on_transfer: TxSchedule::next_notification(
                        old(self).next_on_transfer,
                        now,
                        max_interval,
                    ),
                    ..*old(self)
                },
                None => *old(self),
            },
    {
        match self.max_interval_samples {
            Some(max_interval) => {
                if wrapped_diff(self.next_on_transfer, now) <= 0 {
                    self.next_on_transfer = self.next_on_transfer.wrapping_add(max_interval / 2);
                    let diff: ClockDiff = wrapped_diff(self.next_on_transfer, now);
                    if diff < 0 || diff > (max_interval * 2) as ClockDiff {
                        self.next_on_transfer = now.wrapping_add(max_interval);
                    }
                } else {
                    self.next_on_transfer = now.wrapping_add(max_interval);
                }
            },
            None => {},
        }
    }
}

/// The user is next notified no later than two intervals from now, and not before now.
pub proof fn notification_is_near(next: Clock, now: Clock, max_interval: Clock)
    requires
        max_interval * 2 <= i64::MAX,
    ensures
        0 <= clock_diff(TxSchedule::next_notification(next, now, max_interval), now) <= max_interval * 2,
{
    crate::common::lemma_signed_residue_within_turn(
        now.wrapping_add(max_interval) - now,
        clock_modulus(),
    );
}

} // verus!

//! Properties of media packets: receivers get what transmitters send.

use crate::byte_utils::{be32, be32_at, overwrite};
use crate::common::{Clock, Sample};
use crate::flows_rx::{packet_timestamp, samples_in_packet, MEDIA_HEADER_LENGTH};
use crate::flows_tx::{
    are_channels_written, is_channel_step, is_sendable, media_header, media_packet_len, needs_dither,
    start_position, TxBuffers, TxFlow, TxParameters,
};
use crate::ring_buffer::{
    lemma_ring_count_of_items, position_modulus, slot_at, ProxyToBuffer, RBOutput, RingBufferShared,
};
use crate::samples_utils::{
    sample_bytes, sample_from_bytes, samples_written, writing_samples_keeps_what_is_before,
    written_samples_are_read_back,
};
use vstd::prelude::*;

verus! {

/// The sample which is sent for a position: the one in the ring buffer, or silence where nothing
/// useful can be read.
pub open spec fn sent_sample<P: ProxyToBuffer<Sample>>(
    rb: RingBufferShared<Sample, P>,
    start: usize,
    fpp: int,
    k: int,
) -> Sample {
    let useful = rb.useful_items(start, fpp);
    if useful.0 <= k < useful.1 {
        rb.slots()[slot_at(rb.size(), start, k)]
    } else {
        0
    }
}

/// A sample as it is after it was sent with `width` bytes: the other bits are cleared.
pub open spec fn transported(sample: Sample, width: int) -> int {
    sample - sample as int % (if width == 2 {
        65536int
    } else if width == 3 {
        256int
    } else {
        1int
    })
}

/// What a transmitter reads does not depend on what its memory held before.
proof fn lemma_sent_samples<P: ProxyToBuffer<Sample>>(
    rb: RingBufferShared<Sample, P>,
    start: usize,
    samples: Seq<Sample>,
    fpp: int,
    k: int,
)
    requires
        0 <= k < fpp <= samples.len(),
        fpp <= rb.size(),
        rb.wf(),
    ensures
        crate::flows_tx::channel_samples(rb, start, samples, fpp).len() == samples.len(),
        crate::flows_tx::channel_samples(rb, start, samples, fpp)[k] == sent_sample(rb, start, fpp, k),
{
    rb.lemma_size_is_valid();
    let before = samples.take(fpp);
    let read = rb.read_items(start, before) + samples.skip(fpp);
    let useful = rb.useful_items(start, fpp);
    assert(before.len() == fpp);
    if rb.copied_items(start, fpp) is Some {
        let n = rb.copied_items(start, fpp)->0;
        assert(0 <= n <= fpp);
        lemma_ring_count_of_items(rb.size(), start, n);
    }
}

/// Writing samples leaves alone what stands between them.
proof fn lemma_byte_between_samples(
    src: Seq<Sample>,
    dst: Seq<u8>,
    pos: int,
    stride: int,
    width: int,
    x: int,
)
    requires
        0 <= pos,
        0 <= width <= 4,
        width <= stride,
        0 <= x < dst.len(),
        forall|j: int| 0 <= j < src.len() ==> !(pos + #[trigger] (j * stride) <= x < pos + j * stride + width),
    ensures
        samples_written(src, dst, pos, stride, width)[x] == dst[x],
    decreases src.len(),
{
    if src.len() > 0 && pos + width <= dst.len() {
        let rest = src.drop_first();
        let dst1 = overwrite(dst, pos, sample_bytes(src[0]).take(width));
        assert(0 * stride == 0) by (nonlinear_arith);
        assert(!(pos <= x < pos + width));
        assert forall|j: int| 0 <= j < rest.len() implies !(pos + stride + #[trigger] (j * stride) <= x < pos
            + stride + j * stride + width) by {
            assert((j + 1) * stride == j * stride + stride) by (nonlinear_arith);
        }
        lemma_byte_between_samples(rest, dst1, pos + stride, stride, width, x);
    }
}

/// Samples of different channels stand at different places.
proof fn lemma_places_differ(n: int, w: int, a: int, i: int, b: int, j: int)
    requires
        0 <= a < n,
        0 <= b < n,
        a != b,
        0 < w,
    ensures
        a * w + i * (n * w) + w <= b * w + j * (n * w) || b * w + j * (n * w) + w <= a * w + i * (n * w),
{
    let p = a + i * n;
    let q = b + j * n;
    assert(p != q) by {
        if p == q {
            vstd::arithmetic::div_mod::lemma_fundamental_div_mod_converse(p, n, i, a);
            vstd::arithmetic::div_mod::lemma_fundamental_div_mod_converse(q, n, j, b);
        }
    }
    assert(a * w + i * (n * w) == p * w) by (nonlinear_arith)
        requires
            p == a + i * n,
    ;
    assert(b * w + j * (n * w) == q * w) by (nonlinear_arith)
        requires
            q == b + j * n,
    ;
    if p < q {
        assert(p * w + w <= q * w) by (nonlinear_arith)
            requires
                p < q,
                0 < w,
        ;
    } else {
        assert(q * w + w <= p * w) by (nonlinear_arith)
            requires
                q < p,
                0 < w,
        ;
    }
}

/// Whether samples of the flow are sent as they are, but for bits which there is no place for.
pub open spec fn is_exact(flow: TxFlow, par: TxParameters) -> bool {
    let width = flow.bytes_per_sample;
    &&& 2 <= width <= 4
    &&& width == 2 ==> !needs_dither(par, 16)
    &&& width == 3 ==> !needs_dither(par, 24)
}

/// The place of the sample `i` of the channel `c` in a packet.
pub open spec fn sample_place(flow: TxFlow, c: int, i: int) -> int {
    MEDIA_HEADER_LENGTH + c * flow.bytes_per_sample + i * (flow.channel_indices@.len()
        * flow.bytes_per_sample)
}

/// The bytes of a sample in a packet.
pub open spec fn bytes_in_packet(flow: TxFlow, packet: Seq<u8>, c: int, i: int) -> Seq<u8> {
    packet.subrange(sample_place(flow, c, i), sample_place(flow, c, i) + flow.bytes_per_sample)
}

/// Samples lie within the packet.
proof fn lemma_place_in_packet(flow: TxFlow, c: int, i: int)
    requires
        0 <= c < flow.channel_indices@.len(),
        0 <= i < flow.fpp,
        flow.bytes_per_sample > 0,
    ensures
        MEDIA_HEADER_LENGTH <= sample_place(flow, c, i),
        sample_place(flow, c, i) + flow.bytes_per_sample <= media_packet_len(flow),
{
    let (n, w, f) = (flow.channel_indices@.len() as int, flow.bytes_per_sample as int, flow.fpp as int);
    assert(c * w + w <= n * w) by (nonlinear_arith)
        requires
            c < n,
            0 < w,
    ;
    assert(0 <= c * w) by (nonlinear_arith)
        requires
            0 <= c,
            0 < w,
    ;
    assert(i * (n * w) + n * w <= n * w * f) by (nonlinear_arith)
        requires
            i < f,
            0 <= n,
            0 < w,
    ;
    assert(0 <= i * (n * w)) by (nonlinear_arith)
        requires
            0 <= i,
            0 <= n,
            0 < w,
    ;
}

/// What one channel does to the bytes of a sample of any channel.
proof fn lemma_channel_step<P: ProxyToBuffer<Sample>>(
    flow: TxFlow,
    par: TxParameters,
    sources: Seq<RBOutput<Sample, P>>,
    before: TxBuffers,
    after: TxBuffers,
    index: int,
    c: int,
    i: int,
)
    requires
        is_exact(flow, par),
        is_sendable(flow, sources, before.samples.len() as int, before.packet.len() as int),
        is_channel_step(flow, par, sources, before, after, index),
        0 <= index < flow.channel_indices@.len(),
        0 <= c < flow.channel_indices@.len(),
        0 <= i < flow.fpp,
        flow.channel_indices@[index] matches Some(ch) ==> flow.fpp <= sources[ch as int].spec_shared().size(),
    ensures
        after.samples.len() == before.samples.len(),
        after.packet.len() == before.packet.len(),
        bytes_in_packet(flow, after.packet, c, i) == if c == index && flow.channel_indices@[c] is Some {
            sample_bytes(
                sent_sample(
                    sources[flow.channel_indices@[c]->0 as int].spec_shared(),
                    start_position(flow.next_ts, par),
                    flow.fpp as int,
                    i,
                ),
            ).take(flow.bytes_per_sample as int)
        } else {
            bytes_in_packet(flow, before.packet, c, i)
        },
{
    match flow.channel_indices@[index] {
        None => {},
        Some(ch) => {
            let (n, w, f) = (flow.channel_indices@.len() as int, flow.bytes_per_sample as int, flow.fpp as int);
            let rb = sources[ch as int].spec_shared();
            let start_ts = start_position(flow.next_ts, par);
            lemma_sent_samples(rb, start_ts, before.samples, f, i);
            let samples = after.samples.take(f);
            let start = MEDIA_HEADER_LENGTH + index * w;
            let stride = n * w;
            assert(0 <= index * w) by (nonlinear_arith)
                requires
                    0 <= index,
                    0 < w,
            ;
            assert(w <= n * w) by (nonlinear_arith)
                requires
                    1 <= n,
                    0 < w,
            ;
            writing_samples_keeps_what_is_before(samples, before.packet, start, stride, w);
            lemma_place_in_packet(flow, c, i);
            if c == index {
                written_samples_are_read_back(samples, before.packet, start, stride, w, i);
            } else {
                let at = sample_place(flow, c, i);
                assert forall|x: int| at <= x < at + w implies #[trigger] after.packet[x] == before.packet[x] by {
                    assert forall|j: int| 0 <= j < samples.len() implies !(start + #[trigger] (j * stride) <= x
                        < start + j * stride + w) by {
                        lemma_places_differ(n, w, c, i, index, j);
                    }
                    lemma_byte_between_samples(samples, before.packet, start, stride, w, x);
                }
                assert(bytes_in_packet(flow, after.packet, c, i) =~= bytes_in_packet(flow, before.packet, c, i));
            }
        },
    }
}

proof fn lemma_channels<P: ProxyToBuffer<Sample>>(
    flow: TxFlow,
    par: TxParameters,
    sources: Seq<RBOutput<Sample, P>>,
    before: TxBuffers,
    after: TxBuffers,
    m: int,
    c: int,
    i: int,
)
    requires
        is_exact(flow, par),
        is_sendable(flow, sources, before.samples.len() as int, before.packet.len() as int),
        are_channels_written(flow, par, sources, before, after, m),
        0 <= m <= flow.channel_indices@.len(),
        0 <= c < flow.channel_indices@.len(),
        0 <= i < flow.fpp,
        forall|k: int|
            0 <= k < flow.channel_indices@.len() && #[trigger] flow.channel_indices@[k] is Some ==> flow.fpp
                <= sources[flow.channel_indices@[k]->0 as int].spec_shared().size(),
    ensures
        after.samples.len() == before.samples.len(),
        after.packet.len() == before.packet.len(),
        bytes_in_packet(flow, after.packet, c, i) == if c < m && flow.channel_indices@[c] is Some {
            sample_bytes(
                sent_sample(
                    sources[flow.channel_indices@[c]->0 as int].spec_shared(),
                    start_position(flow.next_ts, par),
                    flow.fpp as int,
                    i,
                ),
            ).take(flow.bytes_per_sample as int)
        } else {
            bytes_in_packet(flow, before.packet, c, i)
        },
    decreases m,
{
    if m > 0 {
        let last = m - 1;
        let mid = choose|mid: TxBuffers|
            are_channels_written(flow, par, sources, before, mid, last) && #[trigger] is_channel_step(
                flow,
                par,
                sources,
                mid,
                after,
                last,
            );
        lemma_channels(flow, par, sources, before, mid, last, c, i);
        lemma_channel_step(flow, par, sources, mid, after, last, c, i);
    }
}

/// What a receiver reads from a packet is what the transmitter had in its ring buffers, silence
/// standing in for what it had not, with the bits cleared which a sample of that width does not have.
/// Nothing else is read for a channel which is not used than what its place held before.
pub proof fn sent_samples_are_received<P: ProxyToBuffer<Sample>>(
    flow: TxFlow,
    par: TxParameters,
    sources: Seq<RBOutput<Sample, P>>,
    before: TxBuffers,
    after: TxBuffers,
    c: int,
    i: int,
)
    requires
        is_exact(flow, par),
        is_sendable(flow, sources, before.samples.len() as int, before.packet.len() as int),
        are_channels_written(flow, par, sources, before, after, flow.channel_indices@.len() as int),
        0 <= c < flow.channel_indices@.len(),
        0 <= i < flow.fpp,
        forall|k: int|
            0 <= k < flow.channel_indices@.len() && #[trigger] flow.channel_indices@[k] is Some ==> flow.fpp
                <= sources[flow.channel_indices@[k]->0 as int].spec_shared().size(),
    ensures
        ({
            let packet = after.packet.take(media_packet_len(flow));
            let received = crate::flows_rx::channel_samples(
                packet,
                c,
                flow.channel_indices@.len() as int,
                flow.bytes_per_sample as int,
            );
            &&& received.len() == flow.fpp
            &&& flow.channel_indices@[c] matches Some(ch) ==> received[i] == transported(
                sent_sample(
                    sources[ch as int].spec_shared(),
                    start_position(flow.next_ts, par),
                    flow.fpp as int,
                    i,
                ),
                flow.bytes_per_sample as int,
            )
            &&& flow.channel_indices@[c] is None ==> received[i] == sample_from_bytes(
                bytes_in_packet(flow, before.packet, c, i),
            )
        }),
{
    let (n, w, f) = (flow.channel_indices@.len() as int, flow.bytes_per_sample as int, flow.fpp as int);
    lemma_channels(flow, par, sources, before, after, n, c, i);
    lemma_place_in_packet(flow, c, i);
    let packet = after.packet.take(media_packet_len(flow));
    assert(n * w > 0) by (nonlinear_arith)
        requires
            n > 0,
            w > 0,
    ;
    assert(samples_in_packet(packet.len() as int, n, w) == f) by {
        vstd::arithmetic::div_mod::lemma_div_multiples_vanish(f, n * w);
        assert(f * (n * w) == n * w * f) by (nonlinear_arith);
        assert((n * w) * f == n * w * f);
    }
    let at = MEDIA_HEADER_LENGTH + (i * n + c) * w;
    assert(at == sample_place(flow, c, i)) by (nonlinear_arith)
        requires
            at == MEDIA_HEADER_LENGTH + (i * n + c) * w,
            sample_place(flow, c, i) == MEDIA_HEADER_LENGTH + c * w + i * (n * w),
    ;
    assert(packet.subrange(at, at + w) =~= bytes_in_packet(flow, after.packet, c, i));
    match flow.channel_indices@[c] {
        Some(ch) => {
            let s = sent_sample(
                sources[ch as int].spec_shared(),
                start_position(flow.next_ts, par),
                f,
                i,
            );
            crate::samples_utils::sample_is_read_back(s);
            assert(sample_bytes(s).take(4) =~= sample_bytes(s));
        },
        None => {
            lemma_sample_fits(bytes_in_packet(flow, before.packet, c, i));
        },
    }
}

/// Whatever is read is a sample.
proof fn lemma_sample_fits(bytes: Seq<u8>)
    ensures
        Sample::MIN <= sample_from_bytes(bytes) <= Sample::MAX,
{
}

/// A receiver reads from a packet the timestamp which the transmitter gave to it, as long as
/// seconds can be counted in 32 bits and positions in 64.
pub proof fn sent_timestamp_is_received(next_ts: Clock, par: TxParameters, packet: Seq<u8>)
    requires
        par.sample_rate > 0,
        packet.len() >= MEDIA_HEADER_LENGTH,
        packet.take(MEDIA_HEADER_LENGTH as int) == media_header(next_ts, par),
        next_ts.wrapping_add_signed(par.clock_offset_samples) as int / (par.sample_rate as int) < 0x1_0000_0000,
        position_modulus() == 0x1_0000_0000_0000_0000,
    ensures
        packet_timestamp(packet, par.sample_rate) == next_ts.wrapping_add_signed(par.clock_offset_samples),
{
    let packet_ts = next_ts.wrapping_add_signed(par.clock_offset_samples) as int;
    let rate = par.sample_rate as int;
    let seconds = packet_ts / rate;
    let samples = packet_ts % rate;
    vstd::arithmetic::div_mod::lemma_fundamental_div_mod(packet_ts, rate);
    vstd::arithmetic::div_mod::lemma_div_pos_is_pos(packet_ts, rate);
    vstd::arithmetic::div_mod::lemma_small_mod(seconds as nat, 0x1_0000_0000);
    let header = packet.take(MEDIA_HEADER_LENGTH as int);
    assert(be32_at(packet, 1) == be32_at(header, 1) && be32_at(packet, 5) == be32_at(header, 5));
    crate::byte_utils::bytes_make_the_long_number(seconds as u32);
    crate::byte_utils::bytes_make_the_long_number(samples as u32);
    assert(header.subrange(1, 5) =~= be32(seconds as u32));
    assert(header.subrange(5, 9) =~= be32(samples as u32));
    assert(be32_at(header, 1) == be32_at(header.subrange(1, 5), 0));
    assert(be32_at(header, 5) == be32_at(header.subrange(5, 9), 0));
    assert(seconds * rate + samples == packet_ts) by (nonlinear_arith)
        requires
            packet_ts == rate * seconds + samples,
    ;
    vstd::arithmetic::div_mod::lemma_small_mod(packet_ts as nat, position_modulus() as nat);
}

} // verus!

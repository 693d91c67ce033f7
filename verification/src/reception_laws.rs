//! What is received is what the packets hold: where their samples stand, what they are, and where they go.

use crate::byte_utils::be32_at;
use crate::common::{clock_diff, Clock, ClockDiff, Sample};
use crate::flow_table::{
    handle_of, socket_number, tried_index, tries_until_unused, FlowData, FlowsTransmitter,
};
use crate::flows_rx::{channel_samples, greatest_latency, packet_timestamp, samples_in_packet, shifted_position};
use crate::samples_utils::{sample_bytes, sample_from_bytes};
use vstd::prelude::*;

verus! {

// ---------------------------------------------------------------------------------------------
// Packets
// ---------------------------------------------------------------------------------------------

/// The clock of a packet is made up of the seconds and the samples in its header.
pub proof fn packet_tells_its_clock(packet: Seq<u8>, sample_rate: u32)
    ensures
        ({
            let seconds = packet[1] * 0x100_0000 + packet[2] * 0x1_0000 + packet[3] * 0x100 + packet[4];
            let samples = packet[5] * 0x100_0000 + packet[6] * 0x1_0000 + packet[7] * 0x100 + packet[8];
            let clock = seconds * sample_rate + samples;
            &&& packet_timestamp(packet, sample_rate) == clock % (usize::MAX + 1)
            &&& clock <= usize::MAX ==> packet_timestamp(packet, sample_rate) == clock
        }),
{
    let seconds = packet[1] * 0x100_0000 + packet[2] * 0x1_0000 + packet[3] * 0x100 + packet[4];
    let samples = packet[5] * 0x100_0000 + packet[6] * 0x1_0000 + packet[7] * 0x100 + packet[8];
    let clock = seconds * sample_rate + samples;
    assert(0 <= seconds * sample_rate) by (nonlinear_arith)
        requires
            0 <= seconds,
            0 <= sample_rate,
    ;
    assert(seconds == be32_at(packet, 1));
    assert(samples == be32_at(packet, 5));
    if clock <= usize::MAX {
        vstd::arithmetic::div_mod::lemma_small_mod(clock as nat, (usize::MAX + 1) as nat);
    }
}

/// A packet holds as many frames as fit after its header, each with one sample for each channel.
pub proof fn packet_holds_whole_frames(length: int, channels: int, bytes_per_sample: int)
    requires
        9 <= length,
        0 < channels,
        0 < bytes_per_sample,
    ensures
        ({
            let frames = samples_in_packet(length, channels, bytes_per_sample);
            &&& 0 <= frames
            &&& 9 + frames * (channels * bytes_per_sample) <= length < 9 + (frames + 1) * (channels * bytes_per_sample)
        }),
{
    let s = channels * bytes_per_sample;
    assert(s > 0) by (nonlinear_arith)
        requires
            s == channels * bytes_per_sample,
            0 < channels,
            0 < bytes_per_sample,
    ;
    let frames = samples_in_packet(length, channels, bytes_per_sample);
    vstd::arithmetic::div_mod::lemma_fundamental_div_mod(length - 9, s);
    vstd::arithmetic::div_mod::lemma_mod_bound(length - 9, s);
    vstd::arithmetic::div_mod::lemma_div_pos_is_pos(length - 9, s);
    assert(s * frames == frames * s && (frames + 1) * s == frames * s + s) by (nonlinear_arith);
}

/// A number of `width` bytes, the first of which has the sign.
pub open spec fn signed_number(b: Seq<u8>) -> int {
    let first = if b[0] >= 0x80 { b[0] - 0x100 } else { b[0] as int };
    let second = b[1] as int;
    if b.len() == 2 {
        first * 0x100 + second
    } else if b.len() == 3 {
        first * 0x1_0000 + second * 0x100 + b[2]
    } else {
        first * 0x100_0000 + second * 0x1_0000 + b[2] * 0x100 + b[3]
    }
}

/// A sample is a signed number of two, three or four bytes, the first byte being the most significant
/// one of the sample.
pub proof fn samples_are_signed_numbers(b: Seq<u8>)
    requires
        2 <= b.len() <= 4,
    ensures
        b.len() == 2 ==> sample_from_bytes(b) == signed_number(b) * 0x1_0000,
        b.len() == 3 ==> sample_from_bytes(b) == signed_number(b) * 0x100,
        b.len() == 4 ==> sample_from_bytes(b) == signed_number(b),
        Sample::MIN <= sample_from_bytes(b) <= Sample::MAX,
{
    let padded = b + seq![0u8, 0u8, 0u8, 0u8];
    let u = be32_at(padded, 0);
    assert(padded[0] == b[0] && padded[1] == b[1]);
    assert(b.len() > 2 ==> padded[2] == b[2]);
    assert(b.len() > 3 ==> padded[3] == b[3]);
    assert(b.len() == 2 ==> padded[2] == 0 && padded[3] == 0);
    assert(b.len() == 3 ==> padded[3] == 0);
    assert(0 <= u < 0x1_0000_0000);
    vstd::arithmetic::div_mod::lemma_small_mod(u as nat, 0x1_0000_0000);
    assert(b[0] >= 0x80 <==> u >= 0x8000_0000);
}

/// The bytes of a sample are those of the signed number which it is.
pub proof fn sample_bytes_are_those_of_the_number(s: Sample)
    ensures
        sample_bytes(s).len() == 4,
        signed_number(sample_bytes(s)) == s,
{
    crate::samples_utils::sample_is_read_back(s);
    samples_are_signed_numbers(sample_bytes(s));
}

/// The sample `i` of a channel is the number in the frame `i` of the packet, at the place of that channel.
pub proof fn samples_stand_in_frames(packet: Seq<u8>, channel: int, channels: int, bytes_per_sample: int, i: int)
    requires
        9 <= packet.len(),
        0 <= channel < channels,
        2 <= bytes_per_sample <= 4,
        0 <= i < samples_in_packet(packet.len() as int, channels, bytes_per_sample),
    ensures
        ({
            let samples = channel_samples(packet, channel, channels, bytes_per_sample);
            let at = 9 + i * (channels * bytes_per_sample) + channel * bytes_per_sample;
            let number = signed_number(packet.subrange(at, at + bytes_per_sample));
            &&& samples.len() == samples_in_packet(packet.len() as int, channels, bytes_per_sample)
            &&& 9 <= at
            &&& at + bytes_per_sample <= packet.len()
            &&& bytes_per_sample == 2 ==> samples[i] == number * 0x1_0000
            &&& bytes_per_sample == 3 ==> samples[i] == number * 0x100
            &&& bytes_per_sample == 4 ==> samples[i] == number
        }),
{
    let (n, w) = (channels, bytes_per_sample);
    let frames = samples_in_packet(packet.len() as int, n, w);
    packet_holds_whole_frames(packet.len() as int, n, w);
    let at = 9 + i * (n * w) + channel * w;
    assert(at == 9 + (i * n + channel) * w) by (nonlinear_arith)
        requires
            at == 9 + i * (n * w) + channel * w,
    ;
    assert(0 <= i * (n * w) && 0 <= channel * w && i * (n * w) + n * w <= frames * (n * w) && channel * w + w <= n * w)
        by (nonlinear_arith)
        requires
            0 <= i < frames,
            0 <= channel < n,
            0 < w,
    ;
    samples_are_signed_numbers(packet.subrange(at, at + w));
}

/// Samples with a timestamp are written where the timestamp, moved by the shift, says: at the remainder
/// of the sum by the number of clocks, as far as positions can hold it.
pub proof fn samples_go_to_their_shifted_time(timestamp: Clock, shift: ClockDiff)
    ensures
        shifted_position(timestamp, shift) as int == (timestamp + shift) % 0x1_0000_0000_0000_0000 % (usize::MAX + 1),
        0 <= timestamp + shift <= usize::MAX ==> shifted_position(timestamp, shift) == timestamp + shift,
{
    let m = 0x1_0000_0000_0000_0000int;
    let x = timestamp + shift;
    if x >= m {
        vstd::arithmetic::div_mod::lemma_mod_sub_multiples_vanish(x, m);
        vstd::arithmetic::div_mod::lemma_small_mod((x - m) as nat, m as nat);
    } else if x < 0 {
        vstd::arithmetic::div_mod::lemma_mod_add_multiples_vanish(x, m);
        vstd::arithmetic::div_mod::lemma_small_mod((x + m) as nat, m as nat);
    } else {
        vstd::arithmetic::div_mod::lemma_small_mod(x as nat, m as nat);
    }
    if 0 <= x <= usize::MAX {
        vstd::arithmetic::div_mod::lemma_small_mod(x as nat, (usize::MAX + 1) as nat);
    }
}

/// The greatest latency is no less than before and no less than that of the packet, and it is one of
/// these; packets from the future count as having none.
pub proof fn greatest_latency_bounds_all(before: i32, now: Clock, timestamp: Clock)
    ensures
        ({
            let r = greatest_latency(before, Some(now), timestamp);
            let late = clock_diff(now, timestamp);
            &&& r >= before
            &&& 0 <= late <= i32::MAX ==> r >= late
            &&& late > i32::MAX ==> r == i32::MAX
            &&& r == before || r == late || r == 0 && late < 0 || r == i32::MAX && late > i32::MAX
        }),
        greatest_latency(before, None, timestamp) == before,
{
}

// ---------------------------------------------------------------------------------------------
// The table of transmitted flows
// ---------------------------------------------------------------------------------------------

/// The number of a socket has the four bytes of the address, the first one in front, and then the port.
pub proof fn socket_number_is_address_and_port(ip: Seq<u8>, port: u16)
    requires
        ip.len() == 4,
    ensures
        0 <= socket_number(ip, port) < 0x1_0000_0000_0000,
        socket_number(ip, port) % 0x1_0000 == port,
        socket_number(ip, port) / 0x1_0000 == ip[0] * 0x100_0000 + ip[1] * 0x1_0000 + ip[2] * 0x100 + ip[3],
{
}

/// A flow is given up for another one only if it was requested by a receiver which gave no sign of
/// life for too long; multicast flows never are.
pub proof fn only_expired_requested_flows_are_abandoned(table: FlowsTransmitter, i: int)
    ensures
        table.is_abandoned(i) ==> table.flows@[i] is Some && table.flows@[i]->0.expired && (
        table.flows_info@[i]->0.rx_hostname is Some || table.flows_info@[i]->0.rx_flow_name is Some),
        table.flows@[i] is Some && table.flows@[i]->0.expired && (table.flows_info@[i]->0.rx_hostname is Some
            || table.flows_info@[i]->0.rx_flow_name is Some) ==> table.is_abandoned(i),
{
}

/// Indices are tried in turn, and the first one which is not in use is taken.
pub proof fn first_unused_index_is_taken(flows: Seq<Option<FlowData>>, seq_id: u32, from: int)
    requires
        flows.len() == 32,
        0 <= from <= 33,
    ensures
        match tries_until_unused(flows, seq_id, from) {
            Some(k) => {
                &&& from <= k <= 32
                &&& flows[(seq_id + k) % 32] is None
                &&& forall|j: int| from <= j < k ==> #[trigger] flows[(seq_id + j) % 32] is Some
            },
            None => forall|j: int| from <= j <= 32 ==> #[trigger] flows[(seq_id + j) % 32] is Some,
        },
    decreases 33 - from,
{
    assert(tried_index(seq_id, from) == (seq_id + from) % 32);
    if from <= 32 && flows[tried_index(seq_id, from)] is Some {
        first_unused_index_is_taken(flows, seq_id, from + 1);
    }
}

/// A handle opens the flow with its index exactly if it has the cookie of that flow: of all handles with
/// that index, only the one which was given out does.
pub proof fn flow_is_opened_by_its_handle_only(table: FlowsTransmitter, handle: Seq<u8>)
    requires
        handle.len() == 6,
        table.flows@.len() == 32,
    ensures
        table.is_handle(handle) <==> exists|index: u32|
            index < 32 && table.flows@[index as int] is Some && handle == #[trigger] handle_of(
                index,
                table.flows@[index as int]->0.cookie,
            ),
{
    if table.is_handle(handle) {
        let index = be32_at(handle, 0) as u32;
        let cookie = table.flows@[index as int]->0.cookie;
        let h = handle_of(index, cookie);
        crate::flow_table::handle_is_split_again(index, cookie);
        assert(be32_at(h, 0) == be32_at(handle, 0));
        assert(h[0] == handle[0] && h[1] == handle[1] && h[2] == handle[2] && h[3] == handle[3]);
        assert(h[4] == handle[4] && h[5] == handle[5]);
        assert(handle =~= h);
    }
    if exists|index: u32|
        index < 32 && table.flows@[index as int] is Some && handle == #[trigger] handle_of(
            index,
            table.flows@[index as int]->0.cookie,
        ) {
        let index = choose|index: u32|
            index < 32 && table.flows@[index as int] is Some && handle == #[trigger] handle_of(
                index,
                table.flows@[index as int]->0.cookie,
            );
        crate::flow_table::handle_is_split_again(index, table.flows@[index as int]->0.cookie);
    }
}

} // verus!

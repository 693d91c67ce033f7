//! A transmitter understands the requests that receivers make.

use crate::byte_utils::{be16, be16_at, be32, be32_at, written_string_is_found};
use crate::flows_control_server::{
    channel_index, channel_indices_at, has_string, is_readable_request, is_readable_update, is_short_request,
    string_at, ReceivedFlowRequest,
};
use crate::protocol::flows_control::{
    channels_bytes, lemma_channels_bytes_len, low16, strings_start_at_offset, FlowHandle, FlowRequest,
    OPCODE_REQUEST_FLOW, START_CODE,
};
use crate::protocol::req_resp::{packet, HEADER_LENGTH};
use vstd::prelude::*;
use vstd::utf8::encode_utf8;

verus! {

/// The identifier which stands for a channel in a request.
pub open spec fn channel_id(channel: Option<u16>) -> int {
    match channel {
        Some(id) => id as int,
        None => 0,
    }
}

/// The identifiers of channels are read where they were written.
pub proof fn channels_are_read_back(channels: Seq<Option<u16>>, i: int)
    requires
        0 <= i < channels.len(),
    ensures
        be16_at(channels_bytes(channels), i * 2) == channel_id(channels[i]),
        channels_bytes(channels).len() == 2 * channels.len(),
    decreases channels.len(),
{
    lemma_channels_bytes_len(channels);
    lemma_channels_bytes_len(channels.drop_last());
    if i < channels.len() - 1 {
        channels_are_read_back(channels.drop_last(), i);
    }
}

/// A sequence within another one is read through the other one.
proof fn lemma_be16_within(whole: Seq<u8>, part: Seq<u8>, start: int, offset: int)
    requires
        0 <= start,
        0 <= offset,
        offset + 2 <= part.len(),
        start + part.len() <= whole.len(),
        whole.subrange(start, start + part.len()) == part,
    ensures
        be16_at(whole, start + offset) == be16_at(part, offset),
{
    assert(whole.subrange(start, start + part.len())[offset] == whole[start + offset]);
    assert(whole.subrange(start, start + part.len())[offset + 1] == whole[start + offset + 1]);
}

/// The numbers before the channels.
#[verifier::opaque]
spec fn head(r: FlowRequest) -> Seq<u8> {
    be16(low16(r.strings_offset())) + be32(r.sample_rate) + be32(r.bits_per_sample) + be16(1) + be16(
        low16(r.channels@.len() as int),
    ) + be16(low16(r.address_offset()))
}

/// The numbers after the channels.
#[verifier::opaque]
spec fn tail(r: FlowRequest) -> Seq<u8> {
    be16(low16((0x1c + 2 * r.channels@.len()) as int)) + be16(0x0a00) + be16(0x0002) + be16(r.fpp) + be16(
        low16(r.flow_name_offset()),
    ) + Seq::new(12, |i: int| 0u8)
}

proof fn lemma_head(r: FlowRequest)
    ensures
        head(r).len() == 16,
        be16_at(head(r), 0) == low16(r.strings_offset()),
        be32_at(head(r), 2) == r.sample_rate,
        be32_at(head(r), 6) == r.bits_per_sample,
        be16_at(head(r), 12) == low16(r.channels@.len() as int),
        be16_at(head(r), 14) == low16(r.address_offset()),
{
    reveal(head);
    let h = head(r);
    let rate = be32(r.sample_rate);
    let bits = be32(r.bits_per_sample);
    assert(h[2] == rate[0] && h[3] == rate[1] && h[4] == rate[2] && h[5] == rate[3]);
    assert(h[6] == bits[0] && h[7] == bits[1] && h[8] == bits[2] && h[9] == bits[3]);
    crate::byte_utils::bytes_make_the_long_number(r.sample_rate);
    crate::byte_utils::bytes_make_the_long_number(r.bits_per_sample);
}

proof fn lemma_tail(r: FlowRequest)
    ensures
        tail(r).len() == 22,
        be16_at(tail(r), 6) == r.fpp,
        be16_at(tail(r), 8) == low16(r.flow_name_offset()),
{
    reveal(tail);
}

proof fn lemma_parts(r: FlowRequest)
    ensures
        r.body() == head(r) + channels_bytes(r.channels@) + tail(r) + (r.names() + r.padding() + r.address()),
{
    reveal(head);
    reveal(tail);
    let c = channels_bytes(r.channels@);
    let t1 = be16(low16((0x1c + 2 * r.channels@.len()) as int));
    let t2 = be16(0x0a00);
    let t3 = be16(0x0002);
    let t4 = be16(r.fpp);
    let t5 = be16(low16(r.flow_name_offset()));
    let t6 = Seq::new(12, |i: int| 0u8);
    let hc = head(r) + c;
    assert(hc + t1 + t2 + t3 + t4 + t5 + t6 =~= hc + (t1 + t2 + t3 + t4 + t5 + t6));
}

/// Where the parts of a content are.
proof fn lemma_where(c: Seq<u8>, h: Seq<u8>, chs: Seq<u8>, t: Seq<u8>, strings: Seq<u8>)
    requires
        c == h + chs + t + strings,
    ensures
        c.subrange(0, h.len() as int) == h,
        c.subrange(h.len() as int, (h.len() + chs.len()) as int) == chs,
        c.subrange((h.len() + chs.len()) as int, (h.len() + chs.len() + t.len()) as int) == t,
        c.skip((h.len() + chs.len() + t.len()) as int) == strings,
{
    assert(c.subrange(0, h.len() as int) =~= h);
    assert(c.subrange(h.len() as int, (h.len() + chs.len()) as int) =~= chs);
    assert(c.subrange((h.len() + chs.len()) as int, (h.len() + chs.len() + t.len()) as int) =~= t);
    assert(c.skip((h.len() + chs.len() + t.len()) as int) =~= strings);
}

proof fn lemma_be32_within(whole: Seq<u8>, part: Seq<u8>, start: int, offset: int)
    requires
        0 <= start,
        0 <= offset,
        offset + 4 <= part.len(),
        start + part.len() <= whole.len(),
        whole.subrange(start, start + part.len()) == part,
    ensures
        be32_at(whole, start + offset) == be32_at(part, offset),
{
    let sub = whole.subrange(start, start + part.len());
    assert(sub[offset] == whole[start + offset] && sub[offset + 1] == whole[start + offset + 1]);
    assert(sub[offset + 2] == whole[start + offset + 2] && sub[offset + 3] == whole[start + offset + 3]);
}

/// The channels in the request.
proof fn lemma_channels(c: Seq<u8>, channels: Seq<Option<u16>>)
    requires
        c.len() >= 16 + 2 * channels.len(),
        c.subrange(16, 16 + channels_bytes(channels).len() as int) == channels_bytes(channels),
    ensures
        channel_indices_at(c, 16, channels.len() as int) == Seq::new(
            channels.len(),
            |i: int| channel_index(channel_id(channels[i])),
        ),
{
    let n = channels.len() as int;
    lemma_channels_bytes_len(channels);
    assert forall|i: int| 0 <= i < n implies be16_at(c, 16 + i * 2) == channel_id(channels[i]) by {
        channels_are_read_back(channels, i);
        lemma_be16_within(c, channels_bytes(channels), 16, i * 2);
    }
    assert(channel_indices_at(c, 16, n) =~= Seq::new(
        channels.len(),
        |i: int| channel_index(channel_id(channels[i])),
    ));
}

/// The numbers and the channels in the content of the request.
proof fn lemma_numbers(r: FlowRequest, c: Seq<u8>, strings: Seq<u8>)
    requires
        c == head(r) + channels_bytes(r.channels@) + tail(r) + strings,
    ensures
        ({
            let n = r.channels@.len() as int;
            &&& c.len() >= 16 + n * 2 + 22
            &&& be16_at(c, 0) == low16(r.strings_offset())
            &&& be32_at(c, 2) == r.sample_rate
            &&& be32_at(c, 6) == r.bits_per_sample
            &&& be16_at(c, 12) == low16(n)
            &&& be16_at(c, 14) == low16(r.address_offset())
            &&& be16_at(c, 16 + n * 2 + 6) == r.fpp
            &&& be16_at(c, 16 + n * 2 + 8) == low16(r.flow_name_offset())
            &&& channel_indices_at(c, 16, n) == Seq::new(
                r.channels@.len(),
                |i: int| channel_index(channel_id(r.channels@[i])),
            )
            &&& c.skip(16 + n * 2 + 22) == strings
        }),
{
    let n = r.channels@.len() as int;
    let h = head(r);
    let t = tail(r);
    let chs = channels_bytes(r.channels@);
    lemma_head(r);
    lemma_tail(r);
    lemma_channels_bytes_len(r.channels@);
    lemma_where(c, h, chs, t, strings);
    lemma_be16_within(c, h, 0, 0);
    lemma_be32_within(c, h, 0, 2);
    lemma_be32_within(c, h, 0, 6);
    lemma_be16_within(c, h, 0, 12);
    lemma_be16_within(c, h, 0, 14);
    lemma_be16_within(c, t, 16 + 2 * n, 6);
    lemma_be16_within(c, t, 16 + 2 * n, 8);
    lemma_channels(c, r.channels@);
}

/// The strings and the address in a packet in which they start where they have to.
proof fn lemma_strings(r: FlowRequest, bytes: Seq<u8>)
    requires
        bytes.len() >= r.strings_offset(),
        bytes.skip(r.strings_offset()) == r.names() + r.padding() + r.address(),
        forall|i: int| 0 <= i < encode_utf8(r.hostname@).len() ==> #[trigger] encode_utf8(r.hostname@)[i] != 0,
        forall|i: int|
            0 <= i < encode_utf8(r.rx_flow_name@).len() ==> #[trigger] encode_utf8(r.rx_flow_name@)[i] != 0,
    ensures
        has_string(bytes, r.strings_offset()),
        string_at(bytes, r.strings_offset()) == r.hostname@,
        has_string(bytes, r.flow_name_offset()),
        string_at(bytes, r.flow_name_offset()) == r.rx_flow_name@,
        bytes.len() == r.address_offset() + 8,
        be16_at(bytes, r.address_offset() + 2) == r.rx_port,
        bytes.subrange(r.address_offset() + 4, r.address_offset() + 8) == r.ip_address@,
{
    let so = r.strings_offset();
    let fo = r.flow_name_offset();
    let ao = r.address_offset();
    let strings = r.names() + r.padding() + r.address();
    let host = encode_utf8(r.hostname@);
    let name = encode_utf8(r.rx_flow_name@);
    let address = r.address();
    assert(address.len() == 8);
    assert(bytes.skip(so).len() == bytes.len() - so);
    assert(strings.len() == host.len() + 1 + name.len() + 1 + r.padding().len() + 8);
    assert forall|i: int| 0 <= i < strings.len() implies #[trigger] bytes[so + i] == strings[i] by {
        assert(bytes.skip(so)[i] == bytes[so + i]);
    }
    assert forall|i: int| 0 <= i < host.len() implies bytes.subrange(so, so + host.len())[i] == host[i] by {
        assert(bytes[so + i] == strings[i]);
    }
    assert(bytes.subrange(so, so + host.len()) =~= host);
    assert(bytes[so + host.len()] == strings[host.len() as int]);
    written_string_is_found(bytes, so, host);
    let m = host.len() as int + 1;
    assert forall|i: int| 0 <= i < name.len() implies bytes.subrange(fo, fo + name.len())[i] == name[i] by {
        assert(bytes[so + (m + i)] == strings[m + i]);
    }
    assert(bytes.subrange(fo, fo + name.len()) =~= name);
    assert(bytes[so + (m + name.len())] == strings[m + name.len()]);
    written_string_is_found(bytes, fo, name);
    vstd::utf8::encode_utf8_valid_utf8(r.hostname@);
    vstd::utf8::encode_utf8_valid_utf8(r.rx_flow_name@);
    vstd::utf8::encode_utf8_decode_utf8(r.hostname@);
    vstd::utf8::encode_utf8_decode_utf8(r.rx_flow_name@);
    let k = (r.names().len() + r.padding().len()) as int;
    assert(ao == so + k);
    assert forall|i: int| 0 <= i < 8 implies #[trigger] bytes[ao + i] == address[i] by {
        assert(bytes[so + (k + i)] == strings[k + i]);
    }
    assert(bytes[ao + 2] == address[2] && bytes[ao + 3] == address[3]);
    assert(be16_at(address, 2) == r.rx_port);
    assert forall|i: int| 0 <= i < 4 implies bytes.subrange(ao + 4, ao + 8)[i] == r.ip_address@[i] by {
        assert(bytes[ao + (4 + i)] == address[4 + i]);
    }
    assert(bytes.subrange(ao + 4, ao + 8) =~= r.ip_address@);
}

/// A request for a flow arrives as it was sent: the transmitter reads from the packet exactly what
/// the receiver has put into the request.
pub proof fn flow_request_is_understood(r: FlowRequest, seqnum: u16, received: ReceivedFlowRequest)
    requires
        r.body().len() + HEADER_LENGTH < 0x1_0000,
        forall|i: int| 0 <= i < encode_utf8(r.hostname@).len() ==> #[trigger] encode_utf8(r.hostname@)[i] != 0,
        forall|i: int|
            0 <= i < encode_utf8(r.rx_flow_name@).len() ==> #[trigger] encode_utf8(r.rx_flow_name@)[i] != 0,
    ensures
        ({
            let bytes = packet(START_CODE, seqnum, OPCODE_REQUEST_FLOW, 0, r.body());
            &&& is_readable_request(bytes)
            &&& !is_short_request(bytes)
            &&& received.is_in(bytes) ==> {
                &&& received.hostname@ == r.hostname@
                &&& received.rx_flow_name@ == r.rx_flow_name@
                &&& received.sample_rate == r.sample_rate
                &&& received.bits_per_sample == r.bits_per_sample
                &&& received.fpp == r.fpp
                &&& received.channel_indices@ == Seq::new(
                    r.channels@.len(),
                    |i: int| channel_index(channel_id(r.channels@[i])),
                )
                &&& received.rx_ip@ == r.ip_address@
                &&& received.rx_port == r.rx_port
            }
        }),
{
    lemma_skip_header(seqnum, r.body());
    lemma_parts(r);
    strings_start_at_offset(r);
    lemma_channels_bytes_len(r.channels@);
    lemma_fixed_part_len(r);
    lemma_understood(
        r,
        packet(START_CODE, seqnum, OPCODE_REQUEST_FLOW, 0, r.body()),
        r.body(),
        r.names() + r.padding() + r.address(),
        received,
    );
}

proof fn lemma_fixed_part_len(r: FlowRequest)
    ensures
        r.body().len() == r.fixed_part().len() + (r.names() + r.padding() + r.address()).len(),
        r.strings_offset() == 16 + r.channels@.len() * 2 + 22 + HEADER_LENGTH,
{
}

/// What the transmitter reads from a packet with the parts of a request in it.

proof fn lemma_understood(
    r: FlowRequest,
    bytes: Seq<u8>,
    body: Seq<u8>,
    strings: Seq<u8>,
    received: ReceivedFlowRequest,
)
    requires
        bytes.len() == body.len() + HEADER_LENGTH,
        bytes.len() < 0x1_0000,
        bytes.skip(HEADER_LENGTH as int) == body,
        body == head(r) + channels_bytes(r.channels@) + tail(r) + strings,
        strings == r.names() + r.padding() + r.address(),
        forall|i: int| 0 <= i < encode_utf8(r.hostname@).len() ==> #[trigger] encode_utf8(r.hostname@)[i] != 0,
        forall|i: int|
            0 <= i < encode_utf8(r.rx_flow_name@).len() ==> #[trigger] encode_utf8(r.rx_flow_name@)[i] != 0,
    ensures
        is_readable_request(bytes),
        !is_short_request(bytes),
        received.is_in(bytes) ==> {
            &&& received.hostname@ == r.hostname@
            &&& received.rx_flow_name@ == r.rx_flow_name@
            &&& received.sample_rate == r.sample_rate
            &&& received.bits_per_sample == r.bits_per_sample
            &&& received.fpp == r.fpp
            &&& received.channel_indices@ == Seq::new(
                r.channels@.len(),
                |i: int| channel_index(channel_id(r.channels@[i])),
            )
            &&& received.rx_ip@ == r.ip_address@
            &&& received.rx_port == r.rx_port
        },
{
    let n = r.channels@.len() as int;
    lemma_numbers(r, body, strings);
    let so = r.strings_offset();
    assert(so == 16 + n * 2 + 22 + HEADER_LENGTH);
    lemma_skip_more(bytes, body, 16 + n * 2 + 22);
    lemma_offsets(r);
    let fo = r.flow_name_offset();
    let ao = r.address_offset();
    lemma_strings(r, bytes);
    lemma_low16(so);
    lemma_low16(fo);
    lemma_low16(ao);
    lemma_low16(n);
    lemma_fields(r, bytes, body, so, fo, ao, received);
}

proof fn lemma_low16(v: int)
    requires
        0 <= v < 0x1_0000,
    ensures
        low16(v) == v,
{
}

proof fn lemma_skip_more(bytes: Seq<u8>, body: Seq<u8>, k: int)
    requires
        bytes.len() >= HEADER_LENGTH,
        bytes.skip(HEADER_LENGTH as int) == body,
        0 <= k <= body.len(),
    ensures
        bytes.skip(HEADER_LENGTH + k) == body.skip(k),
{
    assert(bytes.skip(HEADER_LENGTH + k) =~= body.skip(k));
}

/// The fields of the request follow from where its parts are.
proof fn lemma_fields(
    r: FlowRequest,
    bytes: Seq<u8>,
    body: Seq<u8>,
    so: int,
    fo: int,
    ao: int,
    received: ReceivedFlowRequest,
)
    requires
        bytes.skip(HEADER_LENGTH as int) == body,
        body.len() >= 16 + r.channels@.len() * 2 + 22,
        16 + r.channels@.len() * 2 + 22 < 0x1_0000,
        be16_at(body, 0) == so,
        be32_at(body, 2) == r.sample_rate,
        be32_at(body, 6) == r.bits_per_sample,
        be16_at(body, 12) == r.channels@.len(),
        be16_at(body, 14) == ao,
        be16_at(body, 16 + r.channels@.len() as int * 2 + 6) == r.fpp,
        be16_at(body, 16 + r.channels@.len() as int * 2 + 8) == fo,
        channel_indices_at(body, 16, r.channels@.len() as int) == Seq::new(
            r.channels@.len(),
            |i: int| channel_index(channel_id(r.channels@[i])),
        ),
        has_string(bytes, so),
        string_at(bytes, so) == r.hostname@,
        has_string(bytes, fo),
        string_at(bytes, fo) == r.rx_flow_name@,
        bytes.len() == ao + 8,
        be16_at(bytes, ao + 2) == r.rx_port,
        bytes.subrange(ao + 4, ao + 8) == r.ip_address@,
    ensures
        is_readable_request(bytes),
        !is_short_request(bytes),
        received.is_in(bytes) ==> {
            &&& received.hostname@ == r.hostname@
            &&& received.rx_flow_name@ == r.rx_flow_name@
            &&& received.sample_rate == r.sample_rate
            &&& received.bits_per_sample == r.bits_per_sample
            &&& received.fpp == r.fpp
            &&& received.channel_indices@ == Seq::new(
                r.channels@.len(),
                |i: int| channel_index(channel_id(r.channels@[i])),
            )
            &&& received.rx_ip@ == r.ip_address@
            &&& received.rx_port == r.rx_port
        },
{
}

proof fn lemma_offsets(r: FlowRequest)
    ensures
        r.strings_offset() < r.flow_name_offset() < r.address_offset(),
        r.channels@.len() * 2 < r.strings_offset(),
{
}

proof fn lemma_skip_header(seqnum: u16, body: Seq<u8>)
    ensures
        packet(START_CODE, seqnum, OPCODE_REQUEST_FLOW, 0, body).skip(HEADER_LENGTH as int) == body,
        packet(START_CODE, seqnum, OPCODE_REQUEST_FLOW, 0, body).len() == body.len() + HEADER_LENGTH,
{
    assert(packet(START_CODE, seqnum, OPCODE_REQUEST_FLOW, 0, body).skip(HEADER_LENGTH as int) =~= body);
}

/// The packet of a request for a flow is not too short, and the sample rate and the number of frames per
/// packet stand where they are looked for.
pub proof fn flow_request_numbers_are_read(r: FlowRequest, seqnum: u16)
    requires
        r.body().len() + HEADER_LENGTH < 0x1_0000,
        forall|i: int| 0 <= i < encode_utf8(r.hostname@).len() ==> #[trigger] encode_utf8(r.hostname@)[i] != 0,
        forall|i: int|
            0 <= i < encode_utf8(r.rx_flow_name@).len() ==> #[trigger] encode_utf8(r.rx_flow_name@)[i] != 0,
    ensures
        ({
            let bytes = packet(START_CODE, seqnum, OPCODE_REQUEST_FLOW, 0, r.body());
            let c = bytes.skip(HEADER_LENGTH as int);
            &&& !is_short_request(bytes)
            &&& be16_at(c, 12) == r.channels@.len()
            &&& be32_at(c, 2) == r.sample_rate
            &&& be16_at(c, 16 + r.channels@.len() as int * 2 + 6) == r.fpp
        }),
{
    let bytes = packet(START_CODE, seqnum, OPCODE_REQUEST_FLOW, 0, r.body());
    let received = choose|received: ReceivedFlowRequest| received.is_in(bytes);
    flow_request_is_understood(r, seqnum, received);
    lemma_skip_header(seqnum, r.body());
    lemma_parts(r);
    lemma_fixed_part_len(r);
    strings_start_at_offset(r);
    lemma_read_numbers(r, r.body(), r.names() + r.padding() + r.address());
}

proof fn lemma_read_numbers(r: FlowRequest, body: Seq<u8>, strings: Seq<u8>)
    requires
        body == head(r) + channels_bytes(r.channels@) + tail(r) + strings,
        r.channels@.len() < 0x1_0000,
    ensures
        be16_at(body, 12) == r.channels@.len(),
        be32_at(body, 2) == r.sample_rate,
        be16_at(body, 16 + r.channels@.len() as int * 2 + 6) == r.fpp,
{
    lemma_numbers(r, body, strings);
    lemma_low16(r.channels@.len() as int);
}

/// A request that a flow carry other channels arrives as it was sent.
pub proof fn update_request_is_understood(handle: FlowHandle, channels: Seq<Option<u16>>)
    requires
        channels.len() < 0x1_0000,
    ensures
        ({
            let c = handle@ + be16(low16(channels.len() as int)) + channels_bytes(channels);
            &&& is_readable_update(c)
            &&& c.take(6) == handle@
            &&& channel_indices_at(c, 8, be16_at(c, 6)) == Seq::new(
                channels.len(),
                |i: int| channel_index(channel_id(channels[i])),
            )
        }),
{
    let chs = channels_bytes(channels);
    let c = handle@ + be16(low16(channels.len() as int)) + chs;
    lemma_channels_bytes_len(channels);
    assert(handle@.len() == 6);
    assert(c.take(6) =~= handle@);
    assert(be16_at(c, 6) == channels.len());
    assert(c.subrange(8, 8 + chs.len() as int) =~= chs);
    assert forall|i: int| 0 <= i < channels.len() implies be16_at(c, 8 + i * 2) == channel_id(channels[i]) by {
        channels_are_read_back(channels, i);
        lemma_be16_within(c, chs, 8, i * 2);
    }
    assert(channel_indices_at(c, 8, channels.len() as int) =~= Seq::new(
        channels.len(),
        |i: int| channel_index(channel_id(channels[i])),
    ));
}

} // verus!

//! What stands where in packets.

use crate::byte_utils::{be16, be16_at, be32, be32_at};
use crate::cmc_server::description;
use crate::device_info::DeviceInfo;
use crate::flow_request_laws::{flow_request_is_understood, update_request_is_understood};
use crate::flows_control_server::{is_action_for, FlowAction};
use crate::info_mcast_server::{
    board_features, board_info_content, board_info_opcode, filled, heartbeat_content, heartbeat_opcode,
    is_request_opcode, product_info_content, product_info_opcode, vendor_field, with_text, Announcement, Destination,
    Multicaster,
};
use crate::protocol::flows_control::{
    channels_bytes, low16, FlowHandle, FlowRequest, OPCODE_REQUEST_FLOW, OPCODE_STOP_FLOW, OPCODE_UPDATE_FLOW,
    START_CODE,
};
use crate::protocol::{mcast, req_resp};
use vstd::prelude::*;
use vstd::utf8::encode_utf8;

verus! {

// ---------------------------------------------------------------------------------------------
// Numbers
// ---------------------------------------------------------------------------------------------

/// The most significant byte of a number comes first, both when it is written and when it is read.
pub proof fn numbers_begin_with_their_upper_bytes(u: u16, v: u32, bytes: Seq<u8>, at: int)
    ensures
        be16(u).len() == 2,
        be16(u)[0] * 256 + be16(u)[1] == u,
        be32(v).len() == 4,
        be32(v)[0] * 0x100_0000 + be32(v)[1] * 0x1_0000 + be32(v)[2] * 0x100 + be32(v)[3] == v,
        be16_at(bytes, at) == bytes[at] * 256 + bytes[at + 1],
        be32_at(bytes, at) == bytes[at] * 0x100_0000 + bytes[at + 1] * 0x1_0000 + bytes[at + 2] * 0x100 + bytes[at
            + 3],
{
}

// ---------------------------------------------------------------------------------------------
// Headers
// ---------------------------------------------------------------------------------------------

/// The header of a request or a response has ten bytes: the start code, the length of the packet, the
/// number of the request, and two operation codes; the content follows.
pub proof fn request_header_is_laid_out(
    start_code: u16,
    seqnum: u16,
    opcode1: u16,
    opcode2: u16,
    content: Seq<u8>,
)
    requires
        content.len() + 10 < 0x1_0000,
    ensures
        ({
            let p = req_resp::packet(start_code, seqnum, opcode1, opcode2, content);
            &&& p.len() == content.len() + 10
            &&& p[0] * 256 + p[1] == start_code
            &&& p[2] * 256 + p[3] == p.len()
            &&& p[4] * 256 + p[5] == seqnum
            &&& p[6] * 256 + p[7] == opcode1
            &&& p[8] * 256 + p[9] == opcode2
            &&& forall|i: int| 0 <= i < content.len() ==> #[trigger] content[i] == p[10 + i]
        }),
{
    let p = req_resp::packet(start_code, seqnum, opcode1, opcode2, content);
    assert forall|i: int| 0 <= i < content.len() implies #[trigger] content[i] == p[10 + i] by {}
}

/// The header of an announcement has thirty-two bytes: the start code, the length of the packet, its
/// number, two zeros, the identifier of the device, its vendor, and the operation code.
pub proof fn announcement_header_is_laid_out(
    start_code: u16,
    seqnum: u16,
    factory_device_id: Seq<u8>,
    vendor: Seq<u8>,
    opcode: Seq<u8>,
    content: Seq<u8>,
)
    requires
        factory_device_id.len() == 8,
        vendor.len() == 8,
        opcode.len() == 8,
        content.len() + 32 < 0x1_0000,
    ensures
        ({
            let p = mcast::packet(start_code, seqnum, factory_device_id, vendor, opcode, content);
            &&& p.len() == content.len() + 32
            &&& p[0] * 256 + p[1] == start_code
            &&& p[2] * 256 + p[3] == p.len()
            &&& p[4] * 256 + p[5] == seqnum
            &&& p[6] == 0 && p[7] == 0
            &&& p.subrange(8, 16) == factory_device_id
            &&& p.subrange(16, 24) == vendor
            &&& p.subrange(24, 32) == opcode
            &&& p.subrange(32, p.len() as int) == content
        }),
{
    let p = mcast::packet(start_code, seqnum, factory_device_id, vendor, opcode, content);
    assert(p.subrange(8, 16) =~= factory_device_id);
    assert(p.subrange(16, 24) =~= vendor);
    assert(p.subrange(24, 32) =~= opcode);
    assert(p.subrange(32, p.len() as int) =~= content);
}

// ---------------------------------------------------------------------------------------------
// Descriptions of this device
// ---------------------------------------------------------------------------------------------

/// The description of this device as a node of the network has its process, its identifier, its address
/// and the port for requests of information.
pub proof fn node_is_described(info: &DeviceInfo)
    ensures
        ({
            let d = description(info);
            &&& d.len() == 22
            &&& d[0] * 256 + d[1] == info.process_id
            &&& d.subrange(2, 10) == info.factory_device_id@
            &&& d.subrange(14, 18) == info.ip_address@
            &&& d[18] * 256 + d[19] == info.info_request_port
        }),
{
    let d = description(info);
    assert(d.subrange(2, 10) =~= info.factory_device_id@);
    assert(d.subrange(14, 18) =~= info.ip_address@);
    let port = be16(info.info_request_port);
    assert(d[18] == port[0] && d[19] == port[1]);
}

/// Whether the beginning of the text stands at `at`, no more than `max_len` bytes of it.
pub open spec fn text_begins(bytes: Seq<u8>, at: int, max_len: int, text: Seq<char>) -> bool {
    let e = encode_utf8(text);
    let n = if e.len() < max_len { e.len() as int } else { max_len };
    at + n <= bytes.len() && bytes.subrange(at, at + n) == e.subrange(0, n)
}

/// A text put into bytes begins where it was put and changes no more than its room.
pub proof fn text_is_put_in_place(bytes: Seq<u8>, offset: int, max_len: int, text: Seq<char>)
    requires
        0 <= offset,
        0 <= max_len,
        offset + max_len <= bytes.len(),
    ensures
        ({
            let r = with_text(bytes, offset, max_len, text);
            &&& r.len() == bytes.len()
            &&& text_begins(r, offset, max_len, text)
            &&& forall|i: int|
                0 <= i < bytes.len() && (i < offset || i >= offset + max_len || i >= offset + encode_utf8(text).len())
                    ==> #[trigger] r[i] == bytes[i]
        }),
{
    let r = with_text(bytes, offset, max_len, text);
    let e = encode_utf8(text);
    let n = if e.len() < max_len { e.len() as int } else { max_len };
    assert(r.subrange(offset, offset + n) =~= e.subrange(0, n));
}

/// What stood at another place before a text was put into bytes stands there afterwards.
proof fn lemma_other_text(bytes: Seq<u8>, offset: int, max_len: int, text: Seq<char>, at: int, len: int, other: Seq<char>)
    requires
        0 <= offset,
        0 <= max_len,
        offset + max_len <= bytes.len(),
        0 <= at,
        0 <= len,
        at + len <= bytes.len(),
        at + len <= offset || offset + max_len <= at,
        text_begins(bytes, at, len, other),
    ensures
        text_begins(with_text(bytes, offset, max_len, text), at, len, other),
{
    text_is_put_in_place(bytes, offset, max_len, text);
    let r = with_text(bytes, offset, max_len, text);
    let e = encode_utf8(other);
    let n = if e.len() < len { e.len() as int } else { len };
    assert(r.subrange(at, at + n) =~= bytes.subrange(at, at + n));
}

/// The vendor is the beginning of its name, filled up with spaces.
pub proof fn vendor_is_filled_up(vendor: Seq<char>, i: int)
    requires
        0 <= i < 8,
    ensures
        vendor_field(vendor).len() == 8,
        vendor_field(vendor)[i] == if i < encode_utf8(vendor).len() { encode_utf8(vendor)[i] } else { 0x20 },
{
}

/// The description of the board has the version of the library and the name of the board.
pub proof fn board_is_described(info: &DeviceInfo, version: Seq<u8>)
    requires
        version.len() == 4,
    ensures
        ({
            let c = board_info_content(info, version);
            &&& c.len() == 200
            &&& c.subrange(0, 4) == version
            &&& text_begins(c, 12, 8, info.board_name@)
            &&& text_begins(c, 0x38, 16, info.board_name@)
        }),
{
    let f = board_features(version);
    let g = with_text(f, 12, 8, info.board_name@);
    let c = board_info_content(info, version);
    assert(f.len() == 200);
    text_is_put_in_place(f, 12, 8, info.board_name@);
    text_is_put_in_place(g, 0x38, 16, info.board_name@);
    lemma_other_text(g, 0x38, 16, info.board_name@, 12, 8, info.board_name@);
    assert(f.subrange(0, 4) =~= version);
    assert(c.subrange(0, 4) =~= f.subrange(0, 4));
}

/// The description of the product has the names of the manufacturer, of the board and of the model.
pub proof fn product_is_described(info: &DeviceInfo)
    ensures
        ({
            let c = product_info_content(info);
            &&& c.len() == 336
            &&& text_begins(c, 0, 8, info.manufacturer@)
            &&& text_begins(c, 8, 8, info.board_name@)
            &&& text_begins(c, 0x2c, 16, info.manufacturer@)
            &&& text_begins(c, 0xac, 16, info.model_name@)
        }),
{
    let c0 = filled(336, 0);
    let c1 = with_text(c0, 0, 8, info.manufacturer@);
    let c2 = with_text(c1, 8, 8, info.board_name@);
    let c3 = with_text(c2, 0x2c, 16, info.manufacturer@);
    text_is_put_in_place(c0, 0, 8, info.manufacturer@);
    text_is_put_in_place(c1, 8, 8, info.board_name@);
    text_is_put_in_place(c2, 0x2c, 16, info.manufacturer@);
    text_is_put_in_place(c3, 0xac, 16, info.model_name@);
    lemma_other_text(c1, 8, 8, info.board_name@, 0, 8, info.manufacturer@);
    lemma_other_text(c2, 0x2c, 16, info.manufacturer@, 0, 8, info.manufacturer@);
    lemma_other_text(c2, 0x2c, 16, info.manufacturer@, 8, 8, info.board_name@);
    lemma_other_text(c3, 0xac, 16, info.model_name@, 0, 8, info.manufacturer@);
    lemma_other_text(c3, 0xac, 16, info.model_name@, 8, 8, info.board_name@);
    lemma_other_text(c3, 0xac, 16, info.model_name@, 0x2c, 16, info.manufacturer@);
}

/// A heartbeat tells its number.
pub proof fn heartbeat_is_numbered(seqnum: u16)
    ensures
        heartbeat_content(seqnum).len() == 16,
        heartbeat_content(seqnum)[8] * 256 + heartbeat_content(seqnum)[9] == seqnum,
{
}

/// An announcement comes from this device, with its next number and with the message.
pub proof fn announcement_tells_its_device(
    multicaster: Multicaster,
    announcement: Announcement,
    destination: Destination,
    start_code: u16,
    opcode: Seq<u8>,
    content: Seq<u8>,
)
    requires
        multicaster.announces(announcement, destination, start_code, opcode, content),
        multicaster.device_id().len() == 8,
        multicaster.spec_vendor().len() == 8,
        opcode.len() == 8,
        content.len() + 32 < 0x1_0000,
    ensures
        announcement.destination == destination,
        announcement.packet@.len() == content.len() + 32,
        announcement.packet@[0] * 256 + announcement.packet@[1] == start_code,
        announcement.packet@[4] * 256 + announcement.packet@[5] == multicaster.next_seqnum(),
        announcement.packet@.subrange(8, 16) == multicaster.device_id(),
        announcement.packet@.subrange(16, 24) == multicaster.spec_vendor(),
        announcement.packet@.subrange(24, 32) == opcode,
        announcement.packet@.subrange(32, announcement.packet@.len() as int) == content,
{
    announcement_header_is_laid_out(
        start_code,
        multicaster.next_seqnum(),
        multicaster.device_id(),
        multicaster.spec_vendor(),
        opcode,
        content,
    );
}

// ---------------------------------------------------------------------------------------------
// Requests for flows
// ---------------------------------------------------------------------------------------------

/// A transmitter asked for a flow starts one with all that the receiver has asked for, if it has the same
/// sample rate and the packets are not too long; otherwise it refuses.
pub proof fn flow_requests_are_decided_about(r: FlowRequest, seqnum: u16, action: FlowAction, sample_rate: u32)
    requires
        r.body().len() + 10 < 0x1_0000,
        forall|i: int| 0 <= i < encode_utf8(r.hostname@).len() ==> #[trigger] encode_utf8(r.hostname@)[i] != 0,
        forall|i: int|
            0 <= i < encode_utf8(r.rx_flow_name@).len() ==> #[trigger] encode_utf8(r.rx_flow_name@)[i] != 0,
        is_action_for(
            action,
            req_resp::packet(START_CODE, seqnum, OPCODE_REQUEST_FLOW, 0, r.body()),
            sample_rate,
        ),
    ensures
        r.sample_rate != sample_rate ==> action == FlowAction::Refuse(0x0301),
        r.sample_rate == sample_rate && r.fpp > 32 ==> action == FlowAction::Refuse(0x0302),
        r.sample_rate == sample_rate && r.fpp <= 32 ==> {
            &&& action matches FlowAction::AddFlow(received)
            &&& received.hostname@ == r.hostname@
            &&& received.rx_flow_name@ == r.rx_flow_name@
            &&& received.sample_rate == r.sample_rate
            &&& received.bits_per_sample == r.bits_per_sample
            &&& received.fpp == r.fpp
            &&& received.rx_ip@ == r.ip_address@
            &&& received.rx_port == r.rx_port
            &&& received.channel_indices@.len() == r.channels@.len()
            &&& forall|i: int|
                0 <= i < r.channels@.len() ==> #[trigger] received.channel_indices@[i] == match r.channels@[i] {
                    Some(id) => if id == 0 { None } else { Some((id - 1) as usize) },
                    None => None,
                }
        },
{
    let bytes = req_resp::packet(START_CODE, seqnum, OPCODE_REQUEST_FLOW, 0, r.body());
    let c = bytes.skip(10);
    request_header_is_laid_out(START_CODE, seqnum, OPCODE_REQUEST_FLOW, 0, r.body());
    assert(be16_at(bytes, 6) == OPCODE_REQUEST_FLOW && be16_at(bytes, 8) == 0);
    crate::flow_request_laws::flow_request_numbers_are_read(r, seqnum);
    if let FlowAction::AddFlow(received) = action {
        flow_request_is_understood(r, seqnum, received);
    }
}

/// A transmitter asked to stop a flow, or to change its channels, does so to the flow with the handle in
/// the request.
pub proof fn requests_about_flows_are_decided_about(
    handle: FlowHandle,
    channels: Seq<Option<u16>>,
    seqnum: u16,
    action: FlowAction,
    sample_rate: u32,
)
    requires
        channels.len() < 0x4000,
    ensures
        is_action_for(
            action,
            req_resp::packet(START_CODE, seqnum, OPCODE_STOP_FLOW, 0, handle@),
            sample_rate,
        ) ==> action is RemoveFlow && action->RemoveFlow_0@ == handle@,
        is_action_for(
            action,
            req_resp::packet(
                START_CODE,
                seqnum,
                OPCODE_UPDATE_FLOW,
                0,
                handle@ + be16(low16(channels.len() as int)) + channels_bytes(channels),
            ),
            sample_rate,
        ) ==> {
            &&& action is SetChannels
            &&& action->SetChannels_0@ == handle@
            &&& action->SetChannels_1@.len() == channels.len()
            &&& forall|i: int|
                0 <= i < channels.len() ==> #[trigger] action->SetChannels_1@[i] == match channels[i] {
                    Some(id) => if id == 0 { None } else { Some((id - 1) as usize) },
                    None => None,
                }
        },
{
    let stop = req_resp::packet(START_CODE, seqnum, OPCODE_STOP_FLOW, 0, handle@);
    assert(stop.skip(10) =~= handle@);
    assert(be16_at(stop, 6) == OPCODE_STOP_FLOW && be16_at(stop, 8) == 0);
    let c = handle@ + be16(low16(channels.len() as int)) + channels_bytes(channels);
    let update = req_resp::packet(START_CODE, seqnum, OPCODE_UPDATE_FLOW, 0, c);
    assert(update.skip(10) =~= c);
    assert(be16_at(update, 6) == OPCODE_UPDATE_FLOW && be16_at(update, 8) == 0);
    update_request_is_understood(handle, channels);
}

// ---------------------------------------------------------------------------------------------
// Codes of announcements
// ---------------------------------------------------------------------------------------------

/// A request is of a kind if and only if its code begins with 7, goes on with any byte, then with the
/// number of the kind, and ends with four zeros.
pub proof fn requests_are_known_by_their_codes(opcode: Seq<u8>, kind: u8)
    requires
        opcode.len() == 8,
    ensures
        is_request_opcode(opcode, kind) <==> (opcode[0] == 7 && be16_at(opcode, 2) == kind && be32_at(opcode, 4) == 0),
{
}

/// No request is of two kinds.
pub proof fn requests_have_one_kind(opcode: Seq<u8>, kind1: u8, kind2: u8)
    requires
        opcode.len() == 8,
        is_request_opcode(opcode, kind1),
        is_request_opcode(opcode, kind2),
    ensures
        kind1 == kind2,
{
}

/// An announcement has the code of the request which it answers, but for a number which is less by one, and
/// for the second byte; a heartbeat has a code of its own.
pub proof fn announcements_have_codes_of_their_own(opcode: Seq<u8>)
    requires
        opcode.len() == 8,
    ensures
        board_info_opcode().len() == 8 && product_info_opcode().len() == 8 && heartbeat_opcode().len() == 8,
        board_info_opcode()[1] == 0x2a && product_info_opcode()[1] == 0x2a,
        is_request_opcode(opcode, 0x61) ==> board_info_opcode() == opcode.update(1, 0x2a).update(3, 0x60),
        is_request_opcode(opcode, 0xc1) ==> product_info_opcode() == opcode.update(1, 0x2a).update(3, 0xc0),
        be16_at(board_info_opcode(), 0) == 0x072a && be16_at(board_info_opcode(), 2) == 0x60 && be32_at(
            board_info_opcode(),
            4,
        ) == 0,
        be16_at(product_info_opcode(), 0) == 0x072a && be16_at(product_info_opcode(), 2) == 0xc0 && be32_at(
            product_info_opcode(),
            4,
        ) == 0,
        be16_at(heartbeat_opcode(), 0) == 8 && be16_at(heartbeat_opcode(), 2) == 1 && be32_at(heartbeat_opcode(), 4)
            == 0x1000_0000,
{
    if is_request_opcode(opcode, 0x61) {
        assert(board_info_opcode() =~= opcode.update(1, 0x2a).update(3, 0x60));
    }
    if is_request_opcode(opcode, 0xc1) {
        assert(product_info_opcode() =~= opcode.update(1, 0x2a).update(3, 0xc0));
    }
}

} // verus!

//! Answers to requests for flows.

use crate::byte_utils::{
    be16_at, be32_at, is_str_readable, make_u16, make_u32, read_0term_str_from_buffer, str_readable,
    terminator,
};
use crate::flows_tx::FPP_MAX_ADVERTISED;
use crate::protocol::flows_control::{
    FlowControlError, FlowHandle, OPCODE_REQUEST_FLOW, OPCODE_STOP_FLOW, OPCODE_UPDATE_FLOW,
};
use crate::protocol::req_resp::{packet, HEADER_LENGTH};
use vstd::prelude::*;
use vstd::utf8::{decode_utf8, valid_utf8};

verus! {

/// The response code for a number of frames per packet which is not supported.
pub const UNSUPPORTED_FPP_CODE: u16 = 0x0302;

/// The index of the channel with the identifier; identifier 0 stands for none.
pub open spec fn channel_index(id: int) -> Option<usize> {
    if id == 0 {
        None
    } else {
        Some((id - 1) as usize)
    }
}

/// The indices of the channels whose identifiers stand at `offset`.
pub open spec fn channel_indices_at(c: Seq<u8>, offset: int, count: int) -> Seq<Option<usize>> {
    Seq::new(count as nat, |i: int| channel_index(be16_at(c, offset + i * 2)))
}

fn read_channel_indices(c: &[u8], offset: usize, count: usize) -> (indices: Vec<Option<usize>>)
    requires
        offset + count * 2 <= c@.len(),
    ensures
        indices@ == channel_indices_at(c@, offset as int, count as int),
{
    let len: usize = c.len();
    let mut indices: Vec<Option<usize>> = Vec::new();
    let mut i: usize = 0;
    while i < count
        invariant
            len == c@.len(),
            offset + count * 2 <= len,
            i <= count,
            indices@ == channel_indices_at(c@, offset as int, i as int),
        decreases count - i,
    {
        let id: u16 = make_u16(c[offset + i * 2], c[offset + i * 2 + 1]);
        let index: Option<usize> = if id == 0 {
            None
        } else {
            Some(id as usize - 1)
        };
        indices.push(index);
        i = i + 1;
        assert(indices@ =~= channel_indices_at(c@, offset as int, i as int));
    }
    indices
}

/// Whether there is a string at `offset` of the packet.
pub open spec fn has_string(bytes: Seq<u8>, offset: int) -> bool {
    &&& offset < bytes.len()
    &&& str_readable(bytes, offset)
    &&& valid_utf8(bytes.subrange(offset, terminator(bytes, offset)))
}

/// The string at `offset` of the packet.
pub open spec fn string_at(bytes: Seq<u8>, offset: int) -> Seq<char> {
    decode_utf8(bytes.subrange(offset, terminator(bytes, offset)))
}

/// Whether the packet at `bytes` is a request for a flow that is either too short to have all fields
/// or has all of them where it says that they are.
pub open spec fn is_readable_request(bytes: Seq<u8>) -> bool {
    let c = bytes.skip(HEADER_LENGTH as int);
    let n = be16_at(c, 12);
    c.len() <= 16 || {
        &&& 16 + n * 2 + 6 < 0x1_0000
        &&& c.len() >= 16 + n * 2 + 10
        &&& has_string(bytes, be16_at(c, 0))
        &&& has_string(bytes, be16_at(c, 16 + n * 2 + 8))
    }
}

/// Whether the packet is too short to have all fields of a request for a flow.
pub open spec fn is_short_request(bytes: Seq<u8>) -> bool {
    let c = bytes.skip(HEADER_LENGTH as int);
    c.len() <= 16 || bytes.len() < be16_at(c, 14) + 8
}

/// A request for a flow.
pub struct ReceivedFlowRequest {
    pub hostname: String,
    pub rx_flow_name: String,
    pub sample_rate: u32,
    pub bits_per_sample: u32,
    pub fpp: u16,
    pub channel_indices: Vec<Option<usize>>,
    pub rx_ip: [u8; 4],
    pub rx_port: u16,
}

impl ReceivedFlowRequest {
    /// Whether this is the request in the packet.
    pub open spec fn is_in(self, bytes: Seq<u8>) -> bool {
        let c = bytes.skip(HEADER_LENGTH as int);
        let n = be16_at(c, 12);
        let descr = be16_at(c, 14);
        &&& self.hostname@ == string_at(bytes, be16_at(c, 0))
        &&& self.rx_flow_name@ == string_at(bytes, be16_at(c, 16 + n * 2 + 8))
        &&& self.sample_rate == be32_at(c, 2)
        &&& self.bits_per_sample == be32_at(c, 6)
        &&& self.fpp == be16_at(c, 16 + n * 2 + 6)
        &&& self.channel_indices@ == channel_indices_at(c, 16, n)
        &&& self.rx_port == be16_at(bytes, descr + 2)
        &&& self.rx_ip@ == bytes.subrange(descr + 4, descr + 8)
    }
}

/// Whether `read_flow_request` may be called.
pub fn is_flow_request_readable(bytes: &[u8]) -> (readable: bool)
    requires
        bytes@.len() >= HEADER_LENGTH,
    ensures
        readable == is_readable_request(bytes@),
{
    let c = &bytes[HEADER_LENGTH..bytes.len()];
    assert(c@ =~= bytes@.skip(HEADER_LENGTH as int));
    if c.len() <= 16 {
        return true;
    }
    let n: usize = make_u16(c[12], c[13]) as usize;
    if 16 + n * 2 + 6 >= 0x1_0000 || c.len() < 16 + n * 2 + 10 {
        return false;
    }
    let hostname_offset: usize = make_u16(c[0], c[1]) as usize;
    let name_offset: usize = make_u16(c[16 + n * 2 + 8], c[16 + n * 2 + 9]) as usize;
    if !is_str_readable(bytes, hostname_offset) || !is_str_readable(bytes, name_offset) {
        return false;
    }
    read_0term_str_from_buffer(bytes, hostname_offset).is_ok() && read_0term_str_from_buffer(
        bytes,
        name_offset,
    ).is_ok()
}

/// Reads a request for a flow from a packet; `None` if the packet is too short.
pub fn read_flow_request(bytes: &[u8]) -> (request: Option<ReceivedFlowRequest>)
    requires
        bytes@.len() >= HEADER_LENGTH,
        is_readable_request(bytes@),
    ensures
        request is None <==> is_short_request(bytes@),
        request is Some ==> request->0.is_in(bytes@),
{
    let c = &bytes[HEADER_LENGTH..bytes.len()];
    assert(c@ =~= bytes@.skip(HEADER_LENGTH as int));
    if c.len() <= 16 {
        return None;
    }
    let hostname_offset: usize = make_u16(c[0], c[1]) as usize;
    let sample_rate: u32 = make_u32(c[2], c[3], c[4], c[5]);
    let bits_per_sample: u32 = make_u32(c[6], c[7], c[8], c[9]);
    let num_channels: usize = make_u16(c[12], c[13]) as usize;
    let descr: usize = make_u16(c[14], c[15]) as usize;
    let channel_indices = read_channel_indices(c, 16, num_channels);
    let offset: usize = 16 + num_channels * 2 + 6;
    let fpp: u16 = make_u16(c[offset], c[offset + 1]);
    let name_offset: usize = make_u16(c[offset + 2], c[offset + 3]) as usize;
    let hostname = match read_0term_str_from_buffer(bytes, hostname_offset) {
        Ok(s) => s.to_owned(),
        Err(_) => String::new(),
    };
    let rx_flow_name = match read_0term_str_from_buffer(bytes, name_offset) {
        Ok(s) => s.to_owned(),
        Err(_) => String::new(),
    };
    if bytes.len() < descr + 8 {
        return None;
    }
    let rx_port: u16 = make_u16(bytes[descr + 2], bytes[descr + 3]);
    let rx_ip: [u8; 4] = [bytes[descr + 4], bytes[descr + 5], bytes[descr + 6], bytes[descr + 7]];
    assert(rx_ip@ =~= bytes@.subrange(descr + 4, descr + 8));
    Some(
        ReceivedFlowRequest {
            hostname,
            rx_flow_name,
            sample_rate,
            bits_per_sample,
            fpp,
            channel_indices,
            rx_ip,
            rx_port,
        },
    )
}

/// What is to be done about a request.
pub enum FlowAction {
    /// nothing: the request cannot be understood
    Ignore,
    /// to refuse it with a code
    Refuse(u16),
    /// to start a flow
    AddFlow(ReceivedFlowRequest),
    /// to stop a flow
    RemoveFlow(FlowHandle),
    /// to change the channels of a flow
    SetChannels(FlowHandle, Vec<Option<usize>>),
}

/// Whether the content of a request to change the channels of a flow is complete.
pub open spec fn is_readable_update(c: Seq<u8>) -> bool {
    c.len() >= 8 && c.len() >= 8 + be16_at(c, 6) * 2
}

/// Whether the request can be decided about.
pub open spec fn is_decidable(bytes: Seq<u8>) -> bool {
    let opcode1 = be16_at(bytes, 6);
    be16_at(bytes, 8) != 0 || {
        &&& opcode1 == OPCODE_REQUEST_FLOW ==> is_readable_request(bytes)
        &&& opcode1 == OPCODE_UPDATE_FLOW ==> is_readable_update(bytes.skip(HEADER_LENGTH as int))
    }
}

/// Whether `action` is what is to be done about the request by a device with the sample rate.
pub open spec fn is_action_for(action: FlowAction, bytes: Seq<u8>, sample_rate: u32) -> bool {
    let opcode1 = be16_at(bytes, 6);
    let c = bytes.skip(HEADER_LENGTH as int);
    if be16_at(bytes, 8) != 0 {
        action is Ignore
    } else if opcode1 == OPCODE_REQUEST_FLOW {
        let n = be16_at(c, 12);
        if is_short_request(bytes) {
            action is Ignore
        } else if be32_at(c, 2) != sample_rate {
            action == FlowAction::Refuse(FlowControlError::SampleRateMismatch.spec_code())
        } else if be16_at(c, 16 + n * 2 + 6) > FPP_MAX_ADVERTISED {
            action == FlowAction::Refuse(UNSUPPORTED_FPP_CODE)
        } else {
            action matches FlowAction::AddFlow(request) && request.is_in(bytes)
        }
    } else if opcode1 == OPCODE_STOP_FLOW {
        if c.len() == 6 {
            action matches FlowAction::RemoveFlow(handle) && handle@ == c
        } else {
            action is Ignore
        }
    } else if opcode1 == OPCODE_UPDATE_FLOW {
        &&& action matches FlowAction::SetChannels(handle, channels)
        &&& handle@ == c.take(6)
        &&& channels@ == channel_indices_at(c, 8, be16_at(c, 6))
    } else {
        action is Ignore
    }
}

/// Whether `decide` may be called.
pub fn can_decide(bytes: &[u8]) -> (can: bool)
    requires
        bytes@.len() >= HEADER_LENGTH,
    ensures
        can == is_decidable(bytes@),
{
    let opcode1: u16 = make_u16(bytes[6], bytes[7]);
    let opcode2: u16 = make_u16(bytes[8], bytes[9]);
    if opcode2 != 0 {
        return true;
    }
    if opcode1 == OPCODE_REQUEST_FLOW {
        is_flow_request_readable(bytes)
    } else if opcode1 == OPCODE_UPDATE_FLOW {
        let c = &bytes[HEADER_LENGTH..bytes.len()];
        assert(c@ =~= bytes@.skip(HEADER_LENGTH as int));
        c.len() >= 8 && c.len() >= 8 + make_u16(c[6], c[7]) as usize * 2
    } else {
        true
    }
}

/// Decides about a request to a device with the sample rate.
pub fn decide(bytes: &[u8], sample_rate: u32) -> (action: FlowAction)
    requires
        bytes@.len() >= HEADER_LENGTH,
        is_decidable(bytes@),
    ensures
        is_action_for(action, bytes@, sample_rate),
{
    let opcode1: u16 = make_u16(bytes[6], bytes[7]);
    let opcode2: u16 = make_u16(bytes[8], bytes[9]);
    let c = &bytes[HEADER_LENGTH..bytes.len()];
    assert(c@ =~= bytes@.skip(HEADER_LENGTH as int));
    if opcode2 != 0 {
        return FlowAction::Ignore;
    }
    if opcode1 == OPCODE_REQUEST_FLOW {
        match read_flow_request(bytes) {
            None => FlowAction::Ignore,
            Some(request) => {
                if request.sample_rate != sample_rate {
                    FlowAction::Refuse(FlowControlError::SampleRateMismatch.code())
                } else if request.fpp > FPP_MAX_ADVERTISED {
                    FlowAction::Refuse(UNSUPPORTED_FPP_CODE)
                } else {
                    FlowAction::AddFlow(request)
                }
            },
        }
    } else if opcode1 == OPCODE_STOP_FLOW {
        if c.len() == 6 {
            let handle: FlowHandle = [c[0], c[1], c[2], c[3], c[4], c[5]];
            assert(handle@ =~= c@);
            FlowAction::RemoveFlow(handle)
        } else {
            FlowAction::Ignore
        }
    } else if opcode1 == OPCODE_UPDATE_FLOW {
        let handle: FlowHandle = [c[0], c[1], c[2], c[3], c[4], c[5]];
        assert(handle@ =~= c@.take(6));
        let num_channels: usize = make_u16(c[6], c[7]) as usize;
        FlowAction::SetChannels(handle, read_channel_indices(c, 8, num_channels))
    } else {
        FlowAction::Ignore
    }
}

/// The response to a request to add a flow: its handle, or a code.
pub fn add_flow_response(handle: Option<FlowHandle>) -> (response: (u16, Vec<u8>))
    ensures
        handle is Some ==> response.0 == 1 && response.1@ == handle->0@,
        handle is None ==> response.0 == FlowControlError::TooManyTXFlows.spec_code() && response.1@.len() == 0,
{
    match handle {
        Some(handle) => {
            let mut content: Vec<u8> = Vec::new();
            let mut i: usize = 0;
            while i < 6
                invariant
                    i <= 6,
                    content@ == handle@.take(i as int),
                decreases 6 - i,
            {
                content.push(handle[i]);
                i = i + 1;
                assert(content@ =~= handle@.take(i as int));
            }
            assert(handle@.take(6) =~= handle@);
            (1, content)
        },
        None => (FlowControlError::TooManyTXFlows.code(), Vec::new()),
    }
}

/// The response code to a request about a flow which was found or not.
pub fn found_response(found: bool) -> (code: u16)
    ensures
        code == if found {
            1u16
        } else {
            FlowControlError::FlowNotFound.spec_code()
        },
{
    if found {
        1
    } else {
        FlowControlError::FlowNotFound.code()
    }
}

} // verus!

//! Requests for flows, as they are sent to transmitters, and the replies to them.
//!
//! The start code is 0x1102 (dbcp1). Error responses have one of the codes of `FlowControlError`.

use crate::byte_utils::{be16, be16_at, be32};
use crate::protocol::req_resp::{packet, PacketView, HEADER_LENGTH};
use crate::wire::{
    appends, buffer_bytes, bytes_of, into_bytes, new_buffer, write_bytes, write_position, write_u16,
    write_u32, write_u8,
};
use bytebuffer::ByteBuffer;
use vstd::prelude::*;
use vstd::utf8::encode_utf8;

verus! {

pub const PORT: u16 = 4455;

/// The version which all requests declare.
pub const START_CODE: u16 = 0x1102;

pub const OPCODE_REQUEST_FLOW: u16 = 0x0100;

pub const OPCODE_STOP_FLOW: u16 = 0x0101;

pub const OPCODE_UPDATE_FLOW: u16 = 0x0102;

#[derive(Debug, Clone, Copy, PartialEq, Eq, Structural)]
pub enum FlowControlError {
    /// the stream has expired (i.e. no keepalives)
    FlowNotFound,
    TooManyTXFlows,
    SampleRateMismatch,
}

impl FlowControlError {
    pub open spec fn spec_code(self) -> u16 {
        match self {
            FlowControlError::FlowNotFound => 0x0103,
            FlowControlError::TooManyTXFlows => 0x0315,
            FlowControlError::SampleRateMismatch => 0x0301,
        }
    }

    /// The number which stands for the error in packets.
    pub fn code(&self) -> (code: u16)
        ensures
            code == self.spec_code(),
    {
        match self {
            FlowControlError::FlowNotFound => 0x0103,
            FlowControlError::TooManyTXFlows => 0x0315,
            FlowControlError::SampleRateMismatch => 0x0301,
        }
    }
}

/// What the transmitter knows a flow by.
pub type FlowHandle = [u8; 6];

/// The 16 least significant bits of a number.
pub open spec fn low16(v: int) -> u16 {
    (v % 0x1_0000) as u16
}

fn to_low16(v: usize) -> (low: u16)
    ensures
        low == low16(v as int),
{
    (v % 0x1_0000) as u16
}

/// Identifiers of channels, 0 standing for none.
pub open spec fn channels_bytes(channels: Seq<Option<u16>>) -> Seq<u8>
    decreases channels.len(),
{
    if channels.len() == 0 {
        Seq::empty()
    } else {
        channels_bytes(channels.drop_last()) + be16(
            match channels.last() {
                Some(id) => id,
                None => 0,
            },
        )
    }
}

fn write_channels(buffer: &mut ByteBuffer, channels: &[Option<u16>])
    requires
        appends(*old(buffer)),
    ensures
        appends(*final(buffer)),
        bytes_of(*final(buffer)) == bytes_of(*old(buffer)) + channels_bytes(channels@),
{
    let mut i: usize = 0;
    let ghost start = bytes_of(*buffer);
    assert(start + channels_bytes(channels@.take(0)) =~= start);
    while i < channels.len()
        invariant
            appends(*buffer),
            i <= channels@.len(),
            bytes_of(*buffer) == start + channels_bytes(channels@.take(i as int)),
        decreases channels@.len() - i,
    {
        let id: u16 = match channels[i] {
            Some(id) => id,
            None => 0,
        };
        write_u16(buffer, id);
        proof {
            let longer = channels@.take(i as int + 1);
            assert(longer.drop_last() =~= channels@.take(i as int));
            assert(bytes_of(*buffer) =~= start + channels_bytes(longer));
        }
        i = i + 1;
    }
    assert(channels@.take(i as int) =~= channels@);
}

/// What is asked for in a request for a flow.
pub struct FlowRequest<'a> {
    pub hostname: &'a str,
    pub ip_address: [u8; 4],
    pub sample_rate: u32,
    pub bits_per_sample: u32,
    pub fpp: u16,
    pub channels: &'a [Option<u16>],
    pub rx_port: u16,
    pub rx_flow_name: &'a str,
}

impl<'a> FlowRequest<'a> {
    /// Where strings start in the packet.
    pub open spec fn strings_offset(self) -> int {
        0x26 + self.channels@.len() * 2 + HEADER_LENGTH
    }

    /// The names of the receiver and of the flow, each followed by a zero.
    pub open spec fn names(self) -> Seq<u8> {
        encode_utf8(self.hostname@).push(0) + encode_utf8(self.rx_flow_name@).push(0)
    }

    /// Where the name of the flow starts in the packet.
    pub open spec fn flow_name_offset(self) -> int {
        self.strings_offset() + encode_utf8(self.hostname@).len() + 1
    }

    /// Zeros which move the address of the receiver to a multiple of 8.
    pub open spec fn padding(self) -> Seq<u8> {
        Seq::new(
            ((8 - (self.strings_offset() + self.names().len()) % 8) % 8) as nat,
            |i: int| 0u8,
        )
    }

    /// Where the address of the receiver starts in the packet.
    pub open spec fn address_offset(self) -> int {
        self.strings_offset() + self.names().len() + self.padding().len()
    }

    /// The address of the receiver.
    pub open spec fn address(self) -> Seq<u8> {
        be16(0x0802) + be16(self.rx_port) + self.ip_address@
    }

    /// The part of the request before its strings.
    pub open spec fn fixed_part(self) -> Seq<u8> {
        be16(low16(self.strings_offset())) + be32(self.sample_rate) + be32(self.bits_per_sample) + be16(1)
            + be16(low16(self.channels@.len() as int)) + be16(low16(self.address_offset()))
            + channels_bytes(self.channels@) + be16(low16((0x1c + 2 * self.channels@.len()) as int)) + be16(0x0a00)
            + be16(0x0002) + be16(self.fpp) + be16(low16(self.flow_name_offset())) + Seq::new(
            12,
            |i: int| 0u8,
        )
    }

    /// The content of the request.
    pub open spec fn body(self) -> Seq<u8> {
        self.fixed_part() + (self.names() + self.padding() + self.address())
    }

    /// Whether all offsets can be computed.
    pub open spec fn is_computable(self) -> bool {
        2 * self.channels@.len() + self.names().len() + 0x100 <= usize::MAX
    }
}

pub proof fn lemma_channels_bytes_len(channels: Seq<Option<u16>>)
    ensures
        channels_bytes(channels).len() == 2 * channels.len(),
    decreases channels.len(),
{
    if channels.len() > 0 {
        lemma_channels_bytes_len(channels.drop_last());
    }
}

/// The strings of a request for a flow and, after them, the address of the receiver.
fn make_strings(request: &FlowRequest) -> (r: (ByteBuffer, u16, u16))
    requires
        request.is_computable(),
    ensures
        appends(r.0),
        bytes_of(r.0) == request.names() + request.padding() + request.address(),
        r.1 == low16(request.flow_name_offset()),
        r.2 == low16(request.address_offset()),
{
    let ghost r = *request;
    let strings_offset: usize = 0x26 + request.channels.len() * 2 + HEADER_LENGTH;
    let mut strings = new_buffer();
    write_bytes(&mut strings, request.hostname.as_bytes());
    write_u8(&mut strings, 0);
    assert(bytes_of(strings) =~= encode_utf8(r.hostname@).push(0));
    let rx_flow_name_offset: u16 = to_low16(write_position(&strings) + strings_offset);
    write_bytes(&mut strings, request.rx_flow_name.as_bytes());
    write_u8(&mut strings, 0);
    assert(bytes_of(strings) =~= r.names());
    let ghost mut padded: int = 0;
    assert(r.names() + Seq::new(0, |i: int| 0u8) =~= r.names());
    while (write_position(&strings) + strings_offset) % 8 != 0
        invariant
            r.is_computable(),
            strings_offset == r.strings_offset(),
            appends(strings),
            0 <= padded <= r.padding().len(),
            bytes_of(strings) == r.names() + Seq::new(padded as nat, |i: int| 0u8),
        decreases r.padding().len() - padded,
    {
        write_u8(&mut strings, 0);
        proof {
            padded = padded + 1;
            assert(bytes_of(strings) =~= r.names() + Seq::new(padded as nat, |i: int| 0u8));
        }
    }
    assert(padded == r.padding().len());
    assert(bytes_of(strings) =~= r.names() + r.padding());
    let address_offset: u16 = to_low16(write_position(&strings) + strings_offset);
    write_u16(&mut strings, 0x0802);
    write_u16(&mut strings, request.rx_port);
    write_bytes(&mut strings, request.ip_address.as_slice());
    assert(bytes_of(strings) =~= r.names() + r.padding() + r.address());
    (strings, rx_flow_name_offset, address_offset)
}

/// The strings start where the request says that they do.
pub proof fn strings_start_at_offset(request: FlowRequest)
    ensures
        request.fixed_part().len() + HEADER_LENGTH == request.strings_offset(),
{
    lemma_channels_bytes_len(request.channels@);
}

/// The content of a request for a flow.
pub fn make_flow_request(request: &FlowRequest) -> (body: Vec<u8>)
    requires
        request.is_computable(),
    ensures
        body@ == request.body(),
{
    let channels = request.channels;
    let strings_offset: usize = 0x26 + channels.len() * 2 + HEADER_LENGTH;
    let (strings, rx_flow_name_offset, address_offset) = make_strings(request);
    let mut body = new_buffer();
    write_u16(&mut body, to_low16(strings_offset));
    assert(bytes_of(body) =~= be16(low16(request.strings_offset())));
    write_u32(&mut body, request.sample_rate);
    write_u32(&mut body, request.bits_per_sample);
    write_u16(&mut body, 1);
    write_u16(&mut body, to_low16(channels.len()));
    write_u16(&mut body, address_offset);
    write_channels(&mut body, channels);
    write_u16(&mut body, to_low16(0x1c + 2 * channels.len()));
    write_u16(&mut body, 0x0a00);
    write_u16(&mut body, 0x0002);
    write_u16(&mut body, request.fpp);
    write_u16(&mut body, rx_flow_name_offset);
    let zeros: [u8; 12] = [0, 0, 0, 0, 0, 0, 0, 0, 0, 0, 0, 0];
    write_bytes(&mut body, zeros.as_slice());
    assert(zeros@ =~= Seq::new(12, |i: int| 0u8));
    write_bytes(&mut body, buffer_bytes(&strings));
    into_bytes(body)
}

/// The content of a request that a flow carry other channels.
pub fn make_update_request(handle: FlowHandle, channels: &[Option<u16>]) -> (body: Vec<u8>)
    ensures
        body@ == handle@ + be16(low16(channels@.len() as int)) + channels_bytes(channels@),
{
    let mut body = new_buffer();
    write_bytes(&mut body, handle.as_slice());
    write_u16(&mut body, to_low16(channels.len()));
    write_channels(&mut body, channels);
    assert(bytes_of(body) =~= handle@ + be16(low16(channels@.len() as int)) + channels_bytes(channels@));
    into_bytes(body)
}

/// The content of a request that a flow be stopped.
pub fn make_stop_request(handle: FlowHandle) -> (body: Vec<u8>)
    ensures
        body@ == handle@,
{
    let mut body = new_buffer();
    write_bytes(&mut body, handle.as_slice());
    assert(bytes_of(body) =~= handle@);
    into_bytes(body)
}

/// What a packet is which came while a reply was waited for.
#[derive(Debug, Clone, Copy, PartialEq, Eq, Structural)]
pub enum Reply {
    /// too short to be a packet
    TooShort,
    /// the request was granted
    Granted,
    /// the request was refused
    Refused,
    /// not a reply to the request
    Spurious,
}

/// Decides about a packet which came while the reply to a request was waited for.
pub fn classify_reply(bytes: &[u8], opcode1: u16, seqnum: u16) -> (reply: Reply)
    ensures
        reply == if bytes@.len() < HEADER_LENGTH {
            Reply::TooShort
        } else if be16_at(bytes@, 6) != opcode1 || be16_at(bytes@, 4) != seqnum {
            Reply::Spurious
        } else if be16_at(bytes@, 8) == 1 {
            Reply::Granted
        } else {
            Reply::Refused
        },
{
    match PacketView::new(bytes) {
        None => Reply::TooShort,
        Some(resp) => {
            if resp.opcode1 == opcode1 && resp.seqnum == seqnum {
                if resp.opcode2 == 1 {
                    Reply::Granted
                } else {
                    Reply::Refused
                }
            } else {
                Reply::Spurious
            }
        },
    }
}

/// The handle in the content of the reply to a granted request for a flow; `None` if it is too short.
pub fn read_handle(content: &[u8]) -> (handle: Option<FlowHandle>)
    ensures
        handle is Some <==> content@.len() >= 6,
        handle is Some ==> handle->0@ == content@.take(6),
{
    if content.len() < 6 {
        return None;
    }
    let handle: FlowHandle = [content[0], content[1], content[2], content[3], content[4], content[5]];
    assert(handle@ =~= content@.take(6));
    Some(handle)
}

/// Sends requests; numbers them one after another.
pub struct FlowsControlClient {
    pub seqnum: u16,
}

impl FlowsControlClient {
    pub fn new() -> (client: Self)
        ensures
            client.seqnum == 1,
    {
        Self { seqnum: 1 }
    }

    /// The number of the next request.
    pub fn next_seqnum(&mut self) -> (seqnum: u16)
        ensures
            seqnum == old(self).seqnum,
            final(self).seqnum == old(self).seqnum.wrapping_add(1),
    {
        let seqnum: u16 = self.seqnum;
        self.seqnum = self.seqnum.wrapping_add(1);
        seqnum
    }
}

/// A transmitter which repeats the numbers of the request and says 1 grants it.
pub proof fn granted_reply_is_recognized(opcode1: u16, seqnum: u16, content: Seq<u8>)
    ensures
        ({
            let reply = packet(START_CODE, seqnum, opcode1, 1, content);
            &&& reply.len() >= HEADER_LENGTH
            &&& be16_at(reply, 6) == opcode1
            &&& be16_at(reply, 4) == seqnum
            &&& be16_at(reply, 8) == 1
        }),
{
}

} // verus!

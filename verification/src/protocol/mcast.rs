//! Packets of multicast announcements and of requests for information.

use crate::byte_utils::{be16, be16_at, copy_to_buffer, make_u16, H, L};
use vstd::prelude::*;

verus! {

pub const HEADER_LENGTH: usize = 32;

pub const INFO_REQUEST_PORT: u16 = 8700;

/// A packet with a header and the given content. The longest one has its length given as 0.
pub open spec fn packet(
    start_code: u16,
    seqnum: u16,
    factory_device_id: Seq<u8>,
    vendor: Seq<u8>,
    opcode: Seq<u8>,
    content: Seq<u8>,
) -> Seq<u8> {
    be16(start_code) + be16(((content.len() + HEADER_LENGTH) as int % 0x1_0000) as u16) + be16(seqnum) + be16(0)
        + factory_device_id + vendor + opcode + content
}

/// Whether a packet with `content_len` bytes of content can be made in a buffer of `buffer_len` bytes.
pub open spec fn packet_fits(content_len: int, buffer_len: int) -> bool {
    &&& content_len + HEADER_LENGTH <= 0x1_0000
    &&& content_len + HEADER_LENGTH <= buffer_len
}

/// Whether `make_packet` can make a packet with `content_len` bytes of content in a buffer of
/// `buffer_len` bytes.
pub fn does_packet_fit(content_len: usize, buffer_len: usize) -> (fits: bool)
    ensures
        fits == packet_fits(content_len as int, buffer_len as int),
{
    content_len <= 0x1_0000 - HEADER_LENGTH && content_len + HEADER_LENGTH <= buffer_len
}

/// Makes a packet at the start of the buffer and returns its length.
pub fn make_packet(
    buffer: &mut [u8],
    start_code: u16,
    seqnum: u16,
    factory_device_id: [u8; 8],
    vendor_str: [u8; 8],
    opcode: [u8; 8],
    content: &[u8],
) -> (total_len: usize)
    requires
        packet_fits(content@.len() as int, old(buffer)@.len() as int),
    ensures
        total_len == content@.len() + HEADER_LENGTH,
        final(buffer)@ == packet(
            start_code,
            seqnum,
            factory_device_id@,
            vendor_str@,
            opcode@,
            content@,
        ) + old(buffer)@.skip(total_len as int),
{
    let total_len: usize = content.len() + HEADER_LENGTH;
    let total_length: u16 = (total_len % 0x1_0000) as u16;
    let head: [u8; 8] = [
        H(start_code),
        L(start_code),
        H(total_length),
        L(total_length),
        H(seqnum),
        L(seqnum),
        0,
        0,
    ];
    copy_to_buffer(buffer, 0, head.as_slice());
    copy_to_buffer(buffer, 8, factory_device_id.as_slice());
    copy_to_buffer(buffer, 16, vendor_str.as_slice());
    copy_to_buffer(buffer, 24, opcode.as_slice());
    copy_to_buffer(buffer, HEADER_LENGTH, content);
    assert(buffer@ =~= packet(
        start_code,
        seqnum,
        factory_device_id@,
        vendor_str@,
        opcode@,
        content@,
    ) + old(buffer)@.skip(total_len as int));
    total_len
}

/// Fields of a received packet.
pub struct PacketView<'a> {
    pub start_code: u16,
    pub total_length: u16,
    pub seqnum: u16,
    pub process: u16,
    pub factory_device_id: &'a [u8],
    pub vendor: &'a [u8],
    pub opcode: &'a [u8],
    pub content: &'a [u8],
}

impl<'a> PacketView<'a> {
    /// Whether the fields are those of the packet `bytes`.
    pub open spec fn is_view_of(self, bytes: Seq<u8>) -> bool {
        &&& bytes.len() >= HEADER_LENGTH
        &&& self.start_code == be16_at(bytes, 0)
        &&& self.total_length == be16_at(bytes, 2)
        &&& self.seqnum == be16_at(bytes, 4)
        &&& self.process == be16_at(bytes, 6)
        &&& self.factory_device_id@ == bytes.subrange(8, 16)
        &&& self.vendor@ == bytes.subrange(16, 24)
        &&& self.opcode@ == bytes.subrange(24, 32)
        &&& self.content@ == bytes.skip(HEADER_LENGTH as int)
    }

    /// The fields of a packet; `None` if it is too short to have them.
    pub fn new(bytes: &'a [u8]) -> (view: Option<PacketView<'a>>)
        ensures
            view is Some <==> bytes@.len() >= HEADER_LENGTH,
            view is Some ==> view->0.is_view_of(bytes@),
    {
        if bytes.len() < HEADER_LENGTH {
            return None;
        }
        let content = &bytes[HEADER_LENGTH..bytes.len()];
        assert(content@ =~= bytes@.skip(HEADER_LENGTH as int));
        Some(
            PacketView {
                start_code: make_u16(bytes[0], bytes[1]),
                total_length: make_u16(bytes[2], bytes[3]),
                seqnum: make_u16(bytes[4], bytes[5]),
                process: make_u16(bytes[6], bytes[7]),
                factory_device_id: &bytes[8..16],
                vendor: &bytes[16..24],
                opcode: &bytes[24..32],
                content,
            },
        )
    }
}

/// The fields given to a packet are read from it.
pub proof fn packet_is_read_back(
    start_code: u16,
    seqnum: u16,
    factory_device_id: Seq<u8>,
    vendor: Seq<u8>,
    opcode: Seq<u8>,
    content: Seq<u8>,
    view: PacketView,
)
    requires
        factory_device_id.len() == 8,
        vendor.len() == 8,
        opcode.len() == 8,
        view.is_view_of(packet(start_code, seqnum, factory_device_id, vendor, opcode, content)),
    ensures
        view.start_code == start_code,
        view.total_length == (content.len() + HEADER_LENGTH) as int % 0x1_0000,
        view.seqnum == seqnum,
        view.process == 0,
        view.factory_device_id@ == factory_device_id,
        view.vendor@ == vendor,
        view.opcode@ == opcode,
        view.content@ == content,
{
    let bytes = packet(start_code, seqnum, factory_device_id, vendor, opcode, content);
    assert(bytes.subrange(8, 16) =~= factory_device_id);
    assert(bytes.subrange(16, 24) =~= vendor);
    assert(bytes.subrange(24, 32) =~= opcode);
    assert(bytes.skip(HEADER_LENGTH as int) =~= content);
}

} // verus!

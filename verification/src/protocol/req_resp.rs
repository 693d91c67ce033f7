//! Packets of requests and of responses to them.

use crate::byte_utils::{be16, be16_at, copy_to_buffer, make_u16, H, L};
use vstd::prelude::*;

verus! {

pub const HEADER_LENGTH: usize = 10;

/// A packet with a header and the given content.
pub open spec fn packet(
    start_code: u16,
    seqnum: u16,
    opcode1: u16,
    opcode2: u16,
    content: Seq<u8>,
) -> Seq<u8> {
    be16(start_code) + be16((content.len() + HEADER_LENGTH) as u16) + be16(seqnum) + be16(opcode1) + be16(
        opcode2,
    ) + content
}

/// Whether a packet with `content_len` bytes of content can be made in a buffer of `buffer_len` bytes.
pub open spec fn packet_fits(content_len: int, buffer_len: int) -> bool {
    &&& content_len + HEADER_LENGTH < 0x1_0000
    &&& content_len + HEADER_LENGTH <= buffer_len
}

/// Whether `make_packet` can make a packet with `content_len` bytes of content in a buffer of
/// `buffer_len` bytes.
pub fn does_packet_fit(content_len: usize, buffer_len: usize) -> (fits: bool)
    ensures
        fits == packet_fits(content_len as int, buffer_len as int),
{
    content_len < 0x1_0000 - HEADER_LENGTH && content_len + HEADER_LENGTH <= buffer_len
}

/// Makes a packet at the start of the buffer and returns its length.
pub fn make_packet(
    buf: &mut [u8],
    start_code: u16,
    seqnum: u16,
    opcode1: u16,
    opcode2: u16,
    content: &[u8],
) -> (total_len: usize)
    requires
        packet_fits(content@.len() as int, old(buf)@.len() as int),
    ensures
        total_len == content@.len() + HEADER_LENGTH,
        final(buf)@ == packet(start_code, seqnum, opcode1, opcode2, content@) + old(buf)@.skip(
            total_len as int,
        ),
{
    let total_len: usize = content.len() + HEADER_LENGTH;
    let total_length: u16 = total_len as u16;
    let header: [u8; 10] = [
        H(start_code),
        L(start_code),
        H(total_length),
        L(total_length),
        H(seqnum),
        L(seqnum),
        H(opcode1),
        L(opcode1),
        H(opcode2),
        L(opcode2),
    ];
    copy_to_buffer(buf, 0, header.as_slice());
    copy_to_buffer(buf, HEADER_LENGTH, content);
    assert(buf@ =~= packet(start_code, seqnum, opcode1, opcode2, content@) + old(buf)@.skip(
        total_len as int,
    ));
    total_len
}

/// Fields of a received packet.
pub struct PacketView<'a> {
    pub start_code: u16,
    pub total_length: u16,
    pub seqnum: u16,
    pub opcode1: u16,
    pub opcode2: u16,
    pub content: &'a [u8],
}

impl<'a> PacketView<'a> {
    /// Whether the fields are those of the packet `bytes`.
    pub open spec fn is_view_of(self, bytes: Seq<u8>) -> bool {
        &&& bytes.len() >= HEADER_LENGTH
        &&& self.start_code == be16_at(bytes, 0)
        &&& self.total_length == be16_at(bytes, 2)
        &&& self.seqnum == be16_at(bytes, 4)
        &&& self.opcode1 == be16_at(bytes, 6)
        &&& self.opcode2 == be16_at(bytes, 8)
        &&& self.content@ == bytes.skip(HEADER_LENGTH as int)
    }

    /// The fields of a packet; `None` if it is too short to have them.
    pub fn new(bytes: &'a [u8]) -> (view: Option<PacketView<'a>>)
        ensures
            view is Some <==> bytes@.len() >= HEADER_LENGTH,
            view is Some ==> view->0.is_view_of(bytes@),
    {
        if bytes.len() < HEADER_LENGTH {
            return None;
        }
        let content = &bytes[HEADER_LENGTH..bytes.len()];
        assert(content@ =~= bytes@.skip(HEADER_LENGTH as int));
        Some(
            PacketView {
                start_code: make_u16(bytes[0], bytes[1]),
                total_length: make_u16(bytes[2], bytes[3]),
                seqnum: make_u16(bytes[4], bytes[5]),
                opcode1: make_u16(bytes[6], bytes[7]),
                opcode2: make_u16(bytes[8], bytes[9]),
                content,
            },
        )
    }
}

/// The fields given to a packet are read from it.
pub proof fn packet_is_read_back(
    start_code: u16,
    seqnum: u16,
    opcode1: u16,
    opcode2: u16,
    content: Seq<u8>,
    view: PacketView,
)
    requires
        content.len() + HEADER_LENGTH < 0x1_0000,
        view.is_view_of(packet(start_code, seqnum, opcode1, opcode2, content)),
    ensures
        view.start_code == start_code,
        view.total_length == content.len() + HEADER_LENGTH,
        view.seqnum == seqnum,
        view.opcode1 == opcode1,
        view.opcode2 == opcode2,
        view.content@ == content,
{
    let bytes = packet(start_code, seqnum, opcode1, opcode2, content);
    assert(bytes.skip(HEADER_LENGTH as int) =~= content);
    assert(bytes.len() == content.len() + HEADER_LENGTH);
}

/// What a response has to repeat from the request.
#[derive(Clone, Copy)]
pub struct RemoteInfo {
    pub start_code: u16,
    pub seqnum: u16,
    pub opcode1: u16,
}

/// Requests and responses exchanged through one socket: remembers the last request.
pub struct Connection {
    pub remote: Option<RemoteInfo>,
}

impl Connection {
    pub fn new() -> (conn: Connection)
        ensures
            conn.remote is None,
    {
        Connection { remote: None }
    }

    /// Takes a received packet; `None` if it is too short to be a request.
    pub fn recv<'a>(&mut self, request_buf: &'a [u8]) -> (view: Option<PacketView<'a>>)
        ensures
            view is Some <==> request_buf@.len() >= HEADER_LENGTH,
            view is None ==> *final(self) == *old(self),
            view is Some ==> {
                &&& view->0.is_view_of(request_buf@)
                &&& final(self).remote == Some(
                    RemoteInfo {
                        start_code: view->0.start_code,
                        seqnum: view->0.seqnum,
                        opcode1: view->0.opcode1,
                    },
                )
            },
    {
        match PacketView::new(request_buf) {
            Some(view) => {
                self.remote = Some(
                    RemoteInfo {
                        start_code: view.start_code,
                        seqnum: view.seqnum,
                        opcode1: view.opcode1,
                    },
                );
                Some(view)
            },
            None => None,
        }
    }

    /// Makes the response to the last request at the start of the buffer and returns its length.
    pub fn respond(&self, buf: &mut [u8], content: &[u8]) -> (total_len: usize)
        requires
            self.remote is Some,
            packet_fits(content@.len() as int, old(buf)@.len() as int),
        ensures
            total_len == content@.len() + HEADER_LENGTH,
            final(buf)@ == packet(
                self.remote->0.start_code,
                self.remote->0.seqnum,
                self.remote->0.opcode1,
                1,
                content@,
            ) + old(buf)@.skip(total_len as int),
    {
        self.respond_with_code(buf, 1, content)
    }

    /// Makes a response with a result code at the start of the buffer and returns its length.
    pub fn respond_with_code(&self, buf: &mut [u8], opcode2: u16, content: &[u8]) -> (total_len: usize)
        requires
            self.remote is Some,
            packet_fits(content@.len() as int, old(buf)@.len() as int),
        ensures
            total_len == content@.len() + HEADER_LENGTH,
            final(buf)@ == packet(
                self.remote->0.start_code,
                self.remote->0.seqnum,
                self.remote->0.opcode1,
                opcode2,
                content@,
            ) + old(buf)@.skip(total_len as int),
    {
        match self.remote {
            Some(rem) => make_packet(buf, rem.start_code, rem.seqnum, rem.opcode1, opcode2, content),
            None => 0,
        }
    }
}

} // verus!

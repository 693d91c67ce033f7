//! Announcements of this device: what it is, and that it is alive.

use crate::byte_utils::{be16, copy_to_buffer, overwrite, write_str_to_buffer, written_len, H, L};
use crate::device_info::DeviceInfo;
use crate::protocol::mcast::{make_packet, packet, packet_fits, HEADER_LENGTH};
use vstd::prelude::*;
use vstd::utf8::encode_utf8;

verus! {

pub const SEND_BUFFER_SIZE: usize = 1500;

pub const DST_PORT_HEARTBEAT: u16 = 8708;

pub const DST_PORT_DEVICE_INFO: u16 = 8702;

/// What is to be announced.
pub struct MulticastMessage {
    pub start_code: u16,
    pub opcode: [u8; 8],
    pub content: Vec<u8>,
}

/// Where announcements are sent to.
#[derive(Debug, Clone, Copy, PartialEq, Eq, Structural)]
pub enum Destination {
    DeviceInfo,
    Heartbeat,
}

impl Destination {
    /// The multicast address.
    pub fn ip_address(&self) -> (address: [u8; 4])
        ensures
            *self is DeviceInfo ==> address@ == seq![224u8, 0u8, 0u8, 231u8],
            *self is Heartbeat ==> address@ == seq![224u8, 0u8, 0u8, 233u8],
    {
        let address: [u8; 4] = match self {
            Destination::DeviceInfo => [224, 0, 0, 231],
            Destination::Heartbeat => [224, 0, 0, 233],
        };
        assert(*self is DeviceInfo ==> address@ =~= seq![224u8, 0u8, 0u8, 231u8]);
        assert(*self is Heartbeat ==> address@ =~= seq![224u8, 0u8, 0u8, 233u8]);
        address
    }

    pub fn port(&self) -> (port: u16)
        ensures
            port == if *self is DeviceInfo {
                DST_PORT_DEVICE_INFO
            } else {
                DST_PORT_HEARTBEAT
            },
    {
        match self {
            Destination::DeviceInfo => DST_PORT_DEVICE_INFO,
            Destination::Heartbeat => DST_PORT_HEARTBEAT,
        }
    }
}

/// A packet on its way.
pub struct Announcement {
    pub destination: Destination,
    pub packet: Vec<u8>,
}

/// What a request asks for.
#[derive(Debug, Clone, Copy, PartialEq, Eq, Structural)]
pub enum Request {
    BoardInfo,
    ProductInfo,
    Unknown,
}

/// `count` bytes with the same value.
pub open spec fn filled(count: nat, value: u8) -> Seq<u8> {
    Seq::new(count, |i: int| value)
}

/// The bytes with the text in them at `offset`, cut to `max_len` bytes.
pub open spec fn with_text(bytes: Seq<u8>, offset: int, max_len: int, text: Seq<char>) -> Seq<u8> {
    overwrite(bytes, offset, encode_utf8(text).take(written_len(max_len, encode_utf8(text))))
}

/// The name of the vendor, padded with spaces.
pub open spec fn vendor_field(vendor: Seq<char>) -> Seq<u8> {
    with_text(filled(8, 32), 0, 8, vendor)
}

/// The versions and features of the board.
pub open spec fn board_features(version: Seq<u8>) -> Seq<u8> {
    let with_versions = overwrite(
        overwrite(filled(200, 0), 0, version),
        4,
        seq![1u8, 3u8, 0u8, 3u8],
    ).update(0x27, 7);
    // the device has the name of its manufacturer; if the last one is 0, the device is flooded
    // with requests for information
    overwrite(with_versions, 0x28, seq![1u8, 0u8, 0u8, 0u8]).update(0x16, 0x10).update(0xbb, 0x1f)
}

/// The description of the board.
pub open spec fn board_info_content(info: &DeviceInfo, version: Seq<u8>) -> Seq<u8> {
    with_text(
        with_text(board_features(version), 12, 8, info.board_name@),
        0x38,
        16,
        info.board_name@,
    )
}

/// The description of the product.
pub open spec fn product_info_content(info: &DeviceInfo) -> Seq<u8> {
    let head = with_text(
        with_text(filled(336, 0), 0, 8, info.manufacturer@),
        8,
        8,
        info.board_name@,
    );
    with_text(with_text(head, 0x2c, 16, info.manufacturer@), 0xac, 16, info.model_name@)
}

/// The heartbeat with the given sequence number.
pub open spec fn heartbeat_content(seqnum: u16) -> Seq<u8> {
    seq![0u8, 0x10u8, 0x80u8, 1u8, 0u8, 4u8, 0u8, 4u8] + be16(seqnum) + filled(6, 0)
}

pub open spec fn board_info_opcode() -> Seq<u8> {
    seq![0x07u8, 0x2au8, 0u8, 0x60u8, 0u8, 0u8, 0u8, 0u8]
}

pub open spec fn product_info_opcode() -> Seq<u8> {
    seq![0x07u8, 0x2au8, 0u8, 0xc0u8, 0u8, 0u8, 0u8, 0u8]
}

pub open spec fn heartbeat_opcode() -> Seq<u8> {
    seq![0u8, 8u8, 0u8, 1u8, 0x10u8, 0u8, 0u8, 0u8]
}

/// Whether the opcode is that of a request of the given kind; the second byte may be any.
pub open spec fn is_request_opcode(opcode: Seq<u8>, kind: u8) -> bool {
    &&& opcode[0] == 0x07
    &&& opcode[2] == 0
    &&& opcode[3] == kind
    &&& opcode[4] == 0 && opcode[5] == 0 && opcode[6] == 0 && opcode[7] == 0
}

/// What the request asks for; `None` if it is too short.
pub fn read_request(bytes: &[u8]) -> (request: Option<Request>)
    ensures
        request is Some <==> bytes@.len() >= HEADER_LENGTH,
        request is Some ==> {
            let opcode = bytes@.subrange(24, 32);
            request->0 == if is_request_opcode(opcode, 0x61) {
                Request::BoardInfo
            } else if is_request_opcode(opcode, 0xc1) {
                Request::ProductInfo
            } else {
                Request::Unknown
            }
        },
{
    if bytes.len() < HEADER_LENGTH {
        return None;
    }
    let opcode = &bytes[24..32];
    if opcode[0] != 0x07 || opcode[2] != 0 || opcode[4] != 0 || opcode[5] != 0 || opcode[6] != 0 || opcode[7]
        != 0 {
        return Some(Request::Unknown);
    }
    if opcode[3] == 0x61 {
        Some(Request::BoardInfo)
    } else if opcode[3] == 0xc1 {
        Some(Request::ProductInfo)
    } else {
        Some(Request::Unknown)
    }
}

/// Makes announcements and numbers them.
pub struct Multicaster {
    factory_device_id: [u8; 8],
    vendor: [u8; 8],
    library_version_bytes: [u8; 4],
    seqnum: u16,
}

impl Multicaster {
    /// The number of the next announcement.
    pub closed spec fn next_seqnum(&self) -> u16 {
        self.seqnum
    }

    pub closed spec fn device_id(&self) -> Seq<u8> {
        self.factory_device_id@
    }

    pub closed spec fn spec_vendor(&self) -> Seq<u8> {
        self.vendor@
    }

    pub closed spec fn version(&self) -> Seq<u8> {
        self.library_version_bytes@
    }

    /// Whether nothing but the number of the next announcement differs.
    pub open spec fn same_device(&self, other: &Self) -> bool {
        &&& self.device_id() == other.device_id()
        &&& self.spec_vendor() == other.spec_vendor()
        &&& self.version() == other.version()
    }

    /// The announcements of a device; the version is that of the library.
    pub fn new(self_info: &DeviceInfo, major: u8, minor: u8, patch: u16) -> (multicaster: Self)
        ensures
            multicaster.next_seqnum() == 1,
            multicaster.device_id() == self_info.factory_device_id@,
            multicaster.spec_vendor() == vendor_field(self_info.vendor_string@),
            multicaster.version() == seq![major, minor] + be16(patch),
    {
        let mut vendor: [u8; 8] = [32; 8];
        assert(vendor@ =~= filled(8, 32));
        write_str_to_buffer(&mut vendor, 0, 8, self_info.vendor_string.as_str());
        let library_version_bytes: [u8; 4] = [major, minor, H(patch), L(patch)];
        assert(library_version_bytes@ =~= seq![major, minor] + be16(patch));
        Multicaster { factory_device_id: self_info.factory_device_id, vendor, library_version_bytes, seqnum: 1 }
    }

    /// Whether the announcement has the content and the next number.
    pub open spec fn announces(
        &self,
        announcement: Announcement,
        destination: Destination,
        start_code: u16,
        opcode: Seq<u8>,
        content: Seq<u8>,
    ) -> bool {
        &&& announcement.destination == destination
        &&& announcement.packet@ == packet(
            start_code,
            self.next_seqnum(),
            self.device_id(),
            self.spec_vendor(),
            opcode,
            content,
        )
    }

    fn send(&mut self, destination: Destination, start_code: u16, opcode: [u8; 8], content: &[u8]) -> (announcement:
        Announcement)
        requires
            packet_fits(content@.len() as int, SEND_BUFFER_SIZE as int),
        ensures
            old(self).announces(announcement, destination, start_code, opcode@, content@),
            final(self).same_device(old(self)),
            final(self).next_seqnum() == old(self).next_seqnum().wrapping_add(1),
    {
        let mut send_buffer: Vec<u8> = vec![0; SEND_BUFFER_SIZE];
        let length: usize = make_packet(
            send_buffer.as_mut_slice(),
            start_code,
            self.seqnum,
            self.factory_device_id,
            self.vendor,
            opcode,
            content,
        );
        send_buffer.truncate(length);
        self.seqnum = self.seqnum.wrapping_add(1);
        assert(send_buffer@ =~= packet(
            start_code,
            old(self).seqnum,
            old(self).factory_device_id@,
            old(self).vendor@,
            opcode@,
            content@,
        ));
        Announcement { destination, packet: send_buffer }
    }

    /// Announces the message.
    pub fn send_message(&mut self, message: &MulticastMessage) -> (announcement: Announcement)
        requires
            packet_fits(message.content@.len() as int, SEND_BUFFER_SIZE as int),
        ensures
            old(self).announces(
                announcement,
                Destination::DeviceInfo,
                message.start_code,
                message.opcode@,
                message.content@,
            ),
            final(self).same_device(old(self)),
            final(self).next_seqnum() == old(self).next_seqnum().wrapping_add(1),
    {
        self.send(Destination::DeviceInfo, message.start_code, message.opcode, message.content.as_slice())
    }

    pub fn send_board_info(&mut self, self_info: &DeviceInfo) -> (announcement: Announcement)
        ensures
            old(self).announces(
                announcement,
                Destination::DeviceInfo,
                0xffff,
                board_info_opcode(),
                board_info_content(self_info, old(self).version()),
            ),
            final(self).same_device(old(self)),
            final(self).next_seqnum() == old(self).next_seqnum().wrapping_add(1),
    {
        let mut content: [u8; 200] = [0; 200];
        assert(content@ =~= filled(200, 0));
        // Firmware version:
        copy_to_buffer(&mut content, 0, self.library_version_bytes.as_slice());
        // Hardware version:
        let hardware: [u8; 4] = [1, 3, 0, 3];
        assert(hardware@ =~= seq![1u8, 3u8, 0u8, 3u8]);
        copy_to_buffer(&mut content, 4, hardware.as_slice());
        content[0x27] = 7;
        // Boot version:
        let boot: [u8; 4] = [1, 0, 0, 0];
        assert(boot@ =~= seq![1u8, 0u8, 0u8, 0u8]);
        copy_to_buffer(&mut content, 0x28, boot.as_slice());
        content[0x16] = 0x10;
        content[0xbb] = 0x1f;
        assert(content@ =~= board_features(self.library_version_bytes@));
        write_str_to_buffer(&mut content, 12, 8, self_info.board_name.as_str());
        write_str_to_buffer(&mut content, 0x38, 16, self_info.board_name.as_str());
        let opcode: [u8; 8] = [0x07, 0x2a, 0x00, 0x60, 0, 0, 0, 0];
        assert(opcode@ =~= board_info_opcode());
        self.send(Destination::DeviceInfo, 0xffff, opcode, content.as_slice())
    }

    pub fn send_product_info(&mut self, self_info: &DeviceInfo) -> (announcement: Announcement)
        ensures
            old(self).announces(
                announcement,
                Destination::DeviceInfo,
                0xffff,
                product_info_opcode(),
                product_info_content(self_info),
            ),
            final(self).same_device(old(self)),
            final(self).next_seqnum() == old(self).next_seqnum().wrapping_add(1),
    {
        let mut content: [u8; 336] = [0; 336];
        assert(content@ =~= filled(336, 0));
        write_str_to_buffer(&mut content, 0, 8, self_info.manufacturer.as_str());
        write_str_to_buffer(&mut content, 8, 8, self_info.board_name.as_str());
        write_str_to_buffer(&mut content, 0x2c, 16, self_info.manufacturer.as_str());
        write_str_to_buffer(&mut content, 0xac, 16, self_info.model_name.as_str());
        let opcode: [u8; 8] = [0x07, 0x2a, 0x00, 0xc0, 0, 0, 0, 0];
        assert(opcode@ =~= product_info_opcode());
        self.send(Destination::DeviceInfo, 0xffff, opcode, content.as_slice())
    }

    pub fn send_heartbeat(&mut self) -> (announcement: Announcement)
        ensures
            old(self).announces(
                announcement,
                Destination::Heartbeat,
                0xfffe,
                heartbeat_opcode(),
                heartbeat_content(old(self).next_seqnum()),
            ),
            final(self).same_device(old(self)),
            final(self).next_seqnum() == old(self).next_seqnum().wrapping_add(1),
    {
        let ctr: u16 = self.seqnum;
        let content: [u8; 16] = [0, 0x10, 0x80, 1, 0, 4, 0, 4, H(ctr), L(ctr), 0, 0, 0, 0, 0, 0];
        assert(content@ =~= heartbeat_content(ctr));
        let opcode: [u8; 8] = [0, 8, 0, 1, 0x10, 0, 0, 0];
        assert(opcode@ =~= heartbeat_opcode());
        self.send(Destination::Heartbeat, 0xfffe, opcode, content.as_slice())
    }

    /// The announcement which a request asks for; `None` if it is too short or unknown.
    pub fn answer(&mut self, self_info: &DeviceInfo, request: Option<Request>) -> (announcement: Option<Announcement>)
        ensures
            announcement is Some <==> (request == Some(Request::BoardInfo) || request == Some(
                Request::ProductInfo,
            )),
            request == Some(Request::BoardInfo) ==> old(self).announces(
                announcement->0,
                Destination::DeviceInfo,
                0xffff,
                board_info_opcode(),
                board_info_content(self_info, old(self).version()),
            ),
            request == Some(Request::ProductInfo) ==> old(self).announces(
                announcement->0,
                Destination::DeviceInfo,
                0xffff,
                product_info_opcode(),
                product_info_content(self_info),
            ),
            final(self).same_device(old(self)),
            announcement is None ==> *final(self) == *old(self),
            announcement is Some ==> final(self).next_seqnum() == old(self).next_seqnum().wrapping_add(1),
    {
        match request {
            Some(Request::BoardInfo) => Some(self.send_board_info(self_info)),
            Some(Request::ProductInfo) => Some(self.send_product_info(self_info)),
            _ => None,
        }
    }
}

/// Whether a message fits into an announcement.
pub fn is_message_sendable(message: &MulticastMessage) -> (sendable: bool)
    ensures
        sendable == packet_fits(message.content@.len() as int, SEND_BUFFER_SIZE as int),
{
    message.content.len() <= SEND_BUFFER_SIZE - HEADER_LENGTH
}

} // verus!

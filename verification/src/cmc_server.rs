//! Answers to the requests for the description of this device as a node of the network.

use crate::byte_utils::be16;
use crate::device_info::DeviceInfo;
use crate::wire::{bytes_of, into_bytes, new_buffer, write_bytes, write_u16};
use vstd::prelude::*;

verus! {

/// The request for the description.
pub const OPCODE_DESCRIBE: u16 = 0x1001;

/// The description of this device.
pub open spec fn description(info: &DeviceInfo) -> Seq<u8> {
    be16(info.process_id) + info.factory_device_id@ + be16(1) + be16(0) + info.ip_address@ + be16(
        info.info_request_port,
    ) + be16(0)
}

/// The content of the response to a request; `None` if it is not answered.
pub fn respond(info: &DeviceInfo, opcode1: u16, opcode2: u16) -> (content: Option<Vec<u8>>)
    ensures
        content is Some <==> opcode2 == 0 && opcode1 == OPCODE_DESCRIBE,
        content is Some ==> content->0@ == description(info),
{
    if opcode2 == 0 && opcode1 == OPCODE_DESCRIBE {
        let mut content = new_buffer();
        write_u16(&mut content, info.process_id);
        assert(bytes_of(content) =~= be16(info.process_id));
        write_bytes(&mut content, info.factory_device_id.as_slice());
        write_u16(&mut content, 1);
        write_u16(&mut content, 0);
        write_bytes(&mut content, info.ip_address.as_slice());
        write_u16(&mut content, info.info_request_port);
        write_u16(&mut content, 0);
        Some(into_bytes(content))
    } else {
        None
    }
}

} // verus!

//! Answers to the requests of controllers: names of channels, subscriptions, features.

use crate::byte_utils::{
    be16, be16_at, be32, is_str_readable, lemma_concat, make_u16, overwrite, read_0term_str_from_buffer,
    str_readable, write_str_to_buffer, written_len,
};
use crate::channels_subscriber::SubscriptionInfo;
use crate::device_info::{Channel, DeviceInfo};
use crate::flows_control_server::{has_string, string_at};
use crate::protocol::flows_control::low16;
use crate::protocol::req_resp::HEADER_LENGTH;
use crate::subscriber::Command;
use crate::wire::{
    appends, buffer_bytes, bytes_of, into_bytes, new_buffer, write_bytes, write_position, write_u16,
    write_u32, write_u8,
};
use bytebuffer::ByteBuffer;
use vstd::prelude::*;
use vstd::utf8::encode_utf8;

verus! {

/// The response code which says that there are more channels than fit into the response.
pub const MORE_CHANNELS_CODE: u16 = 0x8112;

/// How many channels a response describes at most.
pub const CHANNELS_IN_RESPONSE: usize = 16;

/// A response to a controller.
pub struct Response {
    pub code: u16,
    pub content: Vec<u8>,
}

fn to_low16(v: usize) -> (low: u16)
    ensures
        low == low16(v as int),
{
    (v % 0x1_0000) as u16
}

/// `count` zeros.
pub open spec fn zeros(count: nat) -> Seq<u8> {
    Seq::new(count, |i: int| 0u8)
}

fn write_zeros(buffer: &mut ByteBuffer, count: usize)
    requires
        appends(*old(buffer)),
    ensures
        appends(*final(buffer)),
        bytes_of(*final(buffer)) == bytes_of(*old(buffer)) + zeros(count as nat),
{
    let ghost start = bytes_of(*buffer);
    let mut i: usize = 0;
    assert(start + zeros(0) =~= start);
    while i < count
        invariant
            i <= count,
            appends(*buffer),
            bytes_of(*buffer) == start + zeros(i as nat),
        decreases count - i,
    {
        write_u8(buffer, 0);
        i = i + 1;
        assert(bytes_of(*buffer) =~= start + zeros(i as nat));
    }
}

// ---------------------------------------------------------------------------------------------
// Features and names of the device
// ---------------------------------------------------------------------------------------------

/// The numbers of channels, and features which are the same for almost all devices.
pub open spec fn features_content(info: &DeviceInfo) -> Seq<u8> {
    seq![0u8, 0u8] + be16(low16(info.tx_channels@.len() as int)) + be16(
        low16(info.rx_channels@.len() as int),
    ) + zeros(8) + seq![0u8, 8u8, 0u8, 0u8, 0u8, 0u8, 0u8, 1u8] + zeros(12)
}

pub fn features(info: &DeviceInfo) -> (content: Vec<u8>)
    ensures
        content@ == features_content(info),
{
    let mut buffer = new_buffer();
    let head: [u8; 2] = [0, 0];
    write_bytes(&mut buffer, head.as_slice());
    assert(bytes_of(buffer) =~= seq![0u8, 0u8]);
    write_u16(&mut buffer, to_low16(info.tx_channels.len()));
    write_u16(&mut buffer, to_low16(info.rx_channels.len()));
    write_zeros(&mut buffer, 8);
    // max receive flows; if the last byte is 0, controllers don't recognize RX channels
    let limits: [u8; 8] = [0, 8, 0, 0, 0, 0, 0, 1];
    assert(limits@ =~= seq![0u8, 8u8, 0u8, 0u8, 0u8, 0u8, 0u8, 1u8]);
    write_bytes(&mut buffer, limits.as_slice());
    write_zeros(&mut buffer, 12);
    into_bytes(buffer)
}

/// The name of the device.
pub open spec fn device_name_content(info: &DeviceInfo) -> Seq<u8> {
    encode_utf8(info.friendly_hostname@).push(0)
}

pub fn device_name(info: &DeviceInfo) -> (content: Vec<u8>)
    ensures
        content@ == device_name_content(info),
{
    let mut buff = new_buffer();
    write_bytes(&mut buff, info.friendly_hostname.as_str().as_bytes());
    write_u8(&mut buff, 0);
    assert(bytes_of(buff) =~= device_name_content(info));
    into_bytes(buff)
}

/// Where the friendly host name stands in the content.
pub const FRIENDLY_NAME_OFFSET: usize = 0x26;

/// Where the factory host name stands in the content.
pub const FACTORY_NAME_OFFSET: usize = 0x46;

/// Where the board name stands in the content.
pub const BOARD_NAME_OFFSET: usize = 0x66;

pub const HOST_NAMES_MAXLEN: usize = 0x1f;

pub const BOARD_NAME_MAXLEN: usize = 23;

/// What stands before the names: where they are, and numbers of the protocol.
pub open spec fn names_head() -> Seq<u8> {
    seq![
        0u8, 0u8, 0u8, 0u8, 0u8, 0u8, 0u8, 0x70u8, 0u8, 0x90u8, 0u8, 0u8, 0u8, 0x30u8, 0u8, 0x50u8, 0u8, 0x30u8,
        0u8, 0u8, 0u8, 0u8, 0u8, 0u8, 0u8, 0u8, 0u8, 0u8, 0u8, 0u8, 0x27u8, 0x29u8, 0u8, 0u8, 0x11u8, 0x02u8,
        0u8, 0u8,
    ]
}

/// The content without names.
pub open spec fn names_template() -> Seq<u8> {
    names_head() + zeros(88) + seq![0x3au8, 0x37u8, 0x30u8, 0x35u8, 0u8]
}

/// The beginning of a name, no more than `max_len` bytes of it.
pub open spec fn shortened(name: Seq<char>, max_len: int) -> Seq<u8> {
    encode_utf8(name).take(written_len(max_len, encode_utf8(name)))
}

/// The names of the device and of its board.
pub open spec fn device_names_content(info: &DeviceInfo) -> Seq<u8> {
    overwrite(
        overwrite(
            overwrite(
                names_template(),
                FRIENDLY_NAME_OFFSET as int,
                shortened(info.friendly_hostname@, HOST_NAMES_MAXLEN as int),
            ),
            FACTORY_NAME_OFFSET as int,
            shortened(info.factory_hostname@, HOST_NAMES_MAXLEN as int),
        ),
        BOARD_NAME_OFFSET as int,
        shortened(info.board_name@, BOARD_NAME_MAXLEN as int),
    )
}

pub fn device_names(info: &DeviceInfo) -> (content: Vec<u8>)
    ensures
        content@ == device_names_content(info),
{
    let mut buffer = new_buffer();
    let head: [u8; 38] = [
        0, 0, 0, 0, 0, 0, /* offset of board name: */ 0, 0x70, /* offset of the revision string: */ 0, 0x90, 0, 0,
        /* offset of friendly host name: */ 0, 0x30, /* offset of factory host name: */ 0, 0x50,
        /* offset of friendly host name again: */ 0, 0x30, 0, 0, 0, 0, 0, 0, 0, 0, 0, 0, 0, 0,
        /* start code: */ 0x27, 0x29, 0, 0, /* opcode of some other request: */ 0x11, 0x02, 0, 0,
    ];
    write_bytes(&mut buffer, head.as_slice());
    assert(head@ =~= names_head());
    assert(bytes_of(buffer) =~= names_head());
    write_zeros(&mut buffer, 88);
    // the revision string, :705
    let revision: [u8; 5] = [0x3a, 0x37, 0x30, 0x35, 0];
    assert(revision@ =~= seq![0x3au8, 0x37u8, 0x30u8, 0x35u8, 0u8]);
    write_bytes(&mut buffer, revision.as_slice());
    let mut content: Vec<u8> = into_bytes(buffer);
    assert(content@ == names_template());
    assert(content@.len() == 131);
    write_str_to_buffer(
        content.as_mut_slice(),
        FRIENDLY_NAME_OFFSET,
        HOST_NAMES_MAXLEN,
        info.friendly_hostname.as_str(),
    );
    write_str_to_buffer(
        content.as_mut_slice(),
        FACTORY_NAME_OFFSET,
        HOST_NAMES_MAXLEN,
        info.factory_hostname.as_str(),
    );
    write_str_to_buffer(
        content.as_mut_slice(),
        BOARD_NAME_OFFSET,
        BOARD_NAME_MAXLEN,
        info.board_name.as_str(),
    );
    content
}

// ---------------------------------------------------------------------------------------------
// Lists of channels
// ---------------------------------------------------------------------------------------------

/// Which channels a response describes.
#[derive(Clone, Copy, Debug, PartialEq, Eq, Structural)]
pub struct ChannelRange {
    /// the index of the first one
    pub start: usize,
    /// how many there are in the response
    pub count: usize,
    /// whether there are more
    pub more: bool,
}

/// The range of channels which begins at `start` when `remaining` channels are left.
pub open spec fn range_of(start: int, remaining: int) -> ChannelRange {
    let count = if remaining < CHANNELS_IN_RESPONSE {
        remaining
    } else {
        CHANNELS_IN_RESPONSE as int
    };
    ChannelRange { start: start as usize, count: count as usize, more: remaining > count }
}

fn make_range(start: usize, remaining: usize) -> (range: ChannelRange)
    ensures
        range == range_of(start as int, remaining as int),
{
    let count: usize = if remaining < CHANNELS_IN_RESPONSE {
        remaining
    } else {
        CHANNELS_IN_RESPONSE
    };
    ChannelRange { start, count, more: remaining > count }
}

/// The code of a response which describes the range.
pub open spec fn code_of(range: ChannelRange) -> u16 {
    if range.more {
        MORE_CHANNELS_CODE
    } else {
        1
    }
}

fn choose_code(range: ChannelRange) -> (code: u16)
    ensures
        code == code_of(range),
{
    if range.more {
        MORE_CHANNELS_CODE
    } else {
        1
    }
}

/// What all channels have in common.
pub open spec fn common_description(info: &DeviceInfo) -> Seq<u8> {
    be32(info.sample_rate) + seq![
        1u8, 1u8, 0u8, 0x18u8, 4u8, 0u8, 0u8, 0x18u8, 0u8, 0x18u8, 0u8, info.pcm_type,
    ]
}

fn write_common_description(buffer: &mut ByteBuffer, info: &DeviceInfo)
    requires
        appends(*old(buffer)),
    ensures
        appends(*final(buffer)),
        bytes_of(*final(buffer)) == bytes_of(*old(buffer)) + common_description(info),
{
    let ghost start = bytes_of(*buffer);
    write_u32(buffer, info.sample_rate);
    let description: [u8; 12] = [1, 1, 0, 0x18, 4, 0, 0, 0x18, 0, 0x18, 0, info.pcm_type];
    assert(description@ =~= seq![
        1u8, 1u8, 0u8, 0x18u8, 4u8, 0u8, 0u8, 0x18u8, 0u8, 0x18u8, 0u8, info.pcm_type,
    ]);
    write_bytes(buffer, description.as_slice());
    assert(bytes_of(*buffer) =~= start + common_description(info));
}

/// Entries of channels, and the strings to which they refer.
pub struct Entries {
    pub entries: Seq<u8>,
    pub strings: Seq<u8>,
}

/// A string followed by a zero.
pub open spec fn terminated_text(s: Seq<char>) -> Seq<u8> {
    encode_utf8(s).push(0)
}

/// The strings of a receive channel.
pub open spec fn rx_strings(ch: Channel, status: Option<SubscriptionInfo>) -> Seq<u8> {
    match status {
        None => terminated_text(ch.friendly_name@),
        Some(status) => terminated_text(status.tx_channel_name@) + terminated_text(status.tx_hostname@)
            + terminated_text(ch.friendly_name@),
    }
}

/// The entry of the receive channel `i` whose strings begin at `offset`.
pub open spec fn rx_entry(
    i: int,
    descr_offset: int,
    offset: int,
    status: Option<SubscriptionInfo>,
) -> Seq<u8> {
    let name_lens = match status {
        None => (0nat, 0nat),
        Some(status) => (
            encode_utf8(status.tx_channel_name@).len() + 1,
            encode_utf8(status.tx_hostname@).len() + 1,
        ),
    };
    be16(low16(i + 1)) + be16(6) + be16(low16(descr_offset)) + be16(
        if status is Some {
            low16(offset)
        } else {
            0
        },
    ) + be16(
        if status is Some {
            low16(offset + name_lens.0)
        } else {
            0
        },
    ) + be16(low16(offset + name_lens.0 + name_lens.1)) + be32(
        match status {
            None => 0,
            Some(status) => status.status.spec_code(),
        },
    ) + be32(0)
}

/// The entries of the first `n` receive channels of the range.
pub open spec fn rx_entries(
    channels: Seq<Channel>,
    statuses: Seq<Option<SubscriptionInfo>>,
    range: ChannelRange,
    n: int,
) -> Entries
    decreases n,
{
    if n <= 0 {
        Entries { entries: Seq::empty(), strings: Seq::empty() }
    } else {
        let before = rx_entries(channels, statuses, range, n - 1);
        let i = range.start + n - 1;
        let descr_offset = HEADER_LENGTH + 2 + range.count * 20;
        Entries {
            entries: before.entries + rx_entry(
                i,
                descr_offset,
                descr_offset + 16 + before.strings.len(),
                statuses[i],
            ),
            strings: before.strings + rx_strings(channels[i], statuses[i]),
        }
    }
}

/// The description of receive channels and of their subscriptions.
pub open spec fn rx_channels_content(
    info: &DeviceInfo,
    statuses: Seq<Option<SubscriptionInfo>>,
    range: ChannelRange,
) -> Seq<u8> {
    let all = rx_entries(info.rx_channels@, statuses, range, range.count as int);
    seq![range.count as u8, range.count as u8] + all.entries + common_description(info) + all.strings
}

fn write_text(buffer: &mut ByteBuffer, text: &str)
    requires
        appends(*old(buffer)),
    ensures
        appends(*final(buffer)),
        bytes_of(*final(buffer)) == bytes_of(*old(buffer)) + terminated_text(text@),
{
    let ghost start = bytes_of(*buffer);
    write_bytes(buffer, text.as_bytes());
    write_u8(buffer, 0);
    assert(bytes_of(*buffer) =~= start + terminated_text(text@));
}

/// Adds the entry of a receive channel and its strings.
fn write_rx_entry(
    response: &mut ByteBuffer,
    strings: &mut ByteBuffer,
    i: usize,
    descr_offset: usize,
    ch: &Channel,
    status: &Option<SubscriptionInfo>,
)
    requires
        appends(*old(response)),
        appends(*old(strings)),
        i < usize::MAX,
        descr_offset <= 1000,
    ensures
        appends(*final(response)),
        appends(*final(strings)),
        bytes_of(*final(response)) == bytes_of(*old(response)) + rx_entry(
            i as int,
            descr_offset as int,
            descr_offset + 16 + bytes_of(*old(strings)).len(),
            *status,
        ),
        bytes_of(*final(strings)) == bytes_of(*old(strings)) + rx_strings(*ch, *status),
{
    let strings_offset: usize = descr_offset + 16;
    let ghost start = bytes_of(*response);
    let ghost strings0 = bytes_of(*strings);
    let mut tx_ch_offset: u16 = 0;
    let mut tx_host_offset: u16 = 0;
    let mut status_value: u32 = 0;
    match status {
        None => {},
        Some(status) => {
            tx_ch_offset = to_low16(write_position(strings) + strings_offset);
            write_text(strings, status.tx_channel_name.as_str());
            tx_host_offset = to_low16(write_position(strings) + strings_offset);
            write_text(strings, status.tx_hostname.as_str());
            status_value = status.status.code();
        },
    }
    let name_offset: u16 = to_low16(write_position(strings) + strings_offset);
    write_text(strings, ch.friendly_name.as_str());
    assert(bytes_of(*strings) =~= strings0 + rx_strings(*ch, *status));
    write_u16(response, to_low16(i + 1));
    write_u16(response, 6);
    write_u16(response, to_low16(descr_offset));
    write_u16(response, tx_ch_offset);
    write_u16(response, tx_host_offset);
    write_u16(response, name_offset);
    write_u32(response, status_value);
    write_u32(response, 0);
    assert(bytes_of(*response) =~= start + rx_entry(
        i as int,
        descr_offset as int,
        descr_offset + 16 + strings0.len(),
        *status,
    ));
}

/// Describes receive channels and their subscriptions.
pub fn describe_rx_channels(
    info: &DeviceInfo,
    statuses: &Vec<Option<SubscriptionInfo>>,
    range: ChannelRange,
) -> (content: Vec<u8>)
    requires
        range.count <= CHANNELS_IN_RESPONSE,
        range.start + range.count <= info.rx_channels@.len(),
        range.start + range.count <= statuses@.len(),
    ensures
        content@ == rx_channels_content(info, statuses@, range),
{
    let mut response = new_buffer();
    write_u8(&mut response, range.count as u8);
    write_u8(&mut response, range.count as u8);
    let ghost head = seq![range.count as u8, range.count as u8];
    assert(bytes_of(response) =~= head);
    let descr_offset: usize = HEADER_LENGTH + 2 + range.count * 20;
    let mut strings = new_buffer();
    let total: usize = info.rx_channels.len();
    let mut n: usize = 0;
    assert(head + Seq::<u8>::empty() =~= head);
    while n < range.count
        invariant
            range.count <= CHANNELS_IN_RESPONSE,
            total == info.rx_channels@.len(),
            range.start + range.count <= total,
            range.start + range.count <= statuses@.len(),
            descr_offset == HEADER_LENGTH + 2 + range.count * 20,
            n <= range.count,
            appends(response),
            appends(strings),
            ({
                let all = rx_entries(info.rx_channels@, statuses@, range, n as int);
                &&& bytes_of(response) == head + all.entries
                &&& bytes_of(strings) == all.strings
            }),
        decreases range.count - n,
    {
        let i: usize = range.start + n;
        let ghost before = rx_entries(info.rx_channels@, statuses@, range, n as int);
        proof {
            lemma_concat(
                head,
                before.entries,
                rx_entry(
                    i as int,
                    descr_offset as int,
                    descr_offset + 16 + before.strings.len(),
                    statuses@[i as int],
                ),
            );
        }
        write_rx_entry(&mut response, &mut strings, i, descr_offset, &info.rx_channels[i], &statuses[i]);
        n = n + 1;
    }
    write_common_description(&mut response, info);
    write_bytes(&mut response, buffer_bytes(&strings));
    into_bytes(response)
}

/// Answers to the request for receive channels from the identifier `start_id` on; without
/// `statuses` there are no receive channels.
pub fn list_rx_channels(
    info: &DeviceInfo,
    statuses: Option<&Vec<Option<SubscriptionInfo>>>,
    start_id: u16,
) -> (response: Response)
    requires
        start_id > 0,
        statuses is Some ==> statuses->0@.len() == info.rx_channels@.len(),
    ensures
        response.code == code_of(rx_range(info, statuses is Some, start_id)),
        response.content@ == rx_channels_content(
            info,
            match statuses {
                Some(s) => s@,
                None => Seq::empty(),
            },
            rx_range(info, statuses is Some, start_id),
        ),
{
    let start_index: usize = start_id as usize - 1;
    match statuses {
        Some(statuses) => {
            let remaining: usize = info.rx_channels.len().saturating_sub(start_index);
            let range = make_range(start_index, remaining);
            assert(remaining == remaining_channels(info.rx_channels@.len() as int, start_index as int));
            if remaining == 0 {
                // the range may begin after the last channel, but then it is empty
                assert(range.count == 0);
                let none: Vec<Option<SubscriptionInfo>> = Vec::new();
                let empty = ChannelRange { start: 0, count: 0, more: false };
                assert(rx_channels_content(info, statuses@, range) == rx_channels_content(
                    info,
                    none@,
                    empty,
                ));
                return Response {
                    code: choose_code(range),
                    content: describe_rx_channels(info, &none, empty),
                };
            }
            Response {
                code: choose_code(range),
                content: describe_rx_channels(info, statuses, range),
            }
        },
        None => {
            let range = make_range(start_index, 0);
            let none: Vec<Option<SubscriptionInfo>> = Vec::new();
            let empty = ChannelRange { start: 0, count: 0, more: false };
            assert(range.count == 0);
            assert(rx_channels_content(info, Seq::empty(), range) == rx_channels_content(info, none@, empty));
            Response {
                code: choose_code(range),
                content: describe_rx_channels(info, &none, empty),
            }
        },
    }
}

/// How many of `count` channels are left from the index `start` on.
pub open spec fn remaining_channels(count: int, start: int) -> int {
    if start < count {
        count - start
    } else {
        0
    }
}

/// The range of receive channels in the response.
pub open spec fn rx_range(info: &DeviceInfo, have_receiver: bool, start_id: u16) -> ChannelRange {
    range_of(
        start_id - 1,
        if have_receiver {
            remaining_channels(info.rx_channels@.len() as int, start_id - 1)
        } else {
            0
        },
    )
}

/// The range of transmit channels in the response.
pub open spec fn tx_range(info: &DeviceInfo, start_id: u16) -> ChannelRange {
    range_of(start_id - 1, info.tx_channels@.len() - (start_id - 1))
}

/// The entries of the first `n` transmit channels of the range with their default names.
pub open spec fn tx_default_entries(channels: Seq<Channel>, range: ChannelRange, n: int) -> Entries
    decreases n,
{
    if n <= 0 {
        Entries { entries: Seq::empty(), strings: Seq::empty() }
    } else {
        let before = tx_default_entries(channels, range, n - 1);
        let i = range.start + n - 1;
        let descr_offset = HEADER_LENGTH + 2 + range.count * 8;
        Entries {
            entries: before.entries + tx_default_entry(
                i,
                descr_offset,
                descr_offset + 16 + before.strings.len(),
            ),
            strings: before.strings + terminated_text(channels[i].factory_name@),
        }
    }
}

/// The entry of the transmit channel `i` whose name stands at `name_offset`.
pub open spec fn tx_default_entry(i: int, descr_offset: int, name_offset: int) -> Seq<u8> {
    be16(low16(i + 1)) + be16(7) + be16(low16(descr_offset)) + be16(low16(name_offset))
}

/// The description of transmit channels with their default names.
pub open spec fn tx_default_names_content(info: &DeviceInfo, range: ChannelRange) -> Seq<u8> {
    let all = tx_default_entries(info.tx_channels@, range, range.count as int);
    seq![range.count as u8, range.count as u8] + all.entries + common_description(info) + all.strings
}

/// The entries of the first `n` transmit channels of the range with the names which the user gave to them.
pub open spec fn tx_friendly_entries(channels: Seq<Channel>, range: ChannelRange, n: int) -> Entries
    decreases n,
{
    if n <= 0 {
        Entries { entries: Seq::empty(), strings: Seq::empty() }
    } else {
        let before = tx_friendly_entries(channels, range, n - 1);
        let i = range.start + n - 1;
        let strings_offset = HEADER_LENGTH + 2 + range.count * 6 + 4;
        Entries {
            entries: before.entries + tx_friendly_entry(i, strings_offset + before.strings.len()),
            strings: before.strings + terminated_text(channels[i].friendly_name@),
        }
    }
}

/// The entry of the transmit channel `i` whose name stands at `name_offset`.
pub open spec fn tx_friendly_entry(i: int, name_offset: int) -> Seq<u8> {
    be16(low16(i + 1)) + be16(low16(i + 1)) + be16(low16(name_offset))
}

/// The description of transmit channels with the names which the user gave to them.
pub open spec fn tx_friendly_names_content(info: &DeviceInfo, range: ChannelRange) -> Seq<u8> {
    let all = tx_friendly_entries(info.tx_channels@, range, range.count as int);
    seq![range.count as u8, range.count as u8] + all.entries + be32(0) + all.strings
}

/// Whether a controller may ask for transmit channels from the identifier on: it is that of a
/// channel, or the one after the last.
pub open spec fn is_tx_start(info: &DeviceInfo, start_id: u16) -> bool {
    0 < start_id <= info.tx_channels@.len() + 1
}

fn write_tx_default_entry(response: &mut ByteBuffer, i: usize, descr_offset: usize, name_offset: u16, Ghost(at): Ghost<
    int,
>)
    requires
        appends(*old(response)),
        i < usize::MAX,
        name_offset == low16(at),
    ensures
        appends(*final(response)),
        bytes_of(*final(response)) == bytes_of(*old(response)) + tx_default_entry(
            i as int,
            descr_offset as int,
            at,
        ),
{
    let ghost start = bytes_of(*response);
    write_u16(response, to_low16(i + 1));
    write_u16(response, 7);
    write_u16(response, to_low16(descr_offset));
    write_u16(response, name_offset);
    assert(bytes_of(*response) =~= start + tx_default_entry(i as int, descr_offset as int, at));
}

/// Answers to the request for transmit channels with their default names from the identifier
/// `start_id` on.
pub fn list_tx_default_names(info: &DeviceInfo, start_id: u16) -> (response: Response)
    requires
        is_tx_start(info, start_id),
    ensures
        response.code == code_of(tx_range(info, start_id)),
        response.content@ == tx_default_names_content(info, tx_range(info, start_id)),
{
    let start_index: usize = start_id as usize - 1;
    let total: usize = info.tx_channels.len();
    let range = make_range(start_index, total - start_index);
    let mut response = new_buffer();
    write_u8(&mut response, range.count as u8);
    write_u8(&mut response, range.count as u8);
    let ghost head = seq![range.count as u8, range.count as u8];
    assert(bytes_of(response) =~= head);
    let descr_offset: usize = HEADER_LENGTH + 2 + range.count * 8;
    let mut strings = new_buffer();
    let mut n: usize = 0;
    assert(head + Seq::<u8>::empty() =~= head);
    while n < range.count
        invariant
            range.count <= CHANNELS_IN_RESPONSE,
            total == info.tx_channels@.len(),
            range.start + range.count <= total,
            descr_offset == HEADER_LENGTH + 2 + range.count * 8,
            n <= range.count,
            appends(response),
            appends(strings),
            ({
                let all = tx_default_entries(info.tx_channels@, range, n as int);
                &&& bytes_of(response) == head + all.entries
                &&& bytes_of(strings) == all.strings
            }),
        decreases range.count - n,
    {
        let i: usize = range.start + n;
        let ghost before = tx_default_entries(info.tx_channels@, range, n as int);
        let ghost at = descr_offset + 16 + before.strings.len();
        proof {
            lemma_concat(head, before.entries, tx_default_entry(i as int, descr_offset as int, at));
        }
        let name_offset: u16 = to_low16(write_position(&strings) + descr_offset + 16);
        write_tx_default_entry(&mut response, i, descr_offset, name_offset, Ghost(at));
        write_text(&mut strings, info.tx_channels[i].factory_name.as_str());
        n = n + 1;
    }
    write_common_description(&mut response, info);
    write_bytes(&mut response, buffer_bytes(&strings));
    Response { code: choose_code(range), content: into_bytes(response) }
}

fn write_tx_friendly_entry(response: &mut ByteBuffer, i: usize, name_offset: u16, Ghost(at): Ghost<int>)
    requires
        appends(*old(response)),
        i < usize::MAX,
        name_offset == low16(at),
    ensures
        appends(*final(response)),
        bytes_of(*final(response)) == bytes_of(*old(response)) + tx_friendly_entry(i as int, at),
{
    let ghost start = bytes_of(*response);
    let channel_id: u16 = to_low16(i + 1);
    write_u16(response, channel_id);
    write_u16(response, channel_id);
    write_u16(response, name_offset);
    assert(bytes_of(*response) =~= start + tx_friendly_entry(i as int, at));
}

/// Answers to the request for transmit channels with the names which the user gave to them, from the
/// identifier `start_id` on.
pub fn list_tx_friendly_names(info: &DeviceInfo, start_id: u16) -> (response: Response)
    requires
        is_tx_start(info, start_id),
    ensures
        response.code == code_of(tx_range(info, start_id)),
        response.content@ == tx_friendly_names_content(info, tx_range(info, start_id)),
{
    let start_index: usize = start_id as usize - 1;
    let total: usize = info.tx_channels.len();
    let range = make_range(start_index, total - start_index);
    let mut response = new_buffer();
    write_u8(&mut response, range.count as u8);
    write_u8(&mut response, range.count as u8);
    let ghost head = seq![range.count as u8, range.count as u8];
    assert(bytes_of(response) =~= head);
    let strings_offset: usize = HEADER_LENGTH + 2 + range.count * 6 + 4;
    let mut strings = new_buffer();
    let mut n: usize = 0;
    assert(head + Seq::<u8>::empty() =~= head);
    while n < range.count
        invariant
            range.count <= CHANNELS_IN_RESPONSE,
            total == info.tx_channels@.len(),
            range.start + range.count <= total,
            strings_offset == HEADER_LENGTH + 2 + range.count * 6 + 4,
            n <= range.count,
            appends(response),
            appends(strings),
            ({
                let all = tx_friendly_entries(info.tx_channels@, range, n as int);
                &&& bytes_of(response) == head + all.entries
                &&& bytes_of(strings) == all.strings
            }),
        decreases range.count - n,
    {
        let i: usize = range.start + n;
        let ghost before = tx_friendly_entries(info.tx_channels@, range, n as int);
        let ghost at = strings_offset + before.strings.len();
        proof {
            lemma_concat(head, before.entries, tx_friendly_entry(i as int, at));
        }
        let name_offset: u16 = to_low16(write_position(&strings) + strings_offset);
        write_tx_friendly_entry(&mut response, i, name_offset, Ghost(at));
        write_text(&mut strings, info.tx_channels[i].friendly_name.as_str());
        n = n + 1;
    }
    write_u32(&mut response, 0);
    write_bytes(&mut response, buffer_bytes(&strings));
    Response { code: choose_code(range), content: into_bytes(response) }
}

// ---------------------------------------------------------------------------------------------
// Subscriptions
// ---------------------------------------------------------------------------------------------

/// The string to which an offset in the packet refers; `None` if there is none.
pub open spec fn referred_string(c: Seq<u8>, offset: int) -> Option<Seq<char>> {
    if offset >= HEADER_LENGTH && has_string(c, offset - HEADER_LENGTH) {
        Some(string_at(c, offset - HEADER_LENGTH))
    } else {
        None
    }
}

/// Whether an offset can be followed.
pub open spec fn is_followable(c: Seq<u8>, offset: int) -> bool {
    offset < HEADER_LENGTH || str_readable(c, offset - HEADER_LENGTH)
}

/// Whether the entry `i` of a request for subscriptions is complete.
pub open spec fn is_readable_entry(c: Seq<u8>, i: int) -> bool {
    let at = 2 + i * 6;
    let channel_offset = be16_at(c, at + 2);
    let hostname_offset = be16_at(c, at + 4);
    &&& at + 6 <= c.len()
    &&& be16_at(c, at) > 0
    &&& channel_offset > 0 && hostname_offset > 0 ==> is_followable(c, channel_offset) && is_followable(
        c,
        hostname_offset,
    )
}

/// Whether a request for subscriptions is complete.
pub open spec fn is_readable_subscription(c: Seq<u8>) -> bool {
    &&& c.len() >= 2
    &&& forall|i: int| 0 <= i < c[1] ==> #[trigger] is_readable_entry(c, i)
}

/// Whether the command does what the entry `i` of the request asks for; `None`: the names
/// cannot be read, so nothing is done.
pub open spec fn is_command_of(command: Option<Command>, c: Seq<u8>, i: int) -> bool {
    let at = 2 + i * 6;
    let index = be16_at(c, at) - 1;
    let channel_offset = be16_at(c, at + 2);
    let hostname_offset = be16_at(c, at + 4);
    if channel_offset > 0 && hostname_offset > 0 {
        let channel = referred_string(c, channel_offset);
        let hostname = referred_string(c, hostname_offset);
        if channel is Some && hostname is Some {
            &&& command is Some
            &&& command->0 matches Command::Subscribe { local_channel_index, tx_channel_name, tx_hostname }
            &&& local_channel_index == index
            &&& tx_channel_name@ == channel->0
            &&& tx_hostname@ == hostname->0
        } else {
            command is None
        }
    } else {
        &&& command is Some
        &&& command->0 matches Command::Unsubscribe { local_channel_index }
        &&& local_channel_index == index
    }
}

/// Whether the commands do what the first `n` entries of the request ask for.
pub open spec fn are_commands_of(commands: Seq<Command>, c: Seq<u8>, n: int) -> bool
    decreases n,
{
    if n <= 0 {
        commands.len() == 0
    } else {
        ||| is_command_of(None, c, n - 1) && are_commands_of(commands, c, n - 1)
        ||| commands.len() > 0 && is_command_of(Some(commands.last()), c, n - 1) && are_commands_of(
            commands.drop_last(),
            c,
            n - 1,
        )
    }
}

fn read_referred_string(c: &[u8], offset: usize) -> (s: Option<String>)
    requires
        is_followable(c@, offset as int),
    ensures
        s is Some <==> referred_string(c@, offset as int) is Some,
        s is Some ==> s->0@ == referred_string(c@, offset as int)->0,
{
    if offset < HEADER_LENGTH {
        return None;
    }
    match read_0term_str_from_buffer(c, offset - HEADER_LENGTH) {
        Ok(s) => Some(s.to_owned()),
        Err(_) => None,
    }
}

/// Reads one entry of a request for subscriptions; `None` if its names cannot be read.
fn read_subscription_entry(c: &[u8], i: usize) -> (command: Option<Command>)
    requires
        i < 256,
        is_readable_entry(c@, i as int),
    ensures
        is_command_of(command, c@, i as int),
{
    let at: usize = 2 + i * 6;
    let local_channel: u16 = make_u16(c[at], c[at + 1]);
    let tx_channel_offset: usize = make_u16(c[at + 2], c[at + 3]) as usize;
    let tx_hostname_offset: usize = make_u16(c[at + 4], c[at + 5]) as usize;
    let local_channel_index: usize = local_channel as usize - 1;
    if tx_channel_offset > 0 && tx_hostname_offset > 0 {
        let tx_channel_name = read_referred_string(c, tx_channel_offset);
        let tx_hostname = read_referred_string(c, tx_hostname_offset);
        match tx_channel_name {
            Some(tx_channel_name) => match tx_hostname {
                Some(tx_hostname) => Some(
                    Command::Subscribe { local_channel_index, tx_channel_name, tx_hostname },
                ),
                None => None,
            },
            None => None,
        }
    } else {
        Some(Command::Unsubscribe { local_channel_index })
    }
}

/// Reads a request for subscriptions: to connect our receivers to remote transmitters, or to
/// disconnect them.
pub fn read_subscription_request(c: &[u8]) -> (commands: Vec<Command>)
    requires
        is_readable_subscription(c@),
    ensures
        are_commands_of(commands@, c@, c@[1] as int),
{
    let count: usize = c[1] as usize;
    let mut commands: Vec<Command> = Vec::new();
    let mut i: usize = 0;
    while i < count
        invariant
            is_readable_subscription(c@),
            count == c@[1],
            i <= count,
            are_commands_of(commands@, c@, i as int),
        decreases count - i,
    {
        assert(is_readable_entry(c@, i as int));
        let ghost before = commands@;
        match read_subscription_entry(c, i) {
            Some(command) => {
                commands.push(command);
                assert(commands@.drop_last() =~= before);
            },
            None => {},
        }
        i = i + 1;
    }
    commands
}

/// Whether `read_subscription_request` may be called.
pub fn is_subscription_readable(c: &[u8]) -> (readable: bool)
    ensures
        readable == is_readable_subscription(c@),
{
    if c.len() < 2 {
        return false;
    }
    let count: usize = c[1] as usize;
    let mut i: usize = 0;
    while i < count
        invariant
            c@.len() >= 2,
            count == c@[1],
            i <= count,
            forall|k: int| 0 <= k < i ==> #[trigger] is_readable_entry(c@, k),
        decreases count - i,
    {
        let at: usize = 2 + i * 6;
        if c.len() < at + 6 || make_u16(c[at], c[at + 1]) == 0 {
            assert(!is_readable_entry(c@, i as int));
            return false;
        }
        let channel_offset: usize = make_u16(c[at + 2], c[at + 3]) as usize;
        let hostname_offset: usize = make_u16(c[at + 4], c[at + 5]) as usize;
        if channel_offset > 0 && hostname_offset > 0 {
            if (channel_offset >= HEADER_LENGTH && !is_str_readable(c, channel_offset - HEADER_LENGTH)) || (
            hostname_offset >= HEADER_LENGTH && !is_str_readable(c, hostname_offset - HEADER_LENGTH)) {
                assert(!is_readable_entry(c@, i as int));
                return false;
            }
        }
        assert(is_readable_entry(c@, i as int));
        i = i + 1;
    }
    true
}

// ---------------------------------------------------------------------------------------------
// All requests
// ---------------------------------------------------------------------------------------------

/// What is to be done about a request.
pub enum ArcAction {
    /// nothing: the request is not known, or it is not answered
    Ignore,
    /// to respond
    Respond(Response),
    /// to execute the commands and then to respond with nothing but success
    Subscribe(Vec<Command>),
}

/// Whether a request can be decided about.
pub open spec fn is_decidable(
    info: &DeviceInfo,
    have_receiver: bool,
    opcode1: u16,
    opcode2: u16,
    c: Seq<u8>,
) -> bool {
    opcode2 == 0 ==> {
        &&& opcode1 == 0x3000 ==> c.len() >= 4 && be16_at(c, 2) > 0
        &&& opcode1 == 0x2000 || opcode1 == 0x2010 ==> c.len() >= 4 && is_tx_start(
            info,
            be16_at(c, 2) as u16,
        )
        &&& opcode1 == 0x3010 && have_receiver ==> is_readable_subscription(c)
    }
}

/// The response which consists of the content and of success.
pub open spec fn is_success(action: ArcAction, content: Seq<u8>) -> bool {
    action matches ArcAction::Respond(r) && r.code == 1 && r.content@ == content
}

/// Whether `action` is what is to be done about a request.
pub open spec fn is_action_for(
    action: ArcAction,
    info: &DeviceInfo,
    statuses: Option<Seq<Option<SubscriptionInfo>>>,
    opcode1: u16,
    opcode2: u16,
    c: Seq<u8>,
) -> bool {
    if opcode2 != 0 {
        action is Ignore
    } else if opcode1 == 0x1000 {
        is_success(action, features_content(info))
    } else if opcode1 == 0x1102 {
        is_success(action, zeros(94))
    } else if opcode1 == 0x1002 {
        is_success(action, device_name_content(info))
    } else if opcode1 == 0x1003 {
        is_success(action, device_names_content(info))
    } else if opcode1 == 0x3000 {
        let range = rx_range(info, statuses is Some, be16_at(c, 2) as u16);
        &&& action matches ArcAction::Respond(r)
        &&& r.code == code_of(range)
        &&& r.content@ == rx_channels_content(
            info,
            match statuses {
                Some(s) => s,
                None => Seq::empty(),
            },
            range,
        )
    } else if opcode1 == 0x2000 {
        let range = tx_range(info, be16_at(c, 2) as u16);
        &&& action matches ArcAction::Respond(r)
        &&& r.code == code_of(range)
        &&& r.content@ == tx_default_names_content(info, range)
    } else if opcode1 == 0x2010 {
        let range = tx_range(info, be16_at(c, 2) as u16);
        &&& action matches ArcAction::Respond(r)
        &&& r.code == code_of(range)
        &&& r.content@ == tx_friendly_names_content(info, range)
    } else if opcode1 == 0x3200 {
        is_success(action, zeros(6))
    } else if opcode1 == 0x1100 {
        is_success(action, zeros(110))
    } else if opcode1 == 0x3300 {
        is_success(action, zeros(8))
    } else if opcode1 == 0x3010 && statuses is Some {
        action matches ArcAction::Subscribe(commands) && are_commands_of(commands@, c, c[1] as int)
    } else {
        // destinations of transmitters (0x2200), multicast flows (0x2201) and unknown requests
        action is Ignore
    }
}

fn success(content: Vec<u8>) -> (action: ArcAction)
    ensures
        is_success(action, content@),
{
    ArcAction::Respond(Response { code: 1, content })
}

fn success_zeros(count: usize) -> (action: ArcAction)
    ensures
        is_success(action, zeros(count as nat)),
{
    let mut buffer = new_buffer();
    write_zeros(&mut buffer, count);
    assert(bytes_of(buffer) =~= zeros(count as nat));
    success(into_bytes(buffer))
}

/// Whether `decide` may be called.
pub fn can_decide(info: &DeviceInfo, have_receiver: bool, opcode1: u16, opcode2: u16, c: &[u8]) -> (can: bool)
    ensures
        can == is_decidable(info, have_receiver, opcode1, opcode2, c@),
{
    if opcode2 != 0 {
        return true;
    }
    if opcode1 == 0x3000 {
        c.len() >= 4 && make_u16(c[2], c[3]) > 0
    } else if opcode1 == 0x2000 || opcode1 == 0x2010 {
        if c.len() < 4 {
            return false;
        }
        let start_id: u16 = make_u16(c[2], c[3]);
        start_id > 0 && start_id as usize - 1 <= info.tx_channels.len()
    } else if opcode1 == 0x3010 && have_receiver {
        is_subscription_readable(c)
    } else {
        true
    }
}

/// Decides about a request; `statuses` tells of subscriptions if there is a receiver.
pub fn decide(
    info: &DeviceInfo,
    statuses: Option<&Vec<Option<SubscriptionInfo>>>,
    opcode1: u16,
    opcode2: u16,
    c: &[u8],
) -> (action: ArcAction)
    requires
        is_decidable(info, statuses is Some, opcode1, opcode2, c@),
        statuses is Some ==> statuses->0@.len() == info.rx_channels@.len(),
    ensures
        is_action_for(
            action,
            info,
            match statuses {
                Some(s) => Some(s@),
                None => None,
            },
            opcode1,
            opcode2,
            c@,
        ),
{
    if opcode2 != 0 {
        return ArcAction::Ignore;
    }
    if opcode1 == 0x1000 {
        success(features(info))
    } else if opcode1 == 0x1102 {
        success_zeros(94)
    } else if opcode1 == 0x1002 {
        success(device_name(info))
    } else if opcode1 == 0x1003 {
        success(device_names(info))
    } else if opcode1 == 0x3000 {
        ArcAction::Respond(list_rx_channels(info, statuses, make_u16(c[2], c[3])))
    } else if opcode1 == 0x2000 {
        ArcAction::Respond(list_tx_default_names(info, make_u16(c[2], c[3])))
    } else if opcode1 == 0x2010 {
        ArcAction::Respond(list_tx_friendly_names(info, make_u16(c[2], c[3])))
    } else if opcode1 == 0x3200 {
        success_zeros(6)
    } else if opcode1 == 0x1100 {
        success_zeros(110)
    } else if opcode1 == 0x3300 {
        success_zeros(8)
    } else if opcode1 == 0x3010 {
        match statuses {
            Some(_) => ArcAction::Subscribe(read_subscription_request(c)),
            None => ArcAction::Ignore,
        }
    } else {
        ArcAction::Ignore
    }
}

} // verus!

//! What controllers read in the lists of channels is what the device is like: each entry has the
//! identifier of its channel and leads to the names of that channel.

use crate::arc_server::{
    are_commands_of, code_of, common_description, device_name_content, device_names_content, features_content,
    is_action_for, is_command_of, is_readable_entry, is_readable_subscription, names_head, names_template,
    rx_channels_content, rx_entries, rx_entry, rx_range, rx_strings,
    shortened, terminated_text, tx_default_entries, tx_default_entry, tx_default_names_content, tx_friendly_entries,
    tx_friendly_entry, tx_friendly_names_content, tx_range, ArcAction, ChannelRange,
};
use crate::byte_utils::{be16, be16_at, be32, be32_at, bytes_make_the_long_number, written_string_is_found};
use crate::channels_subscriber::SubscriptionInfo;
use crate::device_info::{Channel, DeviceInfo};
use crate::flows_control_server::{has_string, string_at};
use crate::protocol::flows_control::low16;
use crate::protocol::req_resp::HEADER_LENGTH;
use crate::subscriber::Command;
use vstd::prelude::*;
use vstd::utf8::encode_utf8;

verus! {

/// Whether the text stands at `at` in the packet, followed by a zero.
pub open spec fn text_stands_at(bytes: Seq<u8>, at: int, text: Seq<char>) -> bool {
    let e = encode_utf8(text);
    &&& 0 <= at
    &&& at + e.len() < bytes.len()
    &&& bytes.subrange(at, at + e.len()) == e
    &&& bytes[at + e.len()] == 0
}

/// Whether nothing in the text can be taken for its end.
pub open spec fn has_no_zero(text: Seq<char>) -> bool {
    forall|i: int| 0 <= i < encode_utf8(text).len() ==> #[trigger] encode_utf8(text)[i] != 0
}

/// A text without zeros is read where it stands.
pub proof fn text_is_read_where_it_stands(bytes: Seq<u8>, at: int, text: Seq<char>)
    requires
        text_stands_at(bytes, at, text),
        has_no_zero(text),
    ensures
        has_string(bytes, at),
        string_at(bytes, at) == text,
{
    written_string_is_found(bytes, at, encode_utf8(text));
    vstd::utf8::encode_utf8_valid_utf8(text);
    vstd::utf8::encode_utf8_decode_utf8(text);
}

/// Whether the text stands at `at`, and is read there if nothing in it can be taken for its end.
pub open spec fn text_is_found_at(bytes: Seq<u8>, at: int, text: Seq<char>) -> bool {
    &&& text_stands_at(bytes, at, text)
    &&& has_no_zero(text) ==> has_string(bytes, at) && string_at(bytes, at) == text
}

/// A text among strings at the end of a packet.
proof fn lemma_text_in_packet(bytes: Seq<u8>, before: Seq<u8>, strings: Seq<u8>, o: int, text: Seq<char>)
    requires
        bytes.len() >= HEADER_LENGTH,
        bytes.skip(HEADER_LENGTH as int) == before + strings,
        0 <= o,
        o + terminated_text(text).len() <= strings.len(),
        strings.subrange(o, o + terminated_text(text).len() as int) == terminated_text(text),
    ensures
        text_stands_at(bytes, HEADER_LENGTH + before.len() + o, text),
{
    let c = before + strings;
    let e = encode_utf8(text);
    let t = terminated_text(text);
    let at = HEADER_LENGTH + before.len() + o;
    let sub = strings.subrange(o, o + t.len() as int);
    assert(bytes.len() == HEADER_LENGTH + c.len());
    assert forall|i: int| 0 <= i < t.len() implies #[trigger] bytes[at + i] == t[i] by {
        assert(sub[i] == strings[o + i]);
        assert(c[before.len() + (o + i)] == strings[o + i]);
        assert(bytes.skip(HEADER_LENGTH as int)[before.len() + (o + i)] == bytes[at + i]);
    }
    assert(t.len() == e.len() + 1);
    assert forall|i: int| 0 <= i < e.len() implies bytes.subrange(at, at + e.len())[i] == e[i] by {
        assert(bytes[at + i] == t[i]);
    }
    assert(bytes.subrange(at, at + e.len()) =~= e);
    assert(bytes[at + e.len()] == t[e.len() as int]);
}

/// Sequences of entries and strings grow at their ends only.
proof fn lemma_grown(a: Seq<u8>, b: Seq<u8>, from: int, to: int)
    requires
        0 <= from <= to <= a.len(),
    ensures
        (a + b).subrange(from, to) == a.subrange(from, to),
        (a + b).subrange(a.len() as int, (a.len() + b.len()) as int) == b,
{
    assert((a + b).subrange(from, to) =~= a.subrange(from, to));
    assert((a + b).subrange(a.len() as int, (a.len() + b.len()) as int) =~= b);
}

/// A byte of an entry as it stands in the packet.
proof fn lemma_entry_in_packet(bytes: Seq<u8>, head: Seq<u8>, entries: Seq<u8>, rest: Seq<u8>, o: int, entry: Seq<u8>)
    requires
        bytes.len() >= HEADER_LENGTH,
        head.len() == 2,
        bytes.skip(HEADER_LENGTH as int) == head + entries + rest,
        0 <= o,
        o + entry.len() <= entries.len(),
        entries.subrange(o, o + entry.len() as int) == entry,
    ensures
        bytes[10] == head[0],
        bytes[11] == head[1],
        bytes.len() >= HEADER_LENGTH + 2 + o + entry.len(),
        forall|j: int| 0 <= j < entry.len() ==> #[trigger] bytes[HEADER_LENGTH + 2 + o + j] == entry[j],
{
    let c = head + entries + rest;
    assert(bytes.len() == HEADER_LENGTH + c.len());
    assert forall|j: int| 0 <= j < entry.len() implies #[trigger] bytes[HEADER_LENGTH + 2 + o + j] == entry[j] by {
        assert(entries.subrange(o, o + entry.len() as int)[j] == entries[o + j]);
        assert(c[2 + (o + j)] == entries[o + j]);
        assert(bytes.skip(HEADER_LENGTH as int)[2 + o + j] == bytes[HEADER_LENGTH + 2 + o + j]);
    }
    assert(bytes.skip(HEADER_LENGTH as int)[0] == bytes[10] && c[0] == head[0]);
    assert(bytes.skip(HEADER_LENGTH as int)[1] == bytes[11] && c[1] == head[1]);
}

/// A number in an entry as it stands in the packet.
proof fn lemma_number_in_packet(bytes: Seq<u8>, at: int, entry: Seq<u8>, j: int)
    requires
        forall|i: int| 0 <= i < entry.len() ==> #[trigger] bytes[at + i] == entry[i],
        0 <= j,
        j + 2 <= entry.len(),
    ensures
        be16_at(bytes, at + j) == be16_at(entry, j),
{
    assert(bytes[at + j] == entry[j] && bytes[at + (j + 1)] == entry[j + 1]);
}

/// How many channels are left from the identifier `start_id` on, no more than a response has room for.
pub open spec fn listed(channels: int, start_id: int) -> int {
    let left = channels - (start_id - 1);
    if left > 16 {
        16
    } else if left > 0 {
        left
    } else {
        0
    }
}

/// A response describes the channels from the one asked for on, at most sixteen, and says whether
/// there are more.
pub proof fn lists_are_cut_after_sixteen_channels(info: &DeviceInfo, have_receiver: bool, start_id: u16)
    requires
        start_id > 0,
    ensures
        start_id <= info.tx_channels@.len() + 1 ==> {
            let range = tx_range(info, start_id);
            &&& range.start == start_id - 1
            &&& range.count == listed(info.tx_channels@.len() as int, start_id as int)
            &&& code_of(range) == 0x8112 <==> start_id + 15 < info.tx_channels@.len()
            &&& code_of(range) == 1 <==> start_id + 15 >= info.tx_channels@.len()
        },
        ({
            let range = rx_range(info, have_receiver, start_id);
            let channels = if have_receiver { info.rx_channels@.len() as int } else { 0 };
            &&& range.start == start_id - 1
            &&& range.count == listed(channels, start_id as int)
            &&& code_of(range) == 0x8112 <==> start_id + 15 < channels
            &&& code_of(range) == 1 <==> start_id + 15 >= channels
        }),
{
}

// ---------------------------------------------------------------------------------------------
// Names which users gave to transmit channels
// ---------------------------------------------------------------------------------------------

proof fn lemma_friendly(channels: Seq<Channel>, range: ChannelRange, n: int, k: int)
    requires
        0 <= k < n,
    ensures
        ({
            let all = tx_friendly_entries(channels, range, n);
            let before = tx_friendly_entries(channels, range, k);
            let o = before.strings.len() as int;
            let text = terminated_text(channels[range.start + k].friendly_name@);
            &&& all.entries.len() == 6 * n
            &&& before.entries.len() == 6 * k
            &&& all.entries.subrange(6 * k, 6 * k + 6) == tx_friendly_entry(
                range.start + k,
                HEADER_LENGTH + 2 + range.count * 6 + 4 + o,
            )
            &&& o + text.len() <= all.strings.len()
            &&& all.strings.subrange(o, o + text.len() as int) == text
        }),
    decreases n,
{
    let before = tx_friendly_entries(channels, range, n - 1);
    let entry = tx_friendly_entry(range.start + n - 1, HEADER_LENGTH + 2 + range.count * 6 + 4 + before.strings.len());
    let last = terminated_text(channels[range.start + n - 1].friendly_name@);
    if n > 1 {
        lemma_friendly(channels, range, n - 1, if k < n - 1 { k } else { 0 });
    }
    if k < n - 1 {
        let o = tx_friendly_entries(channels, range, k).strings.len() as int;
        let text = terminated_text(channels[range.start + k].friendly_name@);
        lemma_grown(before.entries, entry, 6 * k, 6 * k + 6);
        lemma_grown(before.strings, last, o, o + text.len() as int);
    } else {
        lemma_grown(before.entries, entry, 0, 0);
        lemma_grown(before.strings, last, 0, 0);
    }
}

proof fn lemma_friendly_content(head: Seq<u8>, entries: Seq<u8>, strings: Seq<u8>)
    ensures
        head + entries + be32(0) + strings == head + entries + (be32(0) + strings),
{
    assert(head + entries + be32(0) + strings =~= head + entries + (be32(0) + strings));
}

proof fn lemma_friendly_entry(i: int, at: int)
    requires
        0 <= i,
        0 <= at <= 0xffff,
    ensures
        tx_friendly_entry(i, at).len() == 6,
        be16_at(tx_friendly_entry(i, at), 0) == (i + 1) % 0x1_0000,
        be16_at(tx_friendly_entry(i, at), 2) == (i + 1) % 0x1_0000,
        be16_at(tx_friendly_entry(i, at), 4) == at,
{
}

/// In the list of the names which users gave to transmit channels, asked for from the identifier `start_id`
/// on, the entry `k` is that of the channel `k` channels after the first one: it has the identifier of
/// that channel and leads to its name.
pub proof fn friendly_names_are_listed(info: &DeviceInfo, start_id: u16, bytes: Seq<u8>, k: int)
    requires
        0 < start_id,
        0 <= k < listed(info.tx_channels@.len() as int, start_id as int),
        HEADER_LENGTH <= bytes.len() <= 0xffff,
        bytes.skip(HEADER_LENGTH as int) == tx_friendly_names_content(info, tx_range(info, start_id)),
    ensures
        bytes[10] == listed(info.tx_channels@.len() as int, start_id as int),
        bytes[11] == listed(info.tx_channels@.len() as int, start_id as int),
        bytes.len() >= 12 + 6 * k + 6,
        be16_at(bytes, 12 + 6 * k) == (start_id + k) % 0x1_0000,
        be16_at(bytes, 12 + 6 * k + 2) == (start_id + k) % 0x1_0000,
        ({
            let name = info.tx_channels@[start_id - 1 + k].friendly_name@;
            text_is_found_at(bytes, be16_at(bytes, 12 + 6 * k + 4), name)
        }),
{
    let range = tx_range(info, start_id);
    let n = range.count as int;
    let all = tx_friendly_entries(info.tx_channels@, range, n);
    let before = tx_friendly_entries(info.tx_channels@, range, k);
    let name = info.tx_channels@[start_id - 1 + k].friendly_name@;
    lists_are_cut_after_sixteen_channels(info, true, start_id);
    lemma_friendly(info.tx_channels@, range, n, k);
    let head = seq![range.count as u8, range.count as u8];
    let o = before.strings.len() as int;
    let at = HEADER_LENGTH + 2 + n * 6 + 4 + o;
    let entry = tx_friendly_entry(start_id - 1 + k, at);
    let rest = be32(0) + all.strings;
    lemma_friendly_content(head, all.entries, all.strings);
    lemma_entry_in_packet(bytes, head, all.entries, rest, 6 * k, entry);
    lemma_text_in_packet(bytes, head + all.entries + be32(0), all.strings, o, name);
    lemma_friendly_entry(start_id - 1 + k, at);
    let e = HEADER_LENGTH + 2 + 6 * k;
    lemma_number_in_packet(bytes, e, entry, 0);
    lemma_number_in_packet(bytes, e, entry, 2);
    lemma_number_in_packet(bytes, e, entry, 4);
    assert((head + all.entries + be32(0)).len() == 2 + 6 * n + 4);
    if has_no_zero(name) {
        text_is_read_where_it_stands(bytes, at, name);
    }
}

// ---------------------------------------------------------------------------------------------
// Default names of transmit channels
// ---------------------------------------------------------------------------------------------

/// Whether the description at `at` is that of the samples of the device.
pub open spec fn is_description_at(bytes: Seq<u8>, at: int, info: &DeviceInfo) -> bool {
    &&& 0 <= at
    &&& at + 16 <= bytes.len()
    &&& be32_at(bytes, at) == info.sample_rate
    // bits per sample
    &&& be16_at(bytes, at + 6) == 24
    &&& be16_at(bytes, at + 10) == 24
    &&& be16_at(bytes, at + 12) == 24
    &&& be16_at(bytes, at + 14) == info.pcm_type
}

proof fn lemma_description(bytes: Seq<u8>, head: Seq<u8>, entries: Seq<u8>, strings: Seq<u8>, info: &DeviceInfo)
    requires
        bytes.len() >= HEADER_LENGTH,
        head.len() == 2,
        bytes.skip(HEADER_LENGTH as int) == head + entries + common_description(info) + strings,
    ensures
        is_description_at(bytes, HEADER_LENGTH + 2 + entries.len(), info),
        head + entries + common_description(info) + strings == head + entries + (common_description(info) + strings),
        common_description(info).len() == 16,
{
    let d = common_description(info);
    let c = head + entries + d + strings;
    let at = HEADER_LENGTH + 2 + entries.len();
    assert(c =~= head + entries + (d + strings));
    assert(d.len() == 16);
    assert(bytes.len() == HEADER_LENGTH + c.len());
    assert forall|j: int| 0 <= j < 16 implies #[trigger] bytes[at + j] == d[j] by {
        assert(c[2 + entries.len() + j] == d[j]);
        assert(bytes.skip(HEADER_LENGTH as int)[2 + entries.len() + j] == bytes[at + j]);
    }
    let rate = be32(info.sample_rate);
    bytes_make_the_long_number(info.sample_rate);
    assert(bytes[at + 0] == rate[0] && bytes[at + 1] == rate[1] && bytes[at + 2] == rate[2] && bytes[at + 3]
        == rate[3]);
    lemma_number_in_packet(bytes, at, d, 6);
    lemma_number_in_packet(bytes, at, d, 10);
    lemma_number_in_packet(bytes, at, d, 12);
    lemma_number_in_packet(bytes, at, d, 14);
}

proof fn lemma_default(channels: Seq<Channel>, range: ChannelRange, n: int, k: int)
    requires
        0 <= k < n,
    ensures
        ({
            let all = tx_default_entries(channels, range, n);
            let before = tx_default_entries(channels, range, k);
            let o = before.strings.len() as int;
            let d = HEADER_LENGTH + 2 + range.count * 8;
            let text = terminated_text(channels[range.start + k].factory_name@);
            &&& all.entries.len() == 8 * n
            &&& before.entries.len() == 8 * k
            &&& all.entries.subrange(8 * k, 8 * k + 8) == tx_default_entry(range.start + k, d, d + 16 + o)
            &&& o + text.len() <= all.strings.len()
            &&& all.strings.subrange(o, o + text.len() as int) == text
        }),
    decreases n,
{
    let before = tx_default_entries(channels, range, n - 1);
    let d = HEADER_LENGTH + 2 + range.count * 8;
    let entry = tx_default_entry(range.start + n - 1, d, d + 16 + before.strings.len());
    let last = terminated_text(channels[range.start + n - 1].factory_name@);
    if n > 1 {
        lemma_default(channels, range, n - 1, if k < n - 1 { k } else { 0 });
    }
    if k < n - 1 {
        let o = tx_default_entries(channels, range, k).strings.len() as int;
        let text = terminated_text(channels[range.start + k].factory_name@);
        lemma_grown(before.entries, entry, 8 * k, 8 * k + 8);
        lemma_grown(before.strings, last, o, o + text.len() as int);
    } else {
        lemma_grown(before.entries, entry, 0, 0);
        lemma_grown(before.strings, last, 0, 0);
    }
}

proof fn lemma_default_entry(i: int, d: int, at: int)
    requires
        0 <= i,
        0 <= d <= 0xffff,
        0 <= at <= 0xffff,
    ensures
        tx_default_entry(i, d, at).len() == 8,
        be16_at(tx_default_entry(i, d, at), 0) == (i + 1) % 0x1_0000,
        be16_at(tx_default_entry(i, d, at), 4) == d,
        be16_at(tx_default_entry(i, d, at), 6) == at,
{
}

/// In the list of default names of transmit channels, asked for from the identifier `start_id` on, the
/// entry `k` is that of the channel `k` channels after the first one: it has the identifier of that
/// channel and leads to its default name and to the description of samples.
pub proof fn default_names_are_listed(info: &DeviceInfo, start_id: u16, bytes: Seq<u8>, k: int)
    requires
        0 < start_id,
        0 <= k < listed(info.tx_channels@.len() as int, start_id as int),
        HEADER_LENGTH <= bytes.len() <= 0xffff,
        bytes.skip(HEADER_LENGTH as int) == tx_default_names_content(info, tx_range(info, start_id)),
    ensures
        bytes[10] == listed(info.tx_channels@.len() as int, start_id as int),
        bytes[11] == listed(info.tx_channels@.len() as int, start_id as int),
        bytes.len() >= 12 + 8 * k + 8,
        be16_at(bytes, 12 + 8 * k) == (start_id + k) % 0x1_0000,
        is_description_at(bytes, be16_at(bytes, 12 + 8 * k + 4), info),
        ({
            let name = info.tx_channels@[start_id - 1 + k].factory_name@;
            text_is_found_at(bytes, be16_at(bytes, 12 + 8 * k + 6), name)
        }),
{
    let range = tx_range(info, start_id);
    let n = range.count as int;
    let all = tx_default_entries(info.tx_channels@, range, n);
    let before = tx_default_entries(info.tx_channels@, range, k);
    let name = info.tx_channels@[start_id - 1 + k].factory_name@;
    lists_are_cut_after_sixteen_channels(info, true, start_id);
    lemma_default(info.tx_channels@, range, n, k);
    let head = seq![range.count as u8, range.count as u8];
    let o = before.strings.len() as int;
    let d = HEADER_LENGTH + 2 + n * 8;
    let at = d + 16 + o;
    let entry = tx_default_entry(start_id - 1 + k, d, at);
    let description = common_description(info);
    lemma_description(bytes, head, all.entries, all.strings, info);
    lemma_entry_in_packet(bytes, head, all.entries, description + all.strings, 8 * k, entry);
    lemma_text_in_packet(bytes, head + all.entries + description, all.strings, o, name);
    assert((head + all.entries + description).len() == 2 + 8 * n + 16);
    lemma_default_entry(start_id - 1 + k, d, at);
    let e = HEADER_LENGTH + 2 + 8 * k;
    lemma_number_in_packet(bytes, e, entry, 0);
    lemma_number_in_packet(bytes, e, entry, 4);
    lemma_number_in_packet(bytes, e, entry, 6);
    if has_no_zero(name) {
        text_is_read_where_it_stands(bytes, at, name);
    }
}

// ---------------------------------------------------------------------------------------------
// Receive channels
// ---------------------------------------------------------------------------------------------

proof fn lemma_rx(channels: Seq<Channel>, statuses: Seq<Option<SubscriptionInfo>>, range: ChannelRange, n: int, k: int)
    requires
        0 <= k < n,
    ensures
        ({
            let all = rx_entries(channels, statuses, range, n);
            let before = rx_entries(channels, statuses, range, k);
            let o = before.strings.len() as int;
            let d = HEADER_LENGTH + 2 + range.count * 20;
            let i = range.start + k;
            let texts = rx_strings(channels[i], statuses[i]);
            &&& all.entries.len() == 20 * n
            &&& before.entries.len() == 20 * k
            &&& all.entries.subrange(20 * k, 20 * k + 20) == rx_entry(i, d, d + 16 + o, statuses[i])
            &&& o + texts.len() <= all.strings.len()
            &&& all.strings.subrange(o, o + texts.len() as int) == texts
        }),
    decreases n,
{
    let before = rx_entries(channels, statuses, range, n - 1);
    let d = HEADER_LENGTH + 2 + range.count * 20;
    let i = range.start + n - 1;
    let entry = rx_entry(i, d, d + 16 + before.strings.len(), statuses[i]);
    let last = rx_strings(channels[i], statuses[i]);
    assert(entry.len() == 20);
    if n > 1 {
        lemma_rx(channels, statuses, range, n - 1, if k < n - 1 { k } else { 0 });
    }
    if k < n - 1 {
        let o = rx_entries(channels, statuses, range, k).strings.len() as int;
        let texts = rx_strings(channels[range.start + k], statuses[range.start + k]);
        lemma_grown(before.entries, entry, 20 * k, 20 * k + 20);
        lemma_grown(before.strings, last, o, o + texts.len() as int);
    } else {
        lemma_grown(before.entries, entry, 0, 0);
        lemma_grown(before.strings, last, 0, 0);
    }
}

/// Where the strings of a receive channel begin: names of the source, if there is one, and of the channel.
spec fn rx_text_offsets(status: Option<SubscriptionInfo>) -> (int, int, int) {
    match status {
        None => (0, 0, 0),
        Some(status) => (
            0,
            encode_utf8(status.tx_channel_name@).len() + 1int,
            encode_utf8(status.tx_channel_name@).len() + 1int + encode_utf8(status.tx_hostname@).len() + 1int,
        ),
    }
}

/// Six short numbers and two long ones, one after another, are read where they stand.
proof fn lemma_numbers_in_turn(n0: u16, n1: u16, n2: u16, n3: u16, n4: u16, n5: u16, m0: u32, m1: u32)
    ensures
        ({
            let entry = be16(n0) + be16(n1) + be16(n2) + be16(n3) + be16(n4) + be16(n5) + be32(m0) + be32(m1);
            &&& entry.len() == 20
            &&& be16_at(entry, 0) == n0
            &&& be16_at(entry, 4) == n2
            &&& be16_at(entry, 6) == n3
            &&& be16_at(entry, 8) == n4
            &&& be16_at(entry, 10) == n5
            &&& be32_at(entry, 12) == m0
        }),
{
    let short = be16(n0) + be16(n1) + be16(n2) + be16(n3) + be16(n4) + be16(n5);
    assert(short.len() == 12);
    assert(be16_at(short, 0) == n0 && be16_at(short, 4) == n2 && be16_at(short, 6) == n3);
    assert(be16_at(short, 8) == n4 && be16_at(short, 10) == n5);
    let long = be32(m0);
    bytes_make_the_long_number(m0);
    let entry = short + long + be32(m1);
    assert(forall|j: int| 0 <= j < 12 ==> #[trigger] entry[j] == short[j]);
    assert(entry[12] == long[0] && entry[13] == long[1] && entry[14] == long[2] && entry[15] == long[3]);
}

#[verifier::spinoff_prover]
#[verifier::rlimit(60)]
proof fn lemma_rx_entry(i: int, d: int, at: int, status: Option<SubscriptionInfo>)
    requires
        0 <= i,
        0 <= d <= 0xffff,
        0 <= at,
        at + rx_text_offsets(status).2 <= 0xffff,
    ensures
        ({
            let entry = rx_entry(i, d, at, status);
            &&& entry.len() == 20
            &&& be16_at(entry, 0) == (i + 1) % 0x1_0000
            &&& be16_at(entry, 4) == d
            &&& status is None ==> be16_at(entry, 6) == 0 && be16_at(entry, 8) == 0 && be32_at(entry, 12) == 0
            &&& status is Some ==> {
                &&& be16_at(entry, 6) == at
                &&& be16_at(entry, 8) == at + rx_text_offsets(status).1
                &&& be32_at(entry, 12) == status->0.status.spec_code()
            }
            &&& be16_at(entry, 10) == at + rx_text_offsets(status).2
        }),
{
    let code: u32 = match status {
        None => 0,
        Some(status) => status.status.spec_code(),
    };
    let source: u16 = if status is Some { low16(at) } else { 0 };
    let host: u16 = if status is Some { low16(at + rx_text_offsets(status).1) } else { 0 };
    let name: u16 = low16(at + rx_text_offsets(status).2);
    assert(rx_entry(i, d, at, status) == be16(low16(i + 1)) + be16(6) + be16(low16(d)) + be16(source) + be16(host)
        + be16(name) + be32(code) + be32(0));
    lemma_numbers_in_turn(low16(i + 1), 6, low16(d), source, host, name, code, 0);
}

proof fn lemma_rx_texts(ch: Channel, status: Option<SubscriptionInfo>)
    ensures
        ({
            let texts = rx_strings(ch, status);
            let o = rx_text_offsets(status);
            let name = terminated_text(ch.friendly_name@);
            &&& o.2 + name.len() == texts.len()
            &&& texts.subrange(o.2, o.2 + name.len() as int) == name
            &&& status is Some ==> {
                let source = terminated_text(status->0.tx_channel_name@);
                let host = terminated_text(status->0.tx_hostname@);
                &&& source.len() <= texts.len()
                &&& o.1 + host.len() <= texts.len()
                &&& texts.subrange(0, source.len() as int) == source
                &&& texts.subrange(o.1, o.1 + host.len() as int) == host
            }
        }),
{
    let texts = rx_strings(ch, status);
    let o = rx_text_offsets(status);
    let name = terminated_text(ch.friendly_name@);
    if status is Some {
        let source = terminated_text(status->0.tx_channel_name@);
        let host = terminated_text(status->0.tx_hostname@);
        assert(texts == source + host + name);
        assert(texts.subrange(0, source.len() as int) =~= source);
        assert(texts.subrange(o.1, o.1 + host.len() as int) =~= host);
    }
    assert(texts.subrange(o.2, o.2 + name.len() as int) =~= name);
}

proof fn lemma_sub_text(strings: Seq<u8>, o: int, texts: Seq<u8>, from: int, text: Seq<u8>)
    requires
        0 <= o,
        0 <= from,
        o + texts.len() <= strings.len(),
        strings.subrange(o, o + texts.len() as int) == texts,
        from + text.len() <= texts.len(),
        texts.subrange(from, from + text.len() as int) == text,
    ensures
        strings.subrange(o + from, o + from + text.len() as int) == text,
{
    assert(strings.subrange(o + from, o + from + text.len() as int) =~= texts.subrange(
        from,
        from + text.len() as int,
    ));
}

proof fn lemma_rx_numbers(bytes: Seq<u8>, e: int, i: int, d: int, at: int, status: Option<SubscriptionInfo>)
    requires
        0 <= i,
        0 <= d <= 0xffff,
        0 <= at,
        at + rx_text_offsets(status).2 <= 0xffff,
        forall|j: int| 0 <= j < rx_entry(i, d, at, status).len() ==> #[trigger] bytes[e + j] == rx_entry(
            i,
            d,
            at,
            status,
        )[j],
    ensures
        be16_at(bytes, e) == (i + 1) % 0x1_0000,
        be16_at(bytes, e + 4) == d,
        status is None ==> be16_at(bytes, e + 6) == 0 && be16_at(bytes, e + 8) == 0 && be32_at(bytes, e + 12) == 0,
        status is Some ==> {
            &&& be16_at(bytes, e + 6) == at
            &&& be16_at(bytes, e + 8) == at + rx_text_offsets(status).1
            &&& be32_at(bytes, e + 12) == status->0.status.spec_code()
        },
        be16_at(bytes, e + 10) == at + rx_text_offsets(status).2,
{
    let entry = rx_entry(i, d, at, status);
    lemma_rx_entry(i, d, at, status);
    lemma_number_in_packet(bytes, e, entry, 0);
    lemma_number_in_packet(bytes, e, entry, 4);
    lemma_number_in_packet(bytes, e, entry, 6);
    lemma_number_in_packet(bytes, e, entry, 8);
    lemma_number_in_packet(bytes, e, entry, 10);
    assert(bytes[e + 12] == entry[12] && bytes[e + 13] == entry[13] && bytes[e + 14] == entry[14] && bytes[e + 15]
        == entry[15]);
}

proof fn lemma_rx_texts_in_packet(
    bytes: Seq<u8>,
    front: Seq<u8>,
    strings: Seq<u8>,
    o: int,
    ch: Channel,
    status: Option<SubscriptionInfo>,
)
    requires
        bytes.len() >= HEADER_LENGTH,
        bytes.skip(HEADER_LENGTH as int) == front + strings,
        0 <= o,
        o + rx_strings(ch, status).len() <= strings.len(),
        strings.subrange(o, o + rx_strings(ch, status).len() as int) == rx_strings(ch, status),
    ensures
        ({
            let at = HEADER_LENGTH + front.len() + o;
            &&& text_is_found_at(bytes, at + rx_text_offsets(status).2, ch.friendly_name@)
            &&& status is Some ==> text_is_found_at(bytes, at, status->0.tx_channel_name@)
            &&& status is Some ==> text_is_found_at(
                bytes,
                at + rx_text_offsets(status).1,
                status->0.tx_hostname@,
            )
        }),
{
    let at = HEADER_LENGTH + front.len() + o;
    let name = ch.friendly_name@;
    let texts = rx_strings(ch, status);
    let offsets = rx_text_offsets(status);
    lemma_rx_texts(ch, status);
    lemma_sub_text(strings, o, texts, offsets.2, terminated_text(name));
    lemma_text_in_packet(bytes, front, strings, o + offsets.2, name);
    if has_no_zero(name) {
        text_is_read_where_it_stands(bytes, at + offsets.2, name);
    }
    if status is Some {
        let source = status->0.tx_channel_name@;
        let host = status->0.tx_hostname@;
        lemma_sub_text(strings, o, texts, 0, terminated_text(source));
        lemma_text_in_packet(bytes, front, strings, o, source);
        lemma_sub_text(strings, o, texts, offsets.1, terminated_text(host));
        lemma_text_in_packet(bytes, front, strings, o + offsets.1, host);
        if has_no_zero(source) {
            text_is_read_where_it_stands(bytes, at, source);
        }
        if has_no_zero(host) {
            text_is_read_where_it_stands(bytes, at + offsets.1, host);
        }
    }
}

/// In the list of receive channels, asked for from the identifier `start_id` on, the entry `k` is that of
/// the channel `k` channels after the first one: it has the identifier of that channel and leads to its
/// name, to the description of samples, and to the names of what the channel is subscribed to, if it is,
/// along with the state of that subscription.
pub proof fn receive_channels_are_listed(
    info: &DeviceInfo,
    statuses: Seq<Option<SubscriptionInfo>>,
    start_id: u16,
    bytes: Seq<u8>,
    k: int,
)
    requires
        0 < start_id,
        0 <= k < listed(info.rx_channels@.len() as int, start_id as int),
        HEADER_LENGTH <= bytes.len() <= 0xffff,
        bytes.skip(HEADER_LENGTH as int) == rx_channels_content(info, statuses, rx_range(info, true, start_id)),
    ensures
        bytes[10] == listed(info.rx_channels@.len() as int, start_id as int),
        bytes[11] == listed(info.rx_channels@.len() as int, start_id as int),
        bytes.len() >= 12 + 20 * k + 20,
        be16_at(bytes, 12 + 20 * k) == (start_id + k) % 0x1_0000,
        is_description_at(bytes, be16_at(bytes, 12 + 20 * k + 4), info),
        ({
            let name = info.rx_channels@[start_id - 1 + k].friendly_name@;
            text_is_found_at(bytes, be16_at(bytes, 12 + 20 * k + 10), name)
        }),
        statuses[start_id - 1 + k] matches Some(status) ==> {
            &&& text_is_found_at(bytes, be16_at(bytes, 12 + 20 * k + 6), status.tx_channel_name@)
            &&& text_is_found_at(bytes, be16_at(bytes, 12 + 20 * k + 8), status.tx_hostname@)
            &&& be32_at(bytes, 12 + 20 * k + 12) == status.status.spec_code()
        },
        statuses[start_id - 1 + k] is None ==> be16_at(bytes, 12 + 20 * k + 6) == 0 && be16_at(
            bytes,
            12 + 20 * k + 8,
        ) == 0 && be32_at(bytes, 12 + 20 * k + 12) == 0,
{
    let range = rx_range(info, true, start_id);
    let n = range.count as int;
    let i = start_id - 1 + k;
    let all = rx_entries(info.rx_channels@, statuses, range, n);
    let before = rx_entries(info.rx_channels@, statuses, range, k);
    let ch = info.rx_channels@[i];
    let status = statuses[i];
    lists_are_cut_after_sixteen_channels(info, true, start_id);
    lemma_rx(info.rx_channels@, statuses, range, n, k);
    let head = seq![range.count as u8, range.count as u8];
    let o = before.strings.len() as int;
    let d = HEADER_LENGTH + 2 + n * 20;
    let at = d + 16 + o;
    let entry = rx_entry(i, d, at, status);
    let description = common_description(info);
    let front = head + all.entries + description;
    lemma_description(bytes, head, all.entries, all.strings, info);
    assert(front.len() == 2 + 20 * n + 16);
    lemma_rx_texts_in_packet(bytes, front, all.strings, o, ch, status);
    assert(entry.len() == 20);
    lemma_entry_in_packet(bytes, head, all.entries, description + all.strings, 20 * k, entry);
    lemma_rx_numbers(bytes, HEADER_LENGTH + 2 + 20 * k, i, d, at, status);
}

// ---------------------------------------------------------------------------------------------
// The device
// ---------------------------------------------------------------------------------------------

/// The features tell how many channels there are: first transmitters, then receivers.
pub proof fn features_count_channels(info: &DeviceInfo)
    requires
        info.tx_channels@.len() <= 0xffff,
        info.rx_channels@.len() <= 0xffff,
    ensures
        be16_at(features_content(info), 2) == info.tx_channels@.len(),
        be16_at(features_content(info), 4) == info.rx_channels@.len(),
{
    let c = features_content(info);
    let tx = be16(crate::protocol::flows_control::low16(info.tx_channels@.len() as int));
    let rx = be16(crate::protocol::flows_control::low16(info.rx_channels@.len() as int));
    assert(c[2] == tx[0] && c[3] == tx[1] && c[4] == rx[0] && c[5] == rx[1]);
}

/// The name of the device is sent in full, with a zero at its end.
pub proof fn device_name_is_told(info: &DeviceInfo)
    ensures
        text_stands_at(device_name_content(info), 0, info.friendly_hostname@),
        device_name_content(info).len() == encode_utf8(info.friendly_hostname@).len() + 1,
{
    let c = device_name_content(info);
    let e = encode_utf8(info.friendly_hostname@);
    assert(c.subrange(0, e.len() as int) =~= e);
}

/// Whether the beginning of the text stands at `at` in the packet, no more than `max_len` bytes of it,
/// followed by a zero.
pub open spec fn text_begins_at(bytes: Seq<u8>, at: int, text: Seq<char>, max_len: int) -> bool {
    let e = encode_utf8(text);
    let n = if e.len() < max_len { e.len() as int } else { max_len };
    &&& at + n < bytes.len()
    &&& bytes.subrange(at, at + n) == e.subrange(0, n)
    &&& bytes[at + n] == 0
}

/// The packet with the names of the device and of its board tells where each name stands, and the
/// beginning of that name stands there.
pub proof fn device_names_are_told(info: &DeviceInfo, bytes: Seq<u8>)
    requires
        bytes.len() >= HEADER_LENGTH,
        bytes.skip(HEADER_LENGTH as int) == device_names_content(info),
    ensures
        text_begins_at(bytes, be16_at(bytes, 22), info.friendly_hostname@, 31),
        text_begins_at(bytes, be16_at(bytes, 26), info.friendly_hostname@, 31),
        text_begins_at(bytes, be16_at(bytes, 24), info.factory_hostname@, 31),
        text_begins_at(bytes, be16_at(bytes, 16), info.board_name@, 23),
{
    let c = device_names_content(info);
    let t = names_template();
    assert(t.len() == 131);
    assert(c.len() == 131);
    assert(bytes.len() == HEADER_LENGTH + c.len());
    assert forall|j: int| 0 <= j < 131 implies #[trigger] bytes[HEADER_LENGTH + j] == c[j] by {
        assert(bytes.skip(HEADER_LENGTH as int)[j] == bytes[HEADER_LENGTH + j]);
    }
    assert(names_head().len() == 38);
    lemma_number_in_packet(bytes, HEADER_LENGTH as int, c, 6);
    lemma_number_in_packet(bytes, HEADER_LENGTH as int, c, 12);
    lemma_number_in_packet(bytes, HEADER_LENGTH as int, c, 14);
    lemma_number_in_packet(bytes, HEADER_LENGTH as int, c, 16);
    assert(be16_at(c, 6) == 0x70 && be16_at(c, 12) == 0x30 && be16_at(c, 14) == 0x50 && be16_at(c, 16) == 0x30);
    let friendly = shortened(info.friendly_hostname@, 31);
    let factory = shortened(info.factory_hostname@, 31);
    let board = shortened(info.board_name@, 23);
    assert(forall|j: int| 38 <= j < 126 ==> t[j] == 0);
    assert forall|j: int| 0 <= j < friendly.len() implies bytes.subrange(0x30, 0x30 + friendly.len() as int)[j]
        == friendly[j] by {
        assert(bytes[HEADER_LENGTH + (0x26 + j)] == c[0x26 + j]);
    }
    assert(bytes.subrange(0x30, 0x30 + friendly.len() as int) =~= friendly);
    assert(bytes[HEADER_LENGTH + (0x26 + friendly.len() as int)] == c[0x26 + friendly.len() as int]);
    assert forall|j: int| 0 <= j < factory.len() implies bytes.subrange(0x50, 0x50 + factory.len() as int)[j]
        == factory[j] by {
        assert(bytes[HEADER_LENGTH + (0x46 + j)] == c[0x46 + j]);
    }
    assert(bytes.subrange(0x50, 0x50 + factory.len() as int) =~= factory);
    assert(bytes[HEADER_LENGTH + (0x46 + factory.len() as int)] == c[0x46 + factory.len() as int]);
    assert forall|j: int| 0 <= j < board.len() implies bytes.subrange(0x70, 0x70 + board.len() as int)[j]
        == board[j] by {
        assert(bytes[HEADER_LENGTH + (0x66 + j)] == c[0x66 + j]);
    }
    assert(bytes.subrange(0x70, 0x70 + board.len() as int) =~= board);
    assert(bytes[HEADER_LENGTH + (0x66 + board.len() as int)] == c[0x66 + board.len() as int]);
}

// ---------------------------------------------------------------------------------------------
// Requests
// ---------------------------------------------------------------------------------------------

/// A controller which asks for transmit channels by the names which users gave to them (0x2010), or by
/// their default names (0x2000), from the identifier in the request on, gets just these.
pub proof fn requests_for_transmit_channels_are_answered(
    action: ArcAction,
    info: &DeviceInfo,
    statuses: Option<Seq<Option<SubscriptionInfo>>>,
    opcode1: u16,
    c: Seq<u8>,
    bytes: Seq<u8>,
    k: int,
)
    requires
        opcode1 == 0x2000 || opcode1 == 0x2010,
        c.len() >= 4,
        0 < be16_at(c, 2) <= info.tx_channels@.len() + 1,
        is_action_for(action, info, statuses, opcode1, 0, c),
        action is Respond,
        HEADER_LENGTH <= bytes.len() <= 0xffff,
        bytes.skip(HEADER_LENGTH as int) == action->Respond_0.content@,
        0 <= k < listed(info.tx_channels@.len() as int, be16_at(c, 2)),
    ensures
        action->Respond_0.code == if be16_at(c, 2) + 15 < info.tx_channels@.len() { 0x8112u16 } else { 1u16 },
        bytes[10] == listed(info.tx_channels@.len() as int, be16_at(c, 2)),
        opcode1 == 0x2010 ==> {
            &&& be16_at(bytes, 12 + 6 * k) == (be16_at(c, 2) + k) % 0x1_0000
            &&& text_is_found_at(
                bytes,
                be16_at(bytes, 12 + 6 * k + 4),
                info.tx_channels@[be16_at(c, 2) - 1 + k].friendly_name@,
            )
        },
        opcode1 == 0x2000 ==> {
            &&& be16_at(bytes, 12 + 8 * k) == (be16_at(c, 2) + k) % 0x1_0000
            &&& text_is_found_at(
                bytes,
                be16_at(bytes, 12 + 8 * k + 6),
                info.tx_channels@[be16_at(c, 2) - 1 + k].factory_name@,
            )
        },
{
    let start_id = be16_at(c, 2) as u16;
    lists_are_cut_after_sixteen_channels(info, true, start_id);
    if opcode1 == 0x2010 {
        friendly_names_are_listed(info, start_id, bytes, k);
    } else {
        default_names_are_listed(info, start_id, bytes, k);
    }
}

/// A controller which asks for receive channels (0x3000) from the identifier in the request on gets them
/// with their names and with what they are subscribed to.
pub proof fn requests_for_receive_channels_are_answered(
    action: ArcAction,
    info: &DeviceInfo,
    statuses: Seq<Option<SubscriptionInfo>>,
    c: Seq<u8>,
    bytes: Seq<u8>,
    k: int,
)
    requires
        c.len() >= 4,
        0 < be16_at(c, 2),
        is_action_for(action, info, Some(statuses), 0x3000, 0, c),
        action is Respond,
        HEADER_LENGTH <= bytes.len() <= 0xffff,
        bytes.skip(HEADER_LENGTH as int) == action->Respond_0.content@,
        0 <= k < listed(info.rx_channels@.len() as int, be16_at(c, 2)),
    ensures
        action->Respond_0.code == if be16_at(c, 2) + 15 < info.rx_channels@.len() { 0x8112u16 } else { 1u16 },
        bytes[10] == listed(info.rx_channels@.len() as int, be16_at(c, 2)),
        be16_at(bytes, 12 + 20 * k) == (be16_at(c, 2) + k) % 0x1_0000,
        text_is_found_at(
            bytes,
            be16_at(bytes, 12 + 20 * k + 10),
            info.rx_channels@[be16_at(c, 2) - 1 + k].friendly_name@,
        ),
        statuses[be16_at(c, 2) - 1 + k] matches Some(status) ==> {
            &&& text_is_found_at(bytes, be16_at(bytes, 12 + 20 * k + 6), status.tx_channel_name@)
            &&& text_is_found_at(bytes, be16_at(bytes, 12 + 20 * k + 8), status.tx_hostname@)
        },
{
    let start_id = be16_at(c, 2) as u16;
    lists_are_cut_after_sixteen_channels(info, true, start_id);
    receive_channels_are_listed(info, statuses, start_id, bytes, k);
}

/// Whether the entry `i` of a request names a source, at places in the packet where texts can be read.
pub open spec fn names_a_source(c: Seq<u8>, i: int) -> bool {
    let channel_at = be16_at(c, 2 + i * 6 + 2) - 10;
    let host_at = be16_at(c, 2 + i * 6 + 4) - 10;
    channel_at >= 0 && host_at >= 0 && has_string(c, channel_at) && has_string(c, host_at)
}

/// Whether the entry `i` of a request names no source.
pub open spec fn names_nothing(c: Seq<u8>, i: int) -> bool {
    be16_at(c, 2 + i * 6 + 2) == 0 || be16_at(c, 2 + i * 6 + 4) == 0
}

/// Whether the command is what the entry `i` of the request says: the channel with that identifier is
/// subscribed to the channel and the transmitter whose names are given, or unsubscribed where none are.
pub open spec fn says_what_is_asked(command: Command, c: Seq<u8>, i: int) -> bool {
    match command {
        Command::Subscribe { local_channel_index, tx_channel_name, tx_hostname } => {
            &&& local_channel_index + 1 == be16_at(c, 2 + i * 6)
            &&& names_a_source(c, i)
            &&& tx_channel_name@ == string_at(c, be16_at(c, 2 + i * 6 + 2) - 10)
            &&& tx_hostname@ == string_at(c, be16_at(c, 2 + i * 6 + 4) - 10)
        },
        Command::Unsubscribe { local_channel_index } => {
            &&& local_channel_index + 1 == be16_at(c, 2 + i * 6)
            &&& names_nothing(c, i)
        },
        _ => false,
    }
}

/// Whether one of the first `n` entries of the request asks for the command.
pub open spec fn is_asked_for(command: Command, c: Seq<u8>, n: int) -> bool {
    exists|i: int| 0 <= i < n && #[trigger] says_what_is_asked(command, c, i)
}

/// Whether one of the commands does what the entry `i` of the request says.
pub open spec fn is_done_about(commands: Seq<Command>, c: Seq<u8>, i: int) -> bool {
    exists|m: int| 0 <= m < commands.len() && says_what_is_asked(#[trigger] commands[m], c, i)
}

/// A request for subscriptions is understood: every command is what an entry says, and every entry which
/// names a source, or none, has its command.
pub proof fn subscription_request_is_understood(commands: Seq<Command>, c: Seq<u8>, n: int)
    requires
        0 <= n,
        forall|i: int| 0 <= i < n ==> be16_at(c, 2 + #[trigger] (i * 6)) > 0,
        are_commands_of(commands, c, n),
    ensures
        commands.len() <= n,
        forall|m: int| 0 <= m < commands.len() ==> is_asked_for(#[trigger] commands[m], c, n),
        forall|i: int|
            0 <= i < n && (names_a_source(c, i) || names_nothing(c, i)) ==> #[trigger] is_done_about(commands, c, i),
    decreases n,
{
    if n > 0 {
        let last = n - 1;
        assert(be16_at(c, 2 + last * 6) > 0);
        if is_command_of(None, c, last) && are_commands_of(commands, c, last) {
            subscription_request_is_understood(commands, c, last);
            assert(!names_a_source(c, last) && !names_nothing(c, last));
            assert forall|m: int| 0 <= m < commands.len() implies is_asked_for(#[trigger] commands[m], c, n) by {
                assert(is_asked_for(commands[m], c, last));
            }
        } else {
            let before = commands.drop_last();
            let p = commands.len() - 1;
            subscription_request_is_understood(before, c, last);
            assert(commands[p] == commands.last());
            assert(says_what_is_asked(commands[p], c, last));
            assert forall|m: int| 0 <= m < commands.len() implies is_asked_for(#[trigger] commands[m], c, n) by {
                if m < p {
                    assert(before[m] == commands[m]);
                    assert(is_asked_for(before[m], c, last));
                }
            }
            assert forall|i: int| 0 <= i < n && (names_a_source(c, i) || names_nothing(c, i)) implies
                #[trigger] is_done_about(commands, c, i) by {
                if i < last {
                    assert(is_done_about(before, c, i));
                    let m = choose|m: int| 0 <= m < before.len() && says_what_is_asked(#[trigger] before[m], c, i);
                    assert(before[m] == commands[m]);
                }
            }
        }
    }
}

/// A request for subscriptions can be read only if all its entries are there, each with the identifier of a
/// channel; one which only ends subscriptions needs nothing else.
pub proof fn readable_requests_are_complete(c: Seq<u8>)
    ensures
        is_readable_subscription(c) ==> c.len() >= 2 && c.len() >= 2 + 6 * c[1],
        is_readable_subscription(c) ==> forall|i: int| 0 <= i < c[1] ==> be16_at(c, 2 + #[trigger] (i * 6)) > 0,
        c.len() >= 2 && c.len() >= 2 + 6 * c[1] && (forall|i: int|
            0 <= i < c[1] ==> be16_at(c, 2 + #[trigger] (i * 6)) > 0 && (be16_at(c, 4 + i * 6) == 0 || be16_at(
                c,
                6 + i * 6,
            ) == 0)) ==> is_readable_subscription(c),
{
    if is_readable_subscription(c) {
        if c[1] > 0 {
            assert(is_readable_entry(c, c[1] - 1));
        }
        assert forall|i: int| 0 <= i < c[1] implies be16_at(c, 2 + #[trigger] (i * 6)) > 0 by {
            assert(is_readable_entry(c, i));
        }
    }
    if c.len() >= 2 && c.len() >= 2 + 6 * c[1] && (forall|i: int|
        0 <= i < c[1] ==> be16_at(c, 2 + #[trigger] (i * 6)) > 0 && (be16_at(c, 4 + i * 6) == 0 || be16_at(c, 6 + i * 6)
            == 0)) {
        assert forall|i: int| 0 <= i < c[1] implies #[trigger] is_readable_entry(c, i) by {
            assert(be16_at(c, 2 + i * 6) > 0);
            assert(2 + i * 6 + 2 == 4 + i * 6 && 2 + i * 6 + 4 == 6 + i * 6);
        }
    }
}

} // verus!

//! Properties of advertisements: a receiver understands what this device says of its channels.

use crate::device_info::DeviceInfo;
use crate::flows_tx::{FPP_MAX_ADVERTISED, FPP_MIN};
use crate::mdns_client::{
    bits_per_sample, channel_error, frames_number, frames_texts, place_of, property_number, split_once,
    starts_with, with_description, with_descriptions, QueryError,
};
use crate::mdns_server::{channel_texts, channels_in_flow, entry, short_hex};
use crate::text::{decimal, decimal_is_read_back, lemma_decimal_digits, number_of};
use vstd::prelude::*;
use vstd::utf8::{encode_utf8, is_ascii_chars};

verus! {

/// Whether the text can stand before an equals sign or a comma: it has neither, nor anything
/// but ASCII.
spec fn is_plain(text: Seq<char>) -> bool {
    &&& is_ascii_chars(text)
    &&& forall|i: int| 0 <= i < text.len() ==> #[trigger] text[i] != '=' && text[i] != ','
}

proof fn lemma_place(text: Seq<u8>, b: u8, from: int, at: int)
    requires
        0 <= from <= at < text.len(),
        text[at] == b,
        forall|i: int| from <= i < at ==> #[trigger] text[i] != b,
    ensures
        place_of(text, b, from) == at,
    decreases at - from,
{
    if from < at {
        lemma_place(text, b, from + 1, at);
    }
}

/// A text of two parts with a mark between them is split into these parts.
proof fn lemma_split(a: Seq<char>, mark: char, b: Seq<char>, b_mark: u8)
    requires
        is_plain(a),
        is_ascii_chars(b),
        mark == '=' && b_mark == 0x3d || mark == ',' && b_mark == 0x2c,
    ensures
        split_once(encode_utf8(a + seq![mark] + b), b_mark) == Some((encode_utf8(a), encode_utf8(b))),
        is_ascii_chars(a + seq![mark] + b),
{
    let whole = a + seq![mark] + b;
    let text = encode_utf8(whole);
    assert(is_ascii_chars(whole));
    vstd::utf8::is_ascii_chars_encode_utf8(whole);
    vstd::utf8::is_ascii_chars_encode_utf8(a);
    vstd::utf8::is_ascii_chars_encode_utf8(b);
    let at = a.len() as int;
    assert(text[at] == whole[at] as u8);
    assert forall|i: int| 0 <= i < at implies #[trigger] text[i] != b_mark by {
        assert(text[i] == whole[i] as u8);
        assert(whole[i] == a[i]);
    }
    lemma_place(text, b_mark, 0, at);
    assert forall|i: int| 0 <= i < a.len() implies text[i] == #[trigger] encode_utf8(a)[i] by {
        assert(text[i] == whole[i] as u8);
        assert(encode_utf8(a)[i] == a[i] as u8);
    }
    assert forall|i: int| 0 <= i < b.len() implies text[at + 1 + i] == #[trigger] encode_utf8(b)[i] by {
        assert(text[at + 1 + i] == whole[at + 1 + i] as u8);
        assert(encode_utf8(b)[i] == b[i] as u8);
    }
    assert(text.take(at) =~= encode_utf8(a));
    assert(text.skip(at + 1) =~= encode_utf8(b));
}

/// What an entry adds to the properties.
proof fn lemma_entry(properties: Map<Seq<u8>, Seq<u8>>, key: Seq<char>, value: Seq<char>)
    requires
        is_plain(key),
        is_ascii_chars(value),
    ensures
        with_description(properties, encode_utf8(entry(key, value))) == properties.insert(
            encode_utf8(key),
            encode_utf8(value),
        ),
{
    reveal_strlit("=");
    assert("="@ =~= seq!['=']);
    lemma_split(key, '=', value, 0x3d);
}

/// Numbers are plain, and are read back.
proof fn lemma_number(n: nat, max: int)
    requires
        n <= max,
    ensures
        is_plain(decimal(n)),
        !starts_with(encode_utf8(decimal(n)), 0x30, 0x78),
        number_of(encode_utf8(decimal(n)), 10, max) == Some(n as int),
{
    lemma_decimal_digits(n);
    assert forall|i: int| 0 <= i < decimal(n).len() implies '\0' <= #[trigger] decimal(n)[i] <= '\u{7f}' by {
        assert('0' <= decimal(n)[i] <= '9');
    }
    vstd::utf8::is_ascii_chars_encode_utf8(decimal(n));
    if decimal(n).len() >= 2 {
        assert(decimal(n)[1] as u8 == encode_utf8(decimal(n))[1]);
        assert('0' <= decimal(n)[1] <= '9');
    }
    decimal_is_read_back(n, max);
}

/// Different texts are different as UTF-8.
proof fn lemma_keys_differ(a: Seq<char>, b: Seq<char>)
    ensures
        a != b ==> encode_utf8(a) != encode_utf8(b),
{
    vstd::utf8::encode_utf8_decode_utf8(a);
    vstd::utf8::encode_utf8_decode_utf8(b);
}

/// The keys of the entries for channels are plain and differ from each other.
proof fn lemma_keys()
    ensures
        is_plain("txtvers"@) && is_plain("dbcp1"@) && is_plain("dbcp"@) && is_plain("id"@) && is_plain("rate"@)
            && is_plain("pcm"@) && is_plain("enc"@) && is_plain("en"@) && is_plain("latency_ns"@)
            && is_plain("fpp"@) && is_plain("nchan"@),
        seq![
            "txtvers"@,
            "dbcp1"@,
            "dbcp"@,
            "id"@,
            "rate"@,
            "pcm"@,
            "enc"@,
            "en"@,
            "latency_ns"@,
            "fpp"@,
            "nchan"@,
        ].no_duplicates(),
{
    reveal_strlit("txtvers");
    reveal_strlit("dbcp1");
    reveal_strlit("dbcp");
    reveal_strlit("id");
    reveal_strlit("rate");
    reveal_strlit("pcm");
    reveal_strlit("enc");
    reveal_strlit("en");
    reveal_strlit("latency_ns");
    reveal_strlit("fpp");
    reveal_strlit("nchan");
    assert("id"@[0] != "en"@[0]);
    assert("pcm"@[0] != "enc"@[0] && "pcm"@[0] != "fpp"@[0] && "enc"@[0] != "fpp"@[0]);
    assert("dbcp"@[0] != "rate"@[0]);
    assert("dbcp1"@[0] != "nchan"@[0]);
}

/// The entries which are the same for all channels are keys with values as well.
proof fn lemma_constant_entries()
    ensures
        "txtvers=2"@ == entry("txtvers"@, "2"@),
        "dbcp1=0x1102"@ == entry("dbcp1"@, "0x1102"@),
        "dbcp=0x1004"@ == entry("dbcp"@, "0x1004"@),
        is_ascii_chars("2"@),
        is_ascii_chars("0x1102"@),
        is_ascii_chars("0x1004"@),
{
    reveal_strlit("=");
    reveal_strlit("2");
    reveal_strlit("0x1102");
    reveal_strlit("0x1004");
    reveal_strlit("txtvers");
    reveal_strlit("dbcp1");
    reveal_strlit("dbcp");
    reveal_strlit("txtvers=2");
    reveal_strlit("dbcp1=0x1102");
    reveal_strlit("dbcp=0x1004");
    assert("txtvers=2"@ =~= entry("txtvers"@, "2"@));
    assert("dbcp1=0x1102"@ =~= entry("dbcp1"@, "0x1102"@));
    assert("dbcp=0x1004"@ =~= entry("dbcp"@, "0x1004"@));
}

proof fn lemma_pcm_is_ascii(info: &DeviceInfo)
    ensures
        is_ascii_chars(decimal(info.bits_per_sample as nat / 8) + " "@ + short_hex(info.pcm_type)),
{
    reveal_strlit(" ");
    lemma_number(info.bits_per_sample as nat / 8, 255);
    assert(is_ascii_chars(" "@));
    assert(is_ascii_chars(short_hex(info.pcm_type)));
}

/// The properties which the entries of a channel make.
spec fn channel_properties(info: &DeviceInfo, index: int) -> Map<Seq<u8>, Seq<u8>> {
    Map::<Seq<u8>, Seq<u8>>::empty().insert(encode_utf8("txtvers"@), encode_utf8("2"@)).insert(
        encode_utf8("dbcp1"@),
        encode_utf8("0x1102"@),
    ).insert(encode_utf8("dbcp"@), encode_utf8("0x1004"@)).insert(
        encode_utf8("id"@),
        encode_utf8(decimal((index + 1) as nat)),
    ).insert(encode_utf8("rate"@), encode_utf8(decimal(info.sample_rate as nat))).insert(
        encode_utf8("pcm"@),
        encode_utf8(decimal(info.bits_per_sample as nat / 8) + " "@ + short_hex(info.pcm_type)),
    ).insert(encode_utf8("enc"@), encode_utf8(decimal(info.bits_per_sample as nat))).insert(
        encode_utf8("en"@),
        encode_utf8(decimal(info.bits_per_sample as nat)),
    ).insert(encode_utf8("latency_ns"@), encode_utf8(decimal(info.latency_ns as nat))).insert(
        encode_utf8("fpp"@),
        encode_utf8(decimal(FPP_MAX_ADVERTISED as nat) + ","@ + decimal(FPP_MIN as nat)),
    ).insert(encode_utf8("nchan"@), encode_utf8(decimal(channels_in_flow(info) as nat)))
}

proof fn lemma_channel_properties(info: &DeviceInfo, index: int, texts: Seq<Vec<u8>>)
    requires
        0 <= index < info.tx_channels@.len() <= usize::MAX,
        texts.len() == 11,
        forall|i: int| 0 <= i < 11 ==> (#[trigger] texts[i])@ == encode_utf8(channel_texts(info, index)[i]),
    ensures
        with_descriptions(Map::empty(), texts, 11) == channel_properties(info, index),
{
    let e = Map::<Seq<u8>, Seq<u8>>::empty();
    lemma_keys();
    lemma_constant_entries();
    lemma_pcm_is_ascii(info);
    lemma_number((index + 1) as nat, usize::MAX as int);
    lemma_number(info.sample_rate as nat, usize::MAX as int);
    lemma_number(info.bits_per_sample as nat, usize::MAX as int);
    lemma_number(info.latency_ns as nat, usize::MAX as int);
    lemma_number(FPP_MAX_ADVERTISED as nat, usize::MAX as int);
    lemma_number(FPP_MIN as nat, usize::MAX as int);
    lemma_number(channels_in_flow(info) as nat, usize::MAX as int);
    reveal_strlit(",");
    assert(","@ =~= seq![',']);
    lemma_split(decimal(FPP_MAX_ADVERTISED as nat), ',', decimal(FPP_MIN as nat), 0x2c);
    reveal_with_fuel(with_descriptions, 12);
    let t = channel_texts(info, index);
    let m0 = with_descriptions(e, texts, 0);
    let m1 = with_descriptions(e, texts, 1);
    let m2 = with_descriptions(e, texts, 2);
    let m3 = with_descriptions(e, texts, 3);
    let m4 = with_descriptions(e, texts, 4);
    let m5 = with_descriptions(e, texts, 5);
    let m6 = with_descriptions(e, texts, 6);
    let m7 = with_descriptions(e, texts, 7);
    let m8 = with_descriptions(e, texts, 8);
    let m9 = with_descriptions(e, texts, 9);
    let m10 = with_descriptions(e, texts, 10);
    lemma_entry(m0, "txtvers"@, "2"@);
    assert(texts[0]@ == encode_utf8(t[0]));
    lemma_entry(m1, "dbcp1"@, "0x1102"@);
    assert(texts[1]@ == encode_utf8(t[1]));
    lemma_entry(m2, "dbcp"@, "0x1004"@);
    assert(texts[2]@ == encode_utf8(t[2]));
    lemma_entry(m3, "id"@, decimal((index + 1) as nat));
    assert(texts[3]@ == encode_utf8(t[3]));
    lemma_entry(m4, "rate"@, decimal(info.sample_rate as nat));
    assert(texts[4]@ == encode_utf8(t[4]));
    lemma_entry(
        m5,
        "pcm"@,
        decimal(info.bits_per_sample as nat / 8) + " "@ + short_hex(info.pcm_type),
    );
    assert(texts[5]@ == encode_utf8(t[5]));
    lemma_entry(m6, "enc"@, decimal(info.bits_per_sample as nat));
    assert(texts[6]@ == encode_utf8(t[6]));
    lemma_entry(m7, "en"@, decimal(info.bits_per_sample as nat));
    assert(texts[7]@ == encode_utf8(t[7]));
    lemma_entry(m8, "latency_ns"@, decimal(info.latency_ns as nat));
    assert(texts[8]@ == encode_utf8(t[8]));
    lemma_entry(m9, "fpp"@, decimal(FPP_MAX_ADVERTISED as nat) + ","@ + decimal(FPP_MIN as nat));
    assert(texts[9]@ == encode_utf8(t[9]));
    lemma_entry(m10, "nchan"@, decimal(channels_in_flow(info) as nat));
    assert(texts[10]@ == encode_utf8(t[10]));
}

/// A receiver which reads the entries that this device advertises for a transmit channel finds the
/// channel there, with the numbers which the device has.
pub proof fn advertised_channel_is_understood(info: &DeviceInfo, index: int, texts: Seq<Vec<u8>>)
    requires
        0 <= index < info.tx_channels@.len() <= usize::MAX,
        texts.len() == 11,
        forall|i: int| 0 <= i < 11 ==> (#[trigger] texts[i])@ == encode_utf8(channel_texts(info, index)[i]),
    ensures
        ({
            let properties = with_descriptions(Map::empty(), texts, 11);
            &&& channel_error(properties) is None
            &&& property_number(properties, encode_utf8("id"@)) == Ok::<int, QueryError>(index + 1)
            &&& property_number(properties, encode_utf8("nchan"@)) == Ok::<int, QueryError>(channels_in_flow(info))
            &&& property_number(properties, encode_utf8("latency_ns"@)) == Ok::<int, QueryError>(info.latency_ns as int)
            &&& bits_per_sample(properties) == Ok::<int, QueryError>(info.bits_per_sample as int)
            &&& frames_number(frames_texts(properties)->Ok_0.0) == Ok::<int, QueryError>(FPP_MAX_ADVERTISED as int)
            &&& frames_number(frames_texts(properties)->Ok_0.1) == Ok::<int, QueryError>(FPP_MIN as int)
        }),
{
    lemma_channel_properties(info, index, texts);
    let properties = channel_properties(info, index);
    lemma_keys();
    let keys = seq![
        "txtvers"@,
        "dbcp1"@,
        "dbcp"@,
        "id"@,
        "rate"@,
        "pcm"@,
        "enc"@,
        "en"@,
        "latency_ns"@,
        "fpp"@,
        "nchan"@,
    ];
    assert forall|i: int, j: int| 0 <= i < 11 && 0 <= j < 11 && i != j implies encode_utf8(#[trigger] keys[i])
        != encode_utf8(#[trigger] keys[j]) by {
        lemma_keys_differ(keys[i], keys[j]);
    }
    assert(keys[0] == "txtvers"@ && keys[1] == "dbcp1"@ && keys[2] == "dbcp"@ && keys[3] == "id"@ && keys[4]
        == "rate"@ && keys[5] == "pcm"@ && keys[6] == "enc"@ && keys[7] == "en"@ && keys[8] == "latency_ns"@
        && keys[9] == "fpp"@ && keys[10] == "nchan"@);
    lemma_number((index + 1) as nat, usize::MAX as int);
    lemma_number(info.bits_per_sample as nat, usize::MAX as int);
    lemma_number(info.latency_ns as nat, usize::MAX as int);
    lemma_number(channels_in_flow(info) as nat, usize::MAX as int);
    lemma_number(FPP_MAX_ADVERTISED as nat, u16::MAX as int);
    lemma_number(FPP_MIN as nat, u16::MAX as int);
    reveal_strlit(",");
    assert(","@ =~= seq![',']);
    lemma_split(decimal(FPP_MAX_ADVERTISED as nat), ',', decimal(FPP_MIN as nat), 0x2c);
    lemma_dbcp1();
}

/// The version of the protocol is a number.
proof fn lemma_dbcp1()
    ensures
        starts_with(encode_utf8("0x1102"@), 0x30, 0x78),
        number_of(encode_utf8("0x1102"@).skip(2), 16, usize::MAX as int) == Some(0x1102int),
{
    reveal_strlit("0x1102");
    assert(is_ascii_chars("0x1102"@));
    vstd::utf8::is_ascii_chars_encode_utf8("0x1102"@);
    let text = encode_utf8("0x1102"@);
    assert(text[0] == "0x1102"@[0] as u8 && text[1] == "0x1102"@[1] as u8 && text[2] == "0x1102"@[2] as u8
        && text[3] == "0x1102"@[3] as u8 && text[4] == "0x1102"@[4] as u8 && text[5] == "0x1102"@[5] as u8);
    let digits = text.skip(2);
    assert(digits =~= seq![0x31u8, 0x31u8, 0x30u8, 0x32u8]);
    reveal_with_fuel(crate::text::digits_value, 5);
    assert(digits.drop_last() =~= seq![0x31u8, 0x31u8, 0x30u8]);
    assert(digits.drop_last().drop_last() =~= seq![0x31u8, 0x31u8]);
    assert(digits.drop_last().drop_last().drop_last() =~= seq![0x31u8]);
    assert(digits.drop_last().drop_last().drop_last().drop_last() =~= Seq::<u8>::empty());
}

} // verus!

//! What a service is said to be is said of that service: records with other names tell nothing.

use crate::mdns_client::{
    address_in, channel_error, is_answer, is_broken, is_channel_of, is_multicast_key, lower_case, multicast_pointer,
    place_of, points_to, properties_in, property_number, same_label, same_name, split_once, starts_with, target_in,
    with_description, with_descriptions, AdvertisedChannel, AdvertisedService, PointerToMulticast, QueryError, Record,
    RecordData,
};
use crate::text::{bytes_less, number_of};
use vstd::prelude::*;
use vstd::utf8::encode_utf8;

verus! {

// ---------------------------------------------------------------------------------------------
// Names
// ---------------------------------------------------------------------------------------------

/// Whether the bytes are the same, or the upper and the lower case of one letter.
pub open spec fn agree_but_for_case(x: u8, y: u8) -> bool {
    ||| x == y
    ||| 0x41 <= x <= 0x5a && y == x + 0x20
    ||| 0x41 <= y <= 0x5a && x == y + 0x20
}

/// Whether the labels are as long as each other and agree in all their bytes but for case.
pub open spec fn labels_agree(a: Seq<u8>, b: Seq<u8>) -> bool {
    &&& a.len() == b.len()
    &&& forall|j: int| 0 <= j < a.len() ==> agree_but_for_case(#[trigger] a[j], b[j])
}

/// Whether the names have as many labels as each other and all of these, from the first one on, agree.
pub open spec fn names_agree(a: Seq<Vec<u8>>, b: Seq<Vec<u8>>) -> bool {
    &&& a.len() == b.len()
    &&& forall|i: int| 0 <= i < a.len() ==> labels_agree((#[trigger] a[i])@, b[i]@)
}

/// Labels are the same exactly if they agree in all their bytes but for case.
pub proof fn same_labels_agree(a: Seq<u8>, b: Seq<u8>)
    ensures
        same_label(a, b) <==> labels_agree(a, b),
{
    if same_label(a, b) {
        assert forall|j: int| 0 <= j < a.len() implies agree_but_for_case(#[trigger] a[j], b[j]) by {
            assert(lower_case(a[j]) == lower_case(b[j]));
        }
    }
    if labels_agree(a, b) {
        assert forall|j: int| 0 <= j < a.len() implies lower_case(#[trigger] a[j]) == lower_case(b[j]) by {
            assert(agree_but_for_case(a[j], b[j]));
        }
    }
}

/// Names are the same exactly if they have as many labels as each other and all labels, the first one
/// included, agree but for case.
pub proof fn same_names_agree(a: Seq<Vec<u8>>, b: Seq<Vec<u8>>)
    ensures
        same_name(a, b) <==> names_agree(a, b),
{
    if same_name(a, b) {
        assert forall|i: int| 0 <= i < a.len() implies labels_agree((#[trigger] a[i])@, b[i]@) by {
            same_labels_agree(a[i]@, b[i]@);
        }
    }
    if names_agree(a, b) {
        assert forall|i: int| 0 <= i < a.len() implies same_label((#[trigger] a[i])@, b[i]@) by {
            same_labels_agree(a[i]@, b[i]@);
        }
    }
}

/// Names which differ in one label by more than case are never the same, be it the first label, the last
/// one, or any other.
pub proof fn names_with_different_labels_differ(a: Seq<Vec<u8>>, b: Seq<Vec<u8>>, i: int)
    requires
        0 <= i < a.len(),
        i < b.len(),
        a[i]@.len() != b[i]@.len() || exists|j: int|
            0 <= j < a[i]@.len() && !agree_but_for_case(#[trigger] a[i]@[j], b[i]@[j]),
    ensures
        !same_name(a, b),
{
    same_names_agree(a, b);
    if a[i]@.len() == b[i]@.len() {
        let j = choose|j: int| 0 <= j < a[i]@.len() && !agree_but_for_case(#[trigger] a[i]@[j], b[i]@[j]);
        assert(!labels_agree(a[i]@, b[i]@));
    }
}

// ---------------------------------------------------------------------------------------------
// Descriptions
// ---------------------------------------------------------------------------------------------

proof fn lemma_place_of(text: Seq<u8>, b: u8, from: int)
    requires
        0 <= from <= text.len(),
    ensures
        from <= place_of(text, b, from) <= text.len(),
        forall|j: int| from <= j < place_of(text, b, from) ==> #[trigger] text[j] != b,
        place_of(text, b, from) < text.len() ==> text[place_of(text, b, from)] == b,
    decreases text.len() - from,
{
    if from < text.len() && text[from] != b {
        lemma_place_of(text, b, from + 1);
    }
}

/// A text is split at the first one of the given bytes: the parts with that byte between them make up the
/// text, and the byte does not stand in the first part.
pub proof fn split_text_is_made_up_again(text: Seq<u8>, b: u8)
    ensures
        split_once(text, b) is Some <==> text.contains(b),
        split_once(text, b) matches Some((key, value)) ==> {
            &&& text == key + seq![b] + value
            &&& !key.contains(b)
        },
{
    lemma_place_of(text, b, 0);
    let at = place_of(text, b, 0);
    if at < text.len() {
        assert(text[at] == b);
        let (key, value) = split_once(text, b)->0;
        assert(text =~= key + seq![b] + value);
        assert forall|j: int| 0 <= j < key.len() implies key[j] != b by {
            assert(text[j] != b);
        }
    } else {
        assert forall|j: int| 0 <= j < text.len() implies text[j] != b by {}
    }
}

/// Whether the record is a description with the text `m` of the service.
pub open spec fn describes(record: Record, name: Seq<Vec<u8>>, m: int) -> bool {
    &&& names_agree(record.name@, name)
    &&& record.data matches RecordData::Txt(texts)
    &&& 0 <= m < texts@.len()
}

/// Whether the text gives the value to the key: what stands before the first equals sign is the key.
pub open spec fn gives(text: Seq<u8>, key: Seq<u8>, value: Seq<u8>) -> bool {
    text == key + seq![0x3du8] + value && !key.contains(0x3d)
}

/// Whether the text gives some value to the key.
pub open spec fn speaks_of(text: Seq<u8>, key: Seq<u8>) -> bool {
    exists|value: Seq<u8>| #[trigger] gives(text, key, value)
}

proof fn lemma_gives(text: Seq<u8>, key: Seq<u8>, value: Seq<u8>)
    ensures
        gives(text, key, value) <==> split_once(text, 0x3d) == Some((key, value)),
{
    split_text_is_made_up_again(text, 0x3d);
    if gives(text, key, value) {
        assert(text[key.len() as int] == 0x3d);
        assert(text.contains(0x3d));
        let (k, v) = split_once(text, 0x3d)->0;
        if k.len() < key.len() {
            assert(text[k.len() as int] == 0x3d);
            assert(key[k.len() as int] == 0x3d);
            assert(key.contains(0x3d));
        }
        if k.len() > key.len() {
            assert(k[key.len() as int] == 0x3d);
            assert(k.contains(0x3d));
        }
        assert(k =~= text.take(k.len() as int));
        assert(key =~= text.take(k.len() as int));
        assert(v =~= text.skip(k.len() as int + 1));
        assert(value =~= text.skip(k.len() as int + 1));
    }
}

/// One more description sets the value of its key and leaves all others alone.
pub proof fn description_sets_its_key(
    properties: Map<Seq<u8>, Seq<u8>>,
    text: Seq<u8>,
    key: Seq<u8>,
    value: Seq<u8>,
)
    ensures
        gives(text, key, value) ==> with_description(properties, text).contains_key(key) && with_description(
            properties,
            text,
        )[key] == value,
        !speaks_of(text, key) ==> {
            &&& with_description(properties, text).contains_key(key) <==> properties.contains_key(key)
            &&& with_description(properties, text)[key] == properties[key]
        },
{
    lemma_gives(text, key, value);
    if split_once(text, 0x3d) is Some {
        let (k, v) = split_once(text, 0x3d)->0;
        lemma_gives(text, k, v);
        if k == key {
            assert(gives(text, key, v));
        }
    }
}

/// Whether the text `m` of the answer `i` gives the value to the key of the service, and no text after it,
/// in that answer or in a later one, speaks of the key.
pub open spec fn says_last(answers: Seq<Record>, name: Seq<Vec<u8>>, i: int, m: int, key: Seq<u8>, value: Seq<u8>) -> bool {
    &&& 0 <= i < answers.len()
    &&& describes(answers[i], name, m)
    &&& gives(answers[i].data->Txt_0@[m]@, key, value)
    &&& forall|p: int, q: int|
        0 <= p < answers.len() && #[trigger] describes(answers[p], name, q) && (p > i || p == i && q > m)
            ==> !speaks_of(answers[p].data->Txt_0@[q]@, key)
}

proof fn lemma_texts(properties: Map<Seq<u8>, Seq<u8>>, texts: Seq<Vec<u8>>, n: int, key: Seq<u8>)
    requires
        0 <= n <= texts.len(),
    ensures
        (forall|q: int| 0 <= q < n ==> !speaks_of((#[trigger] texts[q])@, key)) ==> {
            &&& with_descriptions(properties, texts, n).contains_key(key) <==> properties.contains_key(key)
            &&& with_descriptions(properties, texts, n)[key] == properties[key]
        },
        forall|m: int, value: Seq<u8>|
            0 <= m < n && #[trigger] gives(texts[m]@, key, value) && (forall|q: int|
                m < q < n ==> !speaks_of((#[trigger] texts[q])@, key)) ==> with_descriptions(
                properties,
                texts,
                n,
            ).contains_key(key) && with_descriptions(properties, texts, n)[key] == value,
    decreases n,
{
    if n > 0 {
        lemma_texts(properties, texts, n - 1, key);
        let before = with_descriptions(properties, texts, n - 1);
        let last = texts[n - 1]@;
        description_sets_its_key(before, last, key, Seq::empty());
        assert forall|m: int, value: Seq<u8>|
            0 <= m < n && #[trigger] gives(texts[m]@, key, value) && (forall|q: int|
                m < q < n ==> !speaks_of((#[trigger] texts[q])@, key)) implies with_descriptions(
            properties,
            texts,
            n,
        ).contains_key(key) && with_descriptions(properties, texts, n)[key] == value by {
            description_sets_its_key(before, last, key, value);
            if m < n - 1 {
                assert(!speaks_of(texts[n - 1]@, key));
            }
        }
    }
}

proof fn lemma_properties(answers: Seq<Record>, name: Seq<Vec<u8>>, n: int, i: int, m: int, key: Seq<u8>, value: Seq<u8>)
    requires
        says_last(answers, name, i, m, key, value),
        i < n <= answers.len(),
    ensures
        properties_in(answers, name, n).contains_key(key),
        properties_in(answers, name, n)[key] == value,
    decreases n,
{
    let record = answers[n - 1];
    let before = properties_in(answers, name, n - 1);
    same_names_agree(record.name@, name);
    if i < n - 1 {
        lemma_properties(answers, name, n - 1, i, m, key, value);
        if record.data is Txt && same_name(record.name@, name) {
            let texts = record.data->Txt_0@;
            assert forall|q: int| 0 <= q < texts.len() implies !speaks_of((#[trigger] texts[q])@, key) by {
                assert(describes(answers[n - 1], name, q));
            }
            lemma_texts(before, texts, texts.len() as int, key);
        }
    } else {
        let texts = record.data->Txt_0@;
        assert forall|q: int| m < q < texts.len() implies !speaks_of((#[trigger] texts[q])@, key) by {
            assert(describes(answers[n - 1], name, q));
        }
        lemma_texts(before, texts, texts.len() as int, key);
        assert(gives(texts[m]@, key, value));
    }
}

proof fn lemma_no_property(answers: Seq<Record>, name: Seq<Vec<u8>>, n: int, key: Seq<u8>)
    requires
        0 <= n <= answers.len(),
        forall|p: int, q: int|
            0 <= p < n && #[trigger] describes(answers[p], name, q) ==> !speaks_of(
                answers[p].data->Txt_0@[q]@,
                key,
            ),
    ensures
        !properties_in(answers, name, n).contains_key(key),
    decreases n,
{
    if n > 0 {
        lemma_no_property(answers, name, n - 1, key);
        let record = answers[n - 1];
        same_names_agree(record.name@, name);
        if record.data is Txt && same_name(record.name@, name) {
            let texts = record.data->Txt_0@;
            assert forall|q: int| 0 <= q < texts.len() implies !speaks_of((#[trigger] texts[q])@, key) by {
                assert(describes(answers[n - 1], name, q));
            }
            lemma_texts(properties_in(answers, name, n - 1), texts, texts.len() as int, key);
        }
    }
}

/// A service has the property which the last description of it that speaks of the key gives, and no
/// property of which no description of it speaks. Descriptions of other names play no part.
pub proof fn properties_are_those_of_the_service(
    answers: Seq<Record>,
    name: Seq<Vec<u8>>,
    key: Seq<u8>,
)
    ensures
        forall|i: int, m: int, value: Seq<u8>| #[trigger]
            says_last(answers, name, i, m, key, value) ==> properties_in(
                answers,
                name,
                answers.len() as int,
            ).contains_key(key) && properties_in(answers, name, answers.len() as int)[key] == value,
        (forall|p: int, q: int|
            0 <= p < answers.len() && #[trigger] describes(answers[p], name, q) ==> !speaks_of(
                answers[p].data->Txt_0@[q]@,
                key,
            )) ==> !properties_in(answers, name, answers.len() as int).contains_key(key),
{
    let n = answers.len() as int;
    assert forall|i: int, m: int, value: Seq<u8>| #[trigger]
        says_last(answers, name, i, m, key, value) implies properties_in(answers, name, n).contains_key(key)
        && properties_in(answers, name, n)[key] == value by {
        lemma_properties(answers, name, n, i, m, key, value);
    }
    if forall|p: int, q: int|
        0 <= p < answers.len() && #[trigger] describes(answers[p], name, q) ==> !speaks_of(
            answers[p].data->Txt_0@[q]@,
            key,
        ) {
        lemma_no_property(answers, name, n, key);
    }
}

// ---------------------------------------------------------------------------------------------
// Places of services
// ---------------------------------------------------------------------------------------------

/// Whether the record says where the service is found.
pub open spec fn locates(record: Record, name: Seq<Vec<u8>>) -> bool {
    names_agree(record.name@, name) && record.data is Srv
}

/// Whether the record gives the address of the machine.
pub open spec fn addresses(record: Record, machine: Seq<Vec<u8>>) -> bool {
    names_agree(record.name@, machine) && record.data is A
}

/// Whether a text in a description of the service is not UTF-8.
pub open spec fn is_unreadable(record: Record, name: Seq<Vec<u8>>) -> bool {
    exists|m: int| #[trigger] describes(record, name, m) && !vstd::utf8::valid_utf8(record.data->Txt_0@[m]@)
}

proof fn lemma_target(answers: Seq<Record>, name: Seq<Vec<u8>>, n: int)
    requires
        0 <= n <= answers.len(),
    ensures
        target_in(answers, name, n) is None ==> forall|i: int| 0 <= i < n ==> !locates(#[trigger] answers[i], name),
        target_in(answers, name, n) matches Some(t) ==> {
            &&& 0 <= t < n
            &&& locates(answers[t], name)
            &&& forall|i: int| t < i < n ==> !locates(#[trigger] answers[i], name)
        },
    decreases n,
{
    if n > 0 {
        lemma_target(answers, name, n - 1);
        same_names_agree(answers[n - 1].name@, name);
    }
}

proof fn lemma_address(additionals: Seq<Record>, machine: Seq<Vec<u8>>, from: int)
    requires
        0 <= from <= additionals.len(),
    ensures
        address_in(additionals, machine, from) is None ==> forall|i: int|
            from <= i < additionals.len() ==> !addresses(#[trigger] additionals[i], machine),
        address_in(additionals, machine, from) matches Some(a) ==> {
            &&& from <= a < additionals.len()
            &&& addresses(additionals[a], machine)
            &&& forall|i: int| from <= i < a ==> !addresses(#[trigger] additionals[i], machine)
        },
    decreases additionals.len() - from,
{
    if from < additionals.len() {
        lemma_address(additionals, machine, from + 1);
        same_names_agree(additionals[from].name@, machine);
    }
}

proof fn lemma_broken(record: Record, name: Seq<Vec<u8>>)
    ensures
        is_broken(record, name) <==> is_unreadable(record, name),
{
    same_names_agree(record.name@, name);
    if is_broken(record, name) {
        let texts = record.data->Txt_0@;
        let m = choose|m: int| 0 <= m < texts.len() && !vstd::utf8::valid_utf8((#[trigger] texts[m])@);
        assert(describes(record, name, m));
    }
    if is_unreadable(record, name) {
        let m = choose|m: int| #[trigger]
            describes(record, name, m) && !vstd::utf8::valid_utf8(record.data->Txt_0@[m]@);
        assert(!vstd::utf8::valid_utf8(record.data->Txt_0@[m]@));
    }
}

/// Where a service is found is said by the last record which locates that service, along with the first
/// record which gives the address of the machine named there; if either is missing, it is not found, and
/// it is not found either if a description of it cannot be read. Records with other names decide nothing.
pub proof fn service_is_found_where_it_is_said_to_be(
    r: Result<AdvertisedService, QueryError>,
    name: Seq<Vec<u8>>,
    answers: Seq<Record>,
    additionals: Seq<Record>,
    t: int,
    a: int,
)
    requires
        is_answer(r, name, answers, additionals),
        0 <= t < answers.len(),
        locates(answers[t], name),
        forall|i: int| t < i < answers.len() ==> !locates(#[trigger] answers[i], name),
        0 <= a < additionals.len(),
        addresses(additionals[a], answers[t].data->target@),
        forall|i: int| 0 <= i < a ==> !addresses(#[trigger] additionals[i], answers[t].data->target@),
    ensures
        r is Ok <==> forall|i: int| 0 <= i < answers.len() ==> !is_unreadable(#[trigger] answers[i], name),
        r is Err ==> r->Err_0 == QueryError::InvalidText,
        r is Ok ==> {
            let ip = additionals[a].data->A_0@;
            &&& r->Ok_0.addr == (ip[0] * 0x100_0000 + ip[1] * 0x1_0000 + ip[2] * 0x100 + ip[3]) * 0x1_0000
                + answers[t].data->port
            &&& forall|i: int, m: int, key: Seq<u8>, value: Seq<u8>| #[trigger]
                says_last(answers, name, i, m, key, value) ==> r->Ok_0.properties.view().contains_key(key)
                    && r->Ok_0.properties.view()[key] == value
        },
{
    let n = answers.len() as int;
    lemma_target(answers, name, n);
    let t1 = target_in(answers, name, n);
    assert(t1 is Some);
    assert(t1->0 == t) by {
        if t1->0 < t {
            assert(!locates(answers[t], name));
        }
        if t < t1->0 {
            assert(!locates(answers[t1->0], name));
        }
    }
    let machine = answers[t].data->target@;
    lemma_address(additionals, machine, 0);
    let a1 = address_in(additionals, machine, 0);
    assert(a1 is Some);
    assert(a1->0 == a) by {
        if a1->0 < a {
            assert(!addresses(additionals[a1->0], machine));
        }
        if a < a1->0 {
            assert(!addresses(additionals[a], machine));
        }
    }
    assert forall|i: int| 0 <= i < n implies is_broken(#[trigger] answers[i], name) == is_unreadable(
        answers[i],
        name,
    ) by {
        lemma_broken(answers[i], name);
    }
    if r is Ok {
        assert forall|i: int, m: int, key: Seq<u8>, value: Seq<u8>| #[trigger]
            says_last(answers, name, i, m, key, value) implies r->Ok_0.properties.view().contains_key(key)
            && r->Ok_0.properties.view()[key] == value by {
            properties_are_those_of_the_service(answers, name, key);
        }
    }
}

/// A service is not found if no record locates it, or if none gives the address of a machine which is named
/// by a record that locates it.
pub proof fn service_which_nothing_locates_is_not_found(
    r: Result<AdvertisedService, QueryError>,
    name: Seq<Vec<u8>>,
    answers: Seq<Record>,
    additionals: Seq<Record>,
)
    requires
        is_answer(r, name, answers, additionals),
        forall|t: int, a: int|
            0 <= t < answers.len() && 0 <= a < additionals.len() && #[trigger] locates(answers[t], name)
                ==> !#[trigger] addresses(additionals[a], answers[t].data->target@),
    ensures
        r is Err,
        (forall|i: int| 0 <= i < answers.len() ==> !is_unreadable(#[trigger] answers[i], name)) ==> r->Err_0
            == QueryError::NotFound,
{
    let n = answers.len() as int;
    lemma_target(answers, name, n);
    if let Some(t) = target_in(answers, name, n) {
        lemma_address(additionals, answers[t].data->target@, 0);
        if let Some(a) = address_in(additionals, answers[t].data->target@, 0) {
            assert(locates(answers[t], name));
            assert(addresses(additionals[a], answers[t].data->target@));
        }
    }
    assert forall|i: int| 0 <= i < n implies is_broken(#[trigger] answers[i], name) == is_unreadable(
        answers[i],
        name,
    ) by {
        lemma_broken(answers[i], name);
    }
}

// ---------------------------------------------------------------------------------------------
// Channels
// ---------------------------------------------------------------------------------------------

/// Whether the property is there and its text is the number: in hexadecimal digits after `0x`, else in
/// decimal ones.
pub open spec fn is_number(properties: Map<Seq<u8>, Seq<u8>>, key: Seq<char>, number: int) -> bool {
    let text = properties[encode_utf8(key)];
    let is_hex = text.len() >= 2 && text[0] == 0x30 && text[1] == 0x78;
    &&& properties.contains_key(encode_utf8(key))
    &&& is_hex ==> number_of(text.subrange(2, text.len() as int), 16, usize::MAX as int) == Some(number)
    &&& !is_hex ==> number_of(text, 10, usize::MAX as int) == Some(number)
}

proof fn lemma_property_number(properties: Map<Seq<u8>, Seq<u8>>, key: Seq<char>)
    ensures
        property_number(properties, encode_utf8(key)) matches Ok(v) ==> is_number(properties, key, v),
        property_number(properties, encode_utf8(key)) is Err ==> forall|v: int| !#[trigger] is_number(properties, key, v),
        property_number(properties, encode_utf8(key)) matches Err(e) ==> (e == QueryError::NotFound <==> !properties.contains_key(
            encode_utf8(key),
        )),
{
    let text = properties[encode_utf8(key)];
    if text.len() >= 2 {
        assert(text.skip(2) =~= text.subrange(2, text.len() as int));
    }
}

/// A channel is as its properties say: the number of channels in a flow, its identifier, the bits per
/// sample, the version of the protocol and the latency are the numbers under their keys, without the bits
/// which there is no room for; the greatest and the least number of frames stand in this order, with a
/// comma between them.
pub proof fn channel_is_as_described(
    channel: AdvertisedChannel,
    addr: u64,
    properties: Map<Seq<u8>, Seq<u8>>,
)
    requires
        channel_error(properties) is None,
        is_channel_of(channel, addr, properties),
    ensures
        channel.addr == addr,
        is_number(properties, "nchan"@, channel.tx_channels_per_flow as int),
        exists|id: int| #[trigger] is_number(properties, "id"@, id) && channel.tx_channel_id == id % 0x1_0000,
        exists|bits: int|
            (#[trigger] is_number(properties, "enc"@, bits) || is_number(properties, "en"@, bits))
                && channel.bits_per_sample == bits % 0x1_0000_0000,
        (exists|bits: int| #[trigger] is_number(properties, "enc"@, bits)) ==> exists|bits: int|
            #[trigger] is_number(properties, "enc"@, bits) && channel.bits_per_sample == bits % 0x1_0000_0000,
        exists|version: int| #[trigger] is_number(properties, "dbcp1"@, version) && channel.dbcp1 == version % 0x1_0000,
        is_number(properties, "latency_ns"@, channel.min_rx_latency_ns as int),
        exists|most: Seq<u8>, least: Seq<u8>|
            properties.contains_key(encode_utf8("fpp"@)) && properties[encode_utf8("fpp"@)] == #[trigger] (most + seq![
                0x2cu8,
            ] + least) && !most.contains(0x2c) && number_of(most, 10, 0xffff) == Some(channel.fpp_max as int)
                && number_of(least, 10, 0xffff) == Some(channel.fpp_min as int),
{
    lemma_property_number(properties, "nchan"@);
    lemma_property_number(properties, "id"@);
    lemma_property_number(properties, "enc"@);
    lemma_property_number(properties, "en"@);
    lemma_property_number(properties, "dbcp1"@);
    lemma_property_number(properties, "latency_ns"@);
    let id = property_number(properties, encode_utf8("id"@))->Ok_0;
    assert(is_number(properties, "id"@, id));
    let version = property_number(properties, encode_utf8("dbcp1"@))->Ok_0;
    assert(is_number(properties, "dbcp1"@, version));
    if property_number(properties, encode_utf8("enc"@)) is Ok {
        let bits = property_number(properties, encode_utf8("enc"@))->Ok_0;
        assert(is_number(properties, "enc"@, bits));
    } else {
        let bits = property_number(properties, encode_utf8("en"@))->Ok_0;
        assert(!is_number(properties, "enc"@, bits));
        assert(is_number(properties, "en"@, bits));
    }
    let text = properties[encode_utf8("fpp"@)];
    split_text_is_made_up_again(text, 0x2c);
    let (most, least) = split_once(text, 0x2c)->0;
    assert(text == most + seq![0x2cu8] + least);
}

/// A channel is found in multicast if a key says so: the first one, in the order of keys, which begins with
/// `b.`, and goes on with the number of the multicast flow; its value is the number of the channel there.
pub proof fn multicast_is_where_the_key_says(properties: Map<Seq<u8>, Seq<u8>>, multicast: Option<PointerToMulticast>)
    requires
        points_to(properties, multicast),
    ensures
        multicast matches Some(m) ==> exists|key: Seq<u8>| #[trigger]
            properties.contains_key(key) && key.len() >= 2 && key[0] == 0x62 && key[1] == 0x2e && number_of(
                key.subrange(2, key.len() as int),
                10,
                usize::MAX as int,
            ) == Some(m.bundle_id as int) && number_of(properties[key], 10, usize::MAX as int) == Some(
                m.channel_in_bundle as int,
            ) && forall|other: Seq<u8>| #[trigger]
                properties.contains_key(other) && other.len() >= 2 && other[0] == 0x62 && other[1] == 0x2e
                    ==> !bytes_less(other, key, 0),
        (forall|key: Seq<u8>| #[trigger]
            properties.contains_key(key) ==> !(key.len() >= 2 && key[0] == 0x62 && key[1] == 0x2e)) ==> multicast is None,
{
    if exists|key: Seq<u8>|
        #![trigger is_multicast_key(properties, key)]
        is_multicast_key(properties, key) && multicast == multicast_pointer(key, properties[key]) {
        let key = choose|key: Seq<u8>|
            #![trigger is_multicast_key(properties, key)]
            is_multicast_key(properties, key) && multicast == multicast_pointer(key, properties[key]);
        assert(is_multicast_key(properties, key));
        assert(properties.contains_key(key));
        assert(key.skip(2) =~= key.subrange(2, key.len() as int));
        crate::device_laws::numbers_are_within_their_limit(key.skip(2), usize::MAX as int);
        crate::device_laws::numbers_are_within_their_limit(properties[key], usize::MAX as int);
        assert forall|other: Seq<u8>| #[trigger]
            properties.contains_key(other) && other.len() >= 2 && other[0] == 0x62 && other[1] == 0x2e
            implies !bytes_less(other, key, 0) by {
            assert(starts_with(other, 0x62, 0x2e));
        }
    }
}

/// What a key says about multicast is believed: if a key begins with `b.` and is less than all other such
/// keys, what follows and the value being numbers, then the channel is found there.
pub proof fn multicast_is_found_if_a_key_says_so(
    properties: Map<Seq<u8>, Seq<u8>>,
    multicast: Option<PointerToMulticast>,
    key: Seq<u8>,
    bundle: usize,
    channel: usize,
)
    requires
        points_to(properties, multicast),
        properties.contains_key(key),
        key.len() >= 2 && key[0] == 0x62 && key[1] == 0x2e,
        forall|other: Seq<u8>| #[trigger]
            properties.contains_key(other) && other.len() >= 2 && other[0] == 0x62 && other[1] == 0x2e ==> other == key
                || bytes_less(key, other, 0),
        number_of(key.subrange(2, key.len() as int), 10, usize::MAX as int) == Some(bundle as int),
        number_of(properties[key], 10, usize::MAX as int) == Some(channel as int),
    ensures
        multicast is Some,
        multicast->0.bundle_id == bundle,
        multicast->0.channel_in_bundle == channel,
{
    assert(starts_with(key, 0x62, 0x2e));
    assert(key.skip(2) =~= key.subrange(2, key.len() as int));
    let k = choose|k: Seq<u8>|
        #![trigger is_multicast_key(properties, k)]
        is_multicast_key(properties, k) && multicast == multicast_pointer(k, properties[k]);
    assert(is_multicast_key(properties, k));
    assert(properties.contains_key(k));
    assert(!bytes_less(key, k, 0));
    assert(k == key);
}

} // verus!

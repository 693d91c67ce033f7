//! Services which transmitters advertise.

use crate::byte_utils::from_utf8;
use crate::flow_table::{make_socket_number, socket_number};
use crate::text::{are_bytes_less, bytes_less, bytes_less_is_total_order, number_of, parse_number};
use vstd::prelude::*;
use vstd::utf8::{encode_utf8, valid_utf8};

verus! {

/// An IPv4 address and a port as one number, ordered as the pair of them is.
pub type SocketNumber = u64;

/// Where a channel is found in multicast.
#[derive(Debug, Clone, Copy, PartialEq, Eq, Structural)]
pub struct PointerToMulticast {
    pub bundle_id: usize,
    pub channel_in_bundle: usize,
}

/// A channel which a transmitter offers.
#[derive(Debug, Clone, Copy, PartialEq, Eq, Structural)]
pub struct AdvertisedChannel {
    pub addr: SocketNumber,
    pub tx_channels_per_flow: usize,
    pub tx_channel_id: u16,
    pub bits_per_sample: u32,
    pub dbcp1: u16,
    /// minimum Frames Per Packet supported by transmitter (Frame = single samples of all channels)
    pub fpp_min: u16,
    /// maximum Frames Per Packet supported by transmitter (Frame = single samples of all channels)
    pub fpp_max: u16,
    pub min_rx_latency_ns: usize,
    pub multicast: Option<PointerToMulticast>,
}

/// A multicast flow which a transmitter sends.
#[derive(Debug, Clone, Copy, PartialEq, Eq, Structural)]
pub struct AdvertisedBundle {
    pub media_addr: SocketNumber,
    pub tx_channels_per_flow: usize,
    pub bits_per_sample: u32,
    pub min_rx_latency_ns: usize,
}

/// Why nothing useful was found.
#[derive(Debug, Clone, Copy, PartialEq, Eq, Structural)]
pub enum QueryError {
    NotFound,
    /// two values were expected
    InvalidData,
    /// a description is not UTF-8
    InvalidText,
    /// a value should have been a number
    InvalidNumber,
}

// ---------------------------------------------------------------------------------------------
// Properties
// ---------------------------------------------------------------------------------------------

/// The place of the byte at `from` or after it; the end of the text if there is none.
pub open spec fn place_of(text: Seq<u8>, b: u8, from: int) -> int
    decreases text.len() - from,
{
    if from >= text.len() || text[from] == b {
        from
    } else {
        place_of(text, b, from + 1)
    }
}

/// What stands before and after the first byte `b`; `None` if there is none.
pub open spec fn split_once(text: Seq<u8>, b: u8) -> Option<(Seq<u8>, Seq<u8>)> {
    let at = place_of(text, b, 0);
    if at < text.len() {
        Some((text.take(at), text.skip(at + 1)))
    } else {
        None
    }
}

fn find_byte(text: &[u8], b: u8) -> (at: usize)
    ensures
        at == place_of(text@, b, 0),
        at <= text@.len(),
{
    let mut i: usize = 0;
    while i < text.len() && text[i] != b
        invariant
            i <= text@.len(),
            place_of(text@, b, 0) == place_of(text@, b, i as int),
        decreases text@.len() - i,
    {
        i = i + 1;
    }
    i
}

fn copy_bytes(bytes: &[u8], from: usize, to: usize) -> (copy: Vec<u8>)
    requires
        from <= to <= bytes@.len(),
    ensures
        copy@ == bytes@.subrange(from as int, to as int),
{
    let mut copy: Vec<u8> = Vec::new();
    let mut i: usize = from;
    while i < to
        invariant
            from <= i <= to <= bytes@.len(),
            copy@ == bytes@.subrange(from as int, i as int),
        decreases to - i,
    {
        copy.push(bytes[i]);
        i = i + 1;
        assert(copy@ =~= bytes@.subrange(from as int, i as int));
    }
    assert(copy@ =~= bytes@.subrange(from as int, to as int));
    copy
}

fn same_bytes(a: &[u8], b: &[u8]) -> (same: bool)
    ensures
        same == (a@ == b@),
{
    if a.len() != b.len() {
        return false;
    }
    let mut i: usize = 0;
    while i < a.len()
        invariant
            i <= a@.len(),
            a@.len() == b@.len(),
            forall|j: int| 0 <= j < i ==> a@[j] == b@[j],
        decreases a@.len() - i,
    {
        if a[i] != b[i] {
            return false;
        }
        i = i + 1;
    }
    assert(a@ =~= b@);
    true
}

/// Keys with values, in the order of the keys.
pub struct TxtEntries {
    entries: Vec<(Vec<u8>, Vec<u8>)>,
}

/// Whether the entry `i` has the key.
pub open spec fn has_key_at(entries: Seq<(Vec<u8>, Vec<u8>)>, i: int, key: Seq<u8>) -> bool {
    0 <= i < entries.len() && entries[i].0@ == key
}

impl TxtEntries {
    pub closed spec fn wf(&self) -> bool {
        forall|i: int, j: int|
            0 <= i < j < self.entries@.len() ==> bytes_less(
                (#[trigger] self.entries@[i]).0@,
                (#[trigger] self.entries@[j]).0@,
                0,
            )
    }

    pub closed spec fn view(&self) -> Map<Seq<u8>, Seq<u8>> {
        Map::new(
            |key: Seq<u8>| exists|i: int| has_key_at(self.entries@, i, key),
            |key: Seq<u8>| self.entries@[choose|i: int| has_key_at(self.entries@, i, key)].1@,
        )
    }

    proof fn lemma_entry(&self, i: int)
        requires
            self.wf(),
            0 <= i < self.entries@.len(),
        ensures
            self.view().contains_key(self.entries@[i].0@),
            self.view()[self.entries@[i].0@] == self.entries@[i].1@,
    {
        let key = self.entries@[i].0@;
        assert(has_key_at(self.entries@, i, key));
        let k = choose|k: int| has_key_at(self.entries@, k, key);
        bytes_less_is_total_order(key, key, key);
        assert(k == i);
    }

    pub fn new() -> (entries: Self)
        ensures
            entries.wf(),
            entries.view() == Map::<Seq<u8>, Seq<u8>>::empty(),
    {
        let entries = TxtEntries { entries: Vec::new() };
        assert(entries.view() =~= Map::<Seq<u8>, Seq<u8>>::empty());
        entries
    }

    /// Sets the value of a key.
    pub fn insert(&mut self, key: Vec<u8>, value: Vec<u8>)
        requires
            old(self).wf(),
        ensures
            final(self).wf(),
            final(self).view() == old(self).view().insert(key@, value@),
    {
        let mut i: usize = 0;
        while i < self.entries.len() && are_bytes_less(self.entries[i].0.as_slice(), key.as_slice())
            invariant
                *self == *old(self),
                i <= self.entries@.len(),
                forall|j: int| 0 <= j < i ==> bytes_less((#[trigger] self.entries@[j]).0@, key@, 0),
            decreases self.entries@.len() - i,
        {
            i = i + 1;
        }
        let ghost before = self.entries@;
        let ghost k = key@;
        let ghost v = value@;
        let replaced: bool = i < self.entries.len() && same_bytes(
            self.entries[i].0.as_slice(),
            key.as_slice(),
        );
        if replaced {
            self.entries.set(i, (key, value));
        } else {
            self.entries.insert(i, (key, value));
        }
        proof {
            let after = self.entries@;
            assert(replaced ==> after =~= before.update(i as int, after[i as int]));
            assert(!replaced ==> after =~= before.insert(i as int, after[i as int]));
            assert(after[i as int].0@ == k && after[i as int].1@ == v);
            assert forall|a: int, b: int| 0 <= a < b < after.len() implies bytes_less(
                (#[trigger] after[a]).0@,
                (#[trigger] after[b]).0@,
                0,
            ) by {
                lemma_place(before, after, i as int, k, v, replaced, a, b);
            }
            assert forall|x: Seq<u8>| #[trigger] self.view().contains_key(x) <==> old(self).view().insert(
                k,
                v,
            ).contains_key(x) by {
                if old(self).view().contains_key(x) {
                    let p = choose|p: int| has_key_at(before, p, x);
                    let q = if replaced || p < i { p } else { p + 1 };
                    assert(has_key_at(after, q, x));
                }
                assert(has_key_at(after, i as int, k));
                if self.view().contains_key(x) && x != k {
                    let q = choose|q: int| has_key_at(after, q, x);
                    let p = if replaced || q < i { q } else { q - 1 };
                    assert(has_key_at(before, p, x));
                }
            }
            assert forall|x: Seq<u8>| #[trigger] self.view().contains_key(x) implies self.view()[x]
                == old(self).view().insert(k, v)[x] by {
                let q = choose|q: int| has_key_at(after, q, x);
                self.lemma_entry(q);
                if x == k {
                    self.lemma_entry(i as int);
                } else {
                    let p = if replaced || q < i { q } else { q - 1 };
                    assert(before[p] == after[q]);
                    old(self).lemma_entry(p);
                }
            }
            assert(self.view() =~= old(self).view().insert(k, v));
        }
    }

    /// The value of a key.
    pub fn get(&self, key: &str) -> (value: Option<&Vec<u8>>)
        requires
            self.wf(),
        ensures
            value is Some <==> self.view().contains_key(encode_utf8(key@)),
            value is Some ==> value->0@ == self.view()[encode_utf8(key@)],
    {
        let bytes: &[u8] = key.as_bytes();
        let mut i: usize = 0;
        while i < self.entries.len()
            invariant
                self.wf(),
                bytes@ == encode_utf8(key@),
                i <= self.entries@.len(),
                forall|j: int| 0 <= j < i ==> (#[trigger] self.entries@[j]).0@ != bytes@,
            decreases self.entries@.len() - i,
        {
            if same_bytes(self.entries[i].0.as_slice(), bytes) {
                proof {
                    self.lemma_entry(i as int);
                }
                return Some(&self.entries[i].1);
            }
            i = i + 1;
        }
        None
    }
}

/// What stands around the place of a new or changed entry is in order.
proof fn lemma_place(
    before: Seq<(Vec<u8>, Vec<u8>)>,
    after: Seq<(Vec<u8>, Vec<u8>)>,
    i: int,
    k: Seq<u8>,
    v: Seq<u8>,
    replaced: bool,
    a: int,
    b: int,
)
    requires
        forall|x: int, y: int|
            0 <= x < y < before.len() ==> bytes_less(
                (#[trigger] before[x]).0@,
                (#[trigger] before[y]).0@,
                0,
            ),
        0 <= i <= before.len(),
        forall|j: int| 0 <= j < i ==> bytes_less((#[trigger] before[j]).0@, k, 0),
        i < before.len() ==> !bytes_less(before[i].0@, k, 0),
        replaced <==> i < before.len() && before[i].0@ == k,
        replaced ==> after == before.update(i, after[i]),
        !replaced ==> after == before.insert(i, after[i]),
        i < after.len(),
        after[i].0@ == k,
        after[i].1@ == v,
        0 <= a < b < after.len(),
    ensures
        bytes_less(after[a].0@, after[b].0@, 0),
{
    let old_a = if replaced || a < i { a } else { a - 1 };
    let old_b = if replaced || b < i { b } else { b - 1 };
    if a != i {
        assert(after[a] == before[old_a]);
    }
    if b != i {
        assert(after[b] == before[old_b]);
    }
    if a == i {
        if !replaced {
            bytes_less_is_total_order(k, before[i].0@, before[old_b].0@);
        }
    }
}

// ---------------------------------------------------------------------------------------------
// Responses
// ---------------------------------------------------------------------------------------------

/// What a record says.
pub enum RecordData {
    /// a service is found at a port of the machine with the name `target`
    Srv { target: Vec<Vec<u8>>, port: u16 },
    /// descriptions of a service
    Txt(Vec<Vec<u8>>),
    /// the address of a machine
    A([u8; 4]),
    Other,
}

/// A record of a response. Names consist of labels.
pub struct Record {
    pub name: Vec<Vec<u8>>,
    pub data: RecordData,
}

/// The lower case of an ASCII letter; anything else is left as it is.
pub open spec fn lower_case(c: u8) -> u8 {
    if 0x41 <= c <= 0x5a {
        (c + 0x20) as u8
    } else {
        c
    }
}

/// Whether labels are the same but for the case of letters.
pub open spec fn same_label(a: Seq<u8>, b: Seq<u8>) -> bool {
    &&& a.len() == b.len()
    &&& forall|i: int| 0 <= i < a.len() ==> lower_case(#[trigger] a[i]) == lower_case(b[i])
}

/// Whether names are the same but for the case of letters.
pub open spec fn same_name(a: Seq<Vec<u8>>, b: Seq<Vec<u8>>) -> bool {
    &&& a.len() == b.len()
    &&& forall|i: int| 0 <= i < a.len() ==> same_label((#[trigger] a[i])@, b[i]@)
}

fn to_lower_case(c: u8) -> (lower: u8)
    ensures
        lower == lower_case(c),
{
    if 0x41 <= c && c <= 0x5a {
        c + 0x20
    } else {
        c
    }
}

fn is_same_label(a: &[u8], b: &[u8]) -> (same: bool)
    ensures
        same == same_label(a@, b@),
{
    if a.len() != b.len() {
        return false;
    }
    let mut i: usize = 0;
    while i < a.len()
        invariant
            i <= a@.len(),
            a@.len() == b@.len(),
            forall|j: int| 0 <= j < i ==> lower_case(#[trigger] a@[j]) == lower_case(b@[j]),
        decreases a@.len() - i,
    {
        if to_lower_case(a[i]) != to_lower_case(b[i]) {
            return false;
        }
        i = i + 1;
    }
    true
}

fn is_same_name(a: &Vec<Vec<u8>>, b: &Vec<Vec<u8>>) -> (same: bool)
    ensures
        same == same_name(a@, b@),
{
    if a.len() != b.len() {
        return false;
    }
    let mut i: usize = 0;
    while i < a.len()
        invariant
            i <= a@.len(),
            a@.len() == b@.len(),
            forall|j: int| 0 <= j < i ==> same_label((#[trigger] a@[j])@, b@[j]@),
        decreases a@.len() - i,
    {
        if !is_same_label(a[i].as_slice(), b[i].as_slice()) {
            return false;
        }
        i = i + 1;
    }
    true
}

/// The properties with one more description; one without an equals sign adds nothing.
pub open spec fn with_description(
    properties: Map<Seq<u8>, Seq<u8>>,
    text: Seq<u8>,
) -> Map<Seq<u8>, Seq<u8>> {
    match split_once(text, 0x3d) {
        Some((key, value)) => properties.insert(key, value),
        None => properties,
    }
}

/// The properties with the first `n` descriptions.
pub open spec fn with_descriptions(
    properties: Map<Seq<u8>, Seq<u8>>,
    texts: Seq<Vec<u8>>,
    n: int,
) -> Map<Seq<u8>, Seq<u8>>
    decreases n,
{
    if n <= 0 {
        properties
    } else {
        with_description(with_descriptions(properties, texts, n - 1), texts[n - 1]@)
    }
}

/// The properties which the first `n` answers give to the service.
pub open spec fn properties_in(
    answers: Seq<Record>,
    name: Seq<Vec<u8>>,
    n: int,
) -> Map<Seq<u8>, Seq<u8>>
    decreases n,
{
    if n <= 0 {
        Map::empty()
    } else {
        let before = properties_in(answers, name, n - 1);
        match answers[n - 1].data {
            RecordData::Txt(texts) => if same_name(answers[n - 1].name@, name) {
                with_descriptions(before, texts@, texts@.len() as int)
            } else {
                before
            },
            _ => before,
        }
    }
}

/// Whether all descriptions are UTF-8.
pub open spec fn are_texts(texts: Seq<Vec<u8>>) -> bool {
    forall|i: int| 0 <= i < texts.len() ==> valid_utf8((#[trigger] texts[i])@)
}

/// Whether the record describes the service, with something else than texts.
pub open spec fn is_broken(record: Record, name: Seq<Vec<u8>>) -> bool {
    &&& same_name(record.name@, name)
    &&& record.data matches RecordData::Txt(texts)
    &&& !are_texts(texts@)
}

/// The last one of the first `n` answers which says where the service is found.
pub open spec fn target_in(answers: Seq<Record>, name: Seq<Vec<u8>>, n: int) -> Option<int>
    decreases n,
{
    if n <= 0 {
        None
    } else if answers[n - 1].data is Srv && same_name(answers[n - 1].name@, name) {
        Some(n - 1)
    } else {
        target_in(answers, name, n - 1)
    }
}

/// The first record at `from` or after it with the address of the machine.
pub open spec fn address_in(additionals: Seq<Record>, name: Seq<Vec<u8>>, from: int) -> Option<int>
    decreases additionals.len() - from,
{
    if from >= additionals.len() {
        None
    } else if additionals[from].data is A && same_name(additionals[from].name@, name) {
        Some(from)
    } else {
        address_in(additionals, name, from + 1)
    }
}

/// A service with its address and properties.
pub struct AdvertisedService {
    pub addr: SocketNumber,
    pub properties: TxtEntries,
}

/// Whether the result is what a response says of the service.
pub open spec fn is_answer(
    r: Result<AdvertisedService, QueryError>,
    name: Seq<Vec<u8>>,
    answers: Seq<Record>,
    additionals: Seq<Record>,
) -> bool {
    if exists|i: int| 0 <= i < answers.len() && is_broken(#[trigger] answers[i], name) {
        r == Err::<AdvertisedService, QueryError>(QueryError::InvalidText)
    } else {
        match target_in(answers, name, answers.len() as int) {
            None => r == Err::<AdvertisedService, QueryError>(QueryError::NotFound),
            Some(t) => {
                let target = answers[t].data->target@;
                match address_in(additionals, target, 0) {
                    None => r == Err::<AdvertisedService, QueryError>(QueryError::NotFound),
                    Some(a) => {
                        &&& r is Ok
                        &&& r->Ok_0.addr == socket_number(additionals[a].data->A_0@, answers[t].data->port)
                        &&& r->Ok_0.properties.wf()
                        &&& r->Ok_0.properties.view() == properties_in(answers, name, answers.len() as int)
                    },
                }
            },
        }
    }
}

/// Adds what a record says; `false` if a description is not a text.
fn add_descriptions(properties: &mut TxtEntries, texts: &Vec<Vec<u8>>) -> (valid: bool)
    requires
        old(properties).wf(),
    ensures
        final(properties).wf(),
        valid == are_texts(texts@),
        valid ==> final(properties).view() == with_descriptions(
            old(properties).view(),
            texts@,
            texts@.len() as int,
        ),
{
    let mut i: usize = 0;
    while i < texts.len()
        invariant
            i <= texts@.len(),
            properties.wf(),
            forall|j: int| 0 <= j < i ==> valid_utf8((#[trigger] texts@[j])@),
            properties.view() == with_descriptions(old(properties).view(), texts@, i as int),
        decreases texts@.len() - i,
    {
        let text: &[u8] = texts[i].as_slice();
        if from_utf8(text).is_err() {
            assert(!valid_utf8(texts@[i as int]@));
            return false;
        }
        let at: usize = find_byte(text, 0x3d);
        if at < text.len() {
            let key = copy_bytes(text, 0, at);
            let value = copy_bytes(text, at + 1, text.len());
            assert(key@ =~= text@.take(at as int));
            assert(value@ =~= text@.skip(at + 1));
            properties.insert(key, value);
        }
        i = i + 1;
    }
    true
}

/// The address of the machine, if a record gives it.
fn find_address(additionals: &Vec<Record>, machine: &Vec<Vec<u8>>) -> (address: Option<[u8; 4]>)
    ensures
        address is Some <==> address_in(additionals@, machine@, 0) is Some,
        address is Some ==> address->0@ == additionals@[address_in(additionals@, machine@, 0)->0].data->A_0@,
{
    let mut k: usize = 0;
    while k < additionals.len()
        invariant
            k <= additionals@.len(),
            address_in(additionals@, machine@, 0) == address_in(additionals@, machine@, k as int),
        decreases additionals@.len() - k,
    {
        if is_same_name(&additionals[k].name, machine) {
            if let RecordData::A(a) = &additionals[k].data {
                return Some(*a);
            }
        }
        k = k + 1;
    }
    None
}

/// Reads what a response says of the service with the given name.
pub fn read_response(name: &Vec<Vec<u8>>, answers: &Vec<Record>, additionals: &Vec<Record>) -> (r: Result<
    AdvertisedService,
    QueryError,
>)
    ensures
        is_answer(r, name@, answers@, additionals@),
{
    let mut target: Option<usize> = None;
    let mut properties = TxtEntries::new();
    let mut i: usize = 0;
    while i < answers.len()
        invariant
            i <= answers@.len(),
            properties.wf(),
            forall|j: int| 0 <= j < i ==> !is_broken(#[trigger] answers@[j], name@),
            properties.view() == properties_in(answers@, name@, i as int),
            target is Some <==> target_in(answers@, name@, i as int) is Some,
            target is Some ==> target->0 == target_in(answers@, name@, i as int)->0 && target->0 < i
                && answers@[target->0 as int].data is Srv,
        decreases answers@.len() - i,
    {
        if is_same_name(&answers[i].name, name) {
            match &answers[i].data {
                RecordData::Srv { target: _, port: _ } => {
                    target = Some(i);
                },
                RecordData::Txt(texts) => {
                    if !add_descriptions(&mut properties, texts) {
                        assert(is_broken(answers@[i as int], name@));
                        return Err(QueryError::InvalidText);
                    }
                },
                _ => {},
            }
        }
        i = i + 1;
    }
    let t: usize = match target {
        Some(t) => t,
        None => {
            return Err(QueryError::NotFound);
        },
    };
    if let RecordData::Srv { target: machine, port } = &answers[t].data {
        if let Some(ip) = find_address(additionals, machine) {
            return Ok(AdvertisedService { addr: make_socket_number(ip, *port), properties });
        }
    }
    Err(QueryError::NotFound)
}

// ---------------------------------------------------------------------------------------------
// Channels
// ---------------------------------------------------------------------------------------------

/// Whether the text starts with the given two bytes.
pub open spec fn starts_with(text: Seq<u8>, a: u8, b: u8) -> bool {
    text.len() >= 2 && text[0] == a && text[1] == b
}

/// The number in a property: hexadecimal after `0x`, else decimal.
pub open spec fn property_number(properties: Map<Seq<u8>, Seq<u8>>, key: Seq<u8>) -> Result<int, QueryError> {
    if !properties.contains_key(key) {
        Err(QueryError::NotFound)
    } else {
        let text = properties[key];
        let number = if starts_with(text, 0x30, 0x78) {
            number_of(text.skip(2), 16, usize::MAX as int)
        } else {
            number_of(text, 10, usize::MAX as int)
        };
        match number {
            Some(v) => Ok(v),
            None => Err(QueryError::InvalidNumber),
        }
    }
}

/// Whether the key is the first one, in the order of keys, which points to a multicast.
pub open spec fn is_multicast_key(properties: Map<Seq<u8>, Seq<u8>>, key: Seq<u8>) -> bool {
    &&& properties.contains_key(key)
    &&& starts_with(key, 0x62, 0x2e)
    &&& forall|k: Seq<u8>| #[trigger]
        properties.contains_key(k) && starts_with(k, 0x62, 0x2e) ==> !bytes_less(k, key, 0)
}

/// The multicast to which a key and its value point; `None` if they are not numbers.
pub open spec fn multicast_pointer(key: Seq<u8>, value: Seq<u8>) -> Option<PointerToMulticast> {
    let bundle = number_of(key.skip(2), 10, usize::MAX as int);
    let channel = number_of(value, 10, usize::MAX as int);
    if bundle is Some && channel is Some {
        Some(PointerToMulticast { bundle_id: bundle->0 as usize, channel_in_bundle: channel->0 as usize })
    } else {
        None
    }
}

/// Whether the properties point to the multicast.
pub open spec fn points_to(
    properties: Map<Seq<u8>, Seq<u8>>,
    multicast: Option<PointerToMulticast>,
) -> bool {
    ||| exists|key: Seq<u8>|
        #![trigger is_multicast_key(properties, key)]
        is_multicast_key(properties, key) && multicast == multicast_pointer(key, properties[key])
    ||| multicast is None && forall|key: Seq<u8>| #[trigger]
        properties.contains_key(key) ==> !starts_with(key, 0x62, 0x2e)
}

/// Bits per sample are given by either of two properties.
pub open spec fn bits_per_sample(properties: Map<Seq<u8>, Seq<u8>>) -> Result<int, QueryError> {
    match property_number(properties, encode_utf8("enc"@)) {
        Ok(v) => Ok(v),
        Err(_) => property_number(properties, encode_utf8("en"@)),
    }
}

/// A number of frames per packet.
pub open spec fn frames_number(text: Seq<u8>) -> Result<int, QueryError> {
    match number_of(text, 10, u16::MAX as int) {
        Some(v) => Ok(v),
        None => Err(QueryError::InvalidNumber),
    }
}

/// The texts of the greatest and the least number of frames per packet.
pub open spec fn frames_texts(properties: Map<Seq<u8>, Seq<u8>>) -> Result<(Seq<u8>, Seq<u8>), QueryError> {
    let key = encode_utf8("fpp"@);
    if !properties.contains_key(key) {
        Err(QueryError::NotFound)
    } else {
        match split_once(properties[key], 0x2c) {
            Some(texts) => Ok(texts),
            None => Err(QueryError::InvalidData),
        }
    }
}

/// What is wrong with the properties of a channel, the first thing in the order in which
/// they are read.
pub open spec fn channel_error(properties: Map<Seq<u8>, Seq<u8>>) -> Option<QueryError> {
    let fpp = frames_texts(properties);
    let nchan = property_number(properties, encode_utf8("nchan"@));
    let id = property_number(properties, encode_utf8("id"@));
    let bits = bits_per_sample(properties);
    let dbcp1 = property_number(properties, encode_utf8("dbcp1"@));
    let fpp_min = frames_number(fpp->Ok_0.1);
    let fpp_max = frames_number(fpp->Ok_0.0);
    let latency = property_number(properties, encode_utf8("latency_ns"@));
    if fpp is Err {
        Some(fpp->Err_0)
    } else if nchan is Err {
        Some(nchan->Err_0)
    } else if id is Err {
        Some(id->Err_0)
    } else if bits is Err {
        Some(bits->Err_0)
    } else if dbcp1 is Err {
        Some(dbcp1->Err_0)
    } else if fpp_min is Err {
        Some(fpp_min->Err_0)
    } else if fpp_max is Err {
        Some(fpp_max->Err_0)
    } else if latency is Err {
        Some(latency->Err_0)
    } else {
        None
    }
}

/// Whether the channel is the one which the properties describe. Numbers which are too long lose
/// their upper bits.
pub open spec fn is_channel_of(
    channel: AdvertisedChannel,
    addr: SocketNumber,
    properties: Map<Seq<u8>, Seq<u8>>,
) -> bool {
    &&& channel.addr == addr
    &&& channel.tx_channels_per_flow == property_number(properties, encode_utf8("nchan"@))->Ok_0
    &&& channel.tx_channel_id == property_number(properties, encode_utf8("id"@))->Ok_0 % 0x1_0000
    &&& channel.bits_per_sample == bits_per_sample(properties)->Ok_0 % 0x1_0000_0000
    &&& channel.dbcp1 == property_number(properties, encode_utf8("dbcp1"@))->Ok_0 % 0x1_0000
    &&& channel.fpp_min == frames_number(frames_texts(properties)->Ok_0.1)->Ok_0
    &&& channel.fpp_max == frames_number(frames_texts(properties)->Ok_0.0)->Ok_0
    &&& channel.min_rx_latency_ns == property_number(properties, encode_utf8("latency_ns"@))->Ok_0
    &&& points_to(properties, channel.multicast)
}

fn parse_usize(text: &[u8], radix: u64) -> (number: Option<usize>)
    requires
        1 <= radix <= 16,
    ensures
        number is Some <==> number_of(text@, radix as int, usize::MAX as int) is Some,
        number is Some ==> number->0 == number_of(text@, radix as int, usize::MAX as int)->0,
{
    match parse_number(text, radix, usize::MAX as u64) {
        Some(v) => Some(v as usize),
        None => None,
    }
}

fn parse_int(properties: &TxtEntries, key: &str) -> (r: Result<usize, QueryError>)
    requires
        properties.wf(),
    ensures
        r is Err <==> property_number(properties.view(), encode_utf8(key@)) is Err,
        r is Err ==> r->Err_0 == property_number(properties.view(), encode_utf8(key@))->Err_0,
        r is Ok ==> r->Ok_0 == property_number(properties.view(), encode_utf8(key@))->Ok_0,
{
    match properties.get(key) {
        Some(s) => {
            let number: Option<usize> = if s.len() >= 2 && s[0] == 0x30 && s[1] == 0x78 {
                let digits = &s.as_slice()[2..s.len()];
                assert(digits@ =~= s@.skip(2));
                parse_usize(digits, 16)
            } else {
                parse_usize(s.as_slice(), 10)
            };
            match number {
                Some(v) => Ok(v),
                None => Err(QueryError::InvalidNumber),
            }
        },
        None => Err(QueryError::NotFound),
    }
}

fn parse_frames(text: &[u8]) -> (r: Result<u16, QueryError>)
    ensures
        r is Err <==> frames_number(text@) is Err,
        r is Err ==> r->Err_0 == frames_number(text@)->Err_0,
        r is Ok ==> r->Ok_0 == frames_number(text@)->Ok_0,
{
    match parse_number(text, 10, u16::MAX as u64) {
        Some(v) => Ok(v as u16),
        None => Err(QueryError::InvalidNumber),
    }
}

impl TxtEntries {
    /// The multicast to which the first key with the prefix `b.` points.
    fn find_multicast(&self) -> (multicast: Option<PointerToMulticast>)
        requires
            self.wf(),
        ensures
            points_to(self.view(), multicast),
    {
        let mut i: usize = 0;
        while i < self.entries.len()
            invariant
                self.wf(),
                i <= self.entries@.len(),
                forall|j: int| 0 <= j < i ==> !starts_with((#[trigger] self.entries@[j]).0@, 0x62, 0x2e),
            decreases self.entries@.len() - i,
        {
            let key = self.entries[i].0.as_slice();
            if key.len() >= 2 && key[0] == 0x62 && key[1] == 0x2e {
                proof {
                    self.lemma_entry(i as int);
                    let p = self.view();
                    assert forall|k: Seq<u8>| #[trigger] p.contains_key(k) && starts_with(k, 0x62, 0x2e) implies !bytes_less(
                        k,
                        key@,
                        0,
                    ) by {
                        let j = choose|j: int| has_key_at(self.entries@, j, k);
                        if j != i {
                            bytes_less_is_total_order(self.entries@[i as int].0@, self.entries@[j].0@, k);
                        } else {
                            bytes_less_is_total_order(k, k, k);
                        }
                    }
                    assert(is_multicast_key(p, key@));
                }
                let digits = &key[2..key.len()];
                assert(digits@ =~= key@.skip(2));
                return match parse_usize(digits, 10) {
                    Some(bundle_id) => match parse_usize(self.entries[i].1.as_slice(), 10) {
                        Some(channel_in_bundle) => Some(PointerToMulticast { bundle_id, channel_in_bundle }),
                        None => None,
                    },
                    None => None,
                };
            }
            i = i + 1;
        }
        proof {
            assert forall|k: Seq<u8>| #[trigger] self.view().contains_key(k) implies !starts_with(k, 0x62, 0x2e) by {
                let j = choose|j: int| has_key_at(self.entries@, j, k);
                assert(!starts_with(self.entries@[j].0@, 0x62, 0x2e));
            }
        }
        None
    }
}

/// Reads the properties of a channel which a transmitter offers.
pub fn read_channel(service: &AdvertisedService) -> (r: Result<AdvertisedChannel, QueryError>)
    requires
        service.properties.wf(),
    ensures
        r is Err <==> channel_error(service.properties.view()) is Some,
        r is Err ==> r->Err_0 == channel_error(service.properties.view())->0,
        r is Ok ==> is_channel_of(r->Ok_0, service.addr, service.properties.view()),
{
    let properties = &service.properties;
    let multicast = properties.find_multicast();
    let fpp: &[u8] = match properties.get("fpp") {
        Some(fpp) => fpp.as_slice(),
        None => {
            return Err(QueryError::NotFound);
        },
    };
    let comma: usize = find_byte(fpp, 0x2c);
    if comma == fpp.len() {
        return Err(QueryError::InvalidData);
    }
    let fpp1 = &fpp[0..comma];
    let fpp2 = &fpp[comma + 1..fpp.len()];
    assert(fpp1@ =~= fpp@.take(comma as int));
    assert(fpp2@ =~= fpp@.skip(comma + 1));
    let tx_channels_per_flow: usize = match parse_int(properties, "nchan") {
        Ok(v) => v,
        Err(e) => {
            return Err(e);
        },
    };
    let id: usize = match parse_int(properties, "id") {
        Ok(v) => v,
        Err(e) => {
            return Err(e);
        },
    };
    let bits: usize = match parse_int(properties, "enc") {
        Ok(v) => v,
        Err(_) => match parse_int(properties, "en") {
            Ok(v) => v,
            Err(e) => {
                return Err(e);
            },
        },
    };
    let dbcp1: usize = match parse_int(properties, "dbcp1") {
        Ok(v) => v,
        Err(e) => {
            return Err(e);
        },
    };
    let fpp_min: u16 = match parse_frames(fpp2) {
        Ok(v) => v,
        Err(e) => {
            return Err(e);
        },
    };
    let fpp_max: u16 = match parse_frames(fpp1) {
        Ok(v) => v,
        Err(e) => {
            return Err(e);
        },
    };
    let min_rx_latency_ns: usize = match parse_int(properties, "latency_ns") {
        Ok(v) => v,
        Err(e) => {
            return Err(e);
        },
    };
    Ok(
        AdvertisedChannel {
            addr: service.addr,
            tx_channels_per_flow,
            tx_channel_id: (id % 0x1_0000) as u16,
            bits_per_sample: (bits as u64 % 0x1_0000_0000) as u32,
            dbcp1: (dbcp1 % 0x1_0000) as u16,
            fpp_min,
            fpp_max,
            min_rx_latency_ns,
            multicast,
        },
    )
}

} // verus!

//! What the settings make of this device, and what it advertises.

use crate::common::lemma_signed_residue_within_turn;
use crate::device_info::{Channel, DeviceInfo};
use crate::mdns_server::{arc_service, channel_service, channel_services, cmc_service, entry, ServiceView};
use crate::ring_buffer::{lemma_isize_range, position_modulus};
use crate::self_info::{
    are_numbered, device_id_of, first_address, is_self, name_of, settings_error, InterfaceAddress, Settings, SettingsError,
};
use crate::soundcard::{doublings, StreamDirection, StreamPosition, Streams};
use crate::text::{
    decimal, decimal_is_read_back, decimal_of_two, digit_value, digits_value, lemma_decimal_digits, number_of,
};
use crate::wired::{trigger_count, Direction};
use vstd::prelude::*;
use vstd::utf8::encode_utf8;

verus! {

// ---------------------------------------------------------------------------------------------
// Numbers as text
// ---------------------------------------------------------------------------------------------

/// Decimal digits are the characters from 0 to 9; hexadecimal ones are also letters up to F, of either
/// case.
pub proof fn digits_have_their_values(c: u8)
    ensures
        0x30 <= c <= 0x39 ==> digit_value(c, 10) == Some(c - 0x30) && digit_value(c, 16) == Some(c - 0x30),
        c < 0x30 || c > 0x39 ==> digit_value(c, 10) is None,
        0x41 <= c <= 0x46 ==> digit_value(c, 16) == Some(c - 0x41 + 10),
        0x61 <= c <= 0x66 ==> digit_value(c, 16) == Some(c - 0x61 + 10),
        !(0x30 <= c <= 0x39 || 0x41 <= c <= 0x46 || 0x61 <= c <= 0x66) ==> digit_value(c, 16) is None,
{
}

/// A number with one more digit is the base times as great, plus that digit; with anything else than a
/// digit it is none.
pub proof fn digits_make_numbers(digits: Seq<u8>, c: u8, radix: int, max: int)
    requires
        radix == 10 || radix == 16,
        digits.len() > 0,
        digits[0] != 0x2b,
        c != 0x2b,
    ensures
        number_of(seq![c], radix, max) == (match digit_value(c, radix) {
            Some(d) => if d <= max { Some(d) } else { None },
            None => None,
        }),
        digit_value(c, radix) is None ==> number_of(digits.push(c), radix, max) is None,
        number_of(digits, radix, max) is None ==> number_of(digits.push(c), radix, max) is None,
        number_of(digits, radix, max) matches Some(v) ==> digit_value(c, radix) matches Some(d) ==> number_of(
            digits.push(c),
            radix,
            max,
        ) == if v * radix + d <= max { Some(v * radix + d) } else { None },
        number_of(digits, radix, max) matches Some(v) ==> 0 <= v <= max,
{
    let single = seq![c];
    assert(single.drop_last() =~= Seq::empty());
    assert(digits_value(Seq::<u8>::empty(), radix) == Some(0int));
    assert(single.last() == c);
    assert(digits_value(single, radix) == match digit_value(c, radix) {
        Some(d) => Some(0 * radix + d),
        None => None,
    });
    let more = digits.push(c);
    assert(more.drop_last() =~= digits);
    assert(more[0] == digits[0]);
    lemma_value_is_not_negative(digits, radix);
    if digits_value(digits, radix) is Some {
        let v = digits_value(digits, radix)->0;
        assert(v * radix >= v) by (nonlinear_arith)
            requires
                v >= 0,
                radix >= 1,
        ;
    }
}

proof fn lemma_value_is_not_negative(digits: Seq<u8>, radix: int)
    requires
        radix >= 1,
    ensures
        digits_value(digits, radix) matches Some(v) ==> v >= 0,
    decreases digits.len(),
{
    if digits.len() > 0 {
        lemma_value_is_not_negative(digits.drop_last(), radix);
        if let Some(v) = digits_value(digits.drop_last(), radix) {
            assert(v * radix >= 0) by (nonlinear_arith)
                requires
                    v >= 0,
                    radix >= 1,
            ;
        }
    }
}

/// A number which is read is not negative, and not greater than it may be.
pub proof fn numbers_are_within_their_limit(text: Seq<u8>, max: int)
    ensures
        number_of(text, 10, max) matches Some(v) ==> 0 <= v <= max,
        number_of(text, 16, max) matches Some(v) ==> 0 <= v <= max,
{
    let digits = if text.len() > 0 && text[0] == 0x2b { text.skip(1) } else { text };
    lemma_value_is_not_negative(digits, 10);
    lemma_value_is_not_negative(digits, 16);
}

/// A plus before a number makes no difference, and no digits are no number.
pub proof fn plus_makes_no_difference(digits: Seq<u8>, radix: int, max: int)
    requires
        digits.len() > 0 ==> digits[0] != 0x2b,
    ensures
        number_of(seq![0x2bu8] + digits, radix, max) == number_of(digits, radix, max),
        number_of(Seq::empty(), radix, max) is None,
{
    assert((seq![0x2bu8] + digits).skip(1) =~= digits);
}

/// Numbers with at least two digits are the same numbers.
pub proof fn two_digits_are_read_back(n: nat, max: int)
    requires
        n <= max,
    ensures
        decimal_of_two(n).len() >= 2,
        number_of(encode_utf8(decimal_of_two(n)), 10, max) == Some(n as int),
{
    decimal_is_read_back(n, max);
    lemma_decimal_digits(n);
    if n < 10 {
        let chars = decimal_of_two(n);
        let digit = crate::text::digit_char(n as int);
        assert(chars =~= seq!['0', digit]);
        vstd::utf8::is_ascii_chars_encode_utf8(chars);
        let bytes = encode_utf8(chars);
        assert(bytes =~= seq!['0' as u8, digit as u8]);
        let first = seq!['0' as u8];
        assert(bytes =~= first.push(digit as u8));
        digits_make_numbers(first, digit as u8, 10, max);
        digits_make_numbers(first, '0' as u8, 10, max);
    } else {
        assert(decimal(n).len() == decimal(n / 10).len() + 1);
        lemma_decimal_digits(n / 10);
    }
}

// ---------------------------------------------------------------------------------------------
// Settings
// ---------------------------------------------------------------------------------------------

/// The address of a network interface is the first one which is listed under its name.
pub proof fn address_is_that_of_the_interface(interfaces: Seq<InterfaceAddress>, name: Seq<char>)
    ensures
        first_address(interfaces, name) is None ==> forall|i: int|
            0 <= i < interfaces.len() ==> (#[trigger] interfaces[i]).name@ != name,
        first_address(interfaces, name) matches Some(ip) ==> exists|i: int|
            0 <= i < interfaces.len() && (#[trigger] interfaces[i]).name@ == name && interfaces[i].ip == ip && forall|
                j: int,
            |
                0 <= j < i ==> (#[trigger] interfaces[j]).name@ != name,
    decreases interfaces.len(),
{
    if interfaces.len() > 0 {
        let rest = interfaces.drop_first();
        address_is_that_of_the_interface(rest, name);
        if interfaces[0].name@ != name {
            if first_address(rest, name) is None {
                assert forall|i: int| 0 <= i < interfaces.len() implies (#[trigger] interfaces[i]).name@ != name by {
                    if i > 0 {
                        assert(rest[i - 1] == interfaces[i]);
                    }
                }
            } else {
                let ip = first_address(rest, name)->0;
                let i = choose|i: int|
                    0 <= i < rest.len() && (#[trigger] rest[i]).name@ == name && rest[i].ip == ip && forall|j: int|
                        0 <= j < i ==> (#[trigger] rest[j]).name@ != name;
                assert(interfaces[i + 1] == rest[i]);
                assert forall|j: int| 0 <= j < i + 1 implies (#[trigger] interfaces[j]).name@ != name by {
                    if j > 0 {
                        assert(rest[j - 1] == interfaces[j]);
                    }
                }
            }
        } else {
            assert(interfaces[0].ip == first_address(interfaces, name)->0);
        }
    }
}

/// The number which is set.
pub open spec fn number_in(setting: Option<String>, max: int) -> Option<int> {
    match setting {
        Some(text) => number_of(encode_utf8(text@), 10, max),
        None => None,
    }
}

/// A device listens at the usual ports, or at four ports from the one on which is set; its sample rate and
/// its process are those which are set, or 48000 and 0.
pub proof fn numbers_of_the_device_are_those_which_are_set(
    info: DeviceInfo,
    app_name: Seq<char>,
    short_app_name: Seq<char>,
    ip: Seq<u8>,
    settings: &Settings,
)
    requires
        is_self(info, app_name, short_app_name, ip, settings),
        settings_error(settings) is None,
    ensures
        settings.alt_port is None ==> info.arc_port == 4400 && info.cmc_port == 8800 && info.flows_control_port == 4455
            && info.info_request_port == 8700,
        settings.alt_port is Some ==> {
            &&& number_in(settings.alt_port, 65532) == Some(info.arc_port as int)
            &&& info.cmc_port == info.arc_port + 1
            &&& info.flows_control_port == info.arc_port + 2
            &&& info.info_request_port == info.arc_port + 3
        },
        settings.sample_rate is None ==> info.sample_rate == 48000,
        settings.sample_rate is Some ==> number_in(settings.sample_rate, 0xffff_ffff) == Some(info.sample_rate as int),
        settings.process_id is None ==> info.process_id == 0,
        settings.process_id is Some ==> number_in(settings.process_id, 0xffff) == Some(info.process_id as int),
        info.ip_address@ == ip,
        info.model_name@ == app_name,
        info.factory_device_id@ == device_id_of(settings, ip),
        info.friendly_hostname@ == name_of(settings, app_name, ip),
        info.bits_per_sample == 24,
        info.latency_ns == 10_000_000,
{
}

/// Settings are wrong if and only if one of them cannot be read, and the first of these is reported.
pub proof fn wrong_settings_are_reported(settings: &Settings)
    ensures
        settings_error(settings) == Some(SettingsError::SampleRate) ==> settings.sample_rate is Some && number_in(
            settings.sample_rate,
            0xffff_ffff,
        ) is None,
        settings_error(settings) == Some(SettingsError::ProcessId) ==> settings.process_id is Some && number_in(
            settings.process_id,
            0xffff,
        ) is None,
        settings_error(settings) == Some(SettingsError::AltPort) ==> settings.alt_port is Some && number_in(
            settings.alt_port,
            65532,
        ) is None,
        settings_error(settings) == Some(SettingsError::DeviceId) ==> settings.device_id is Some,
        settings_error(settings) is None ==> {
            &&& settings.sample_rate is Some ==> number_in(settings.sample_rate, 0xffff_ffff) is Some
            &&& settings.process_id is Some ==> number_in(settings.process_id, 0xffff) is Some
            &&& settings.alt_port is Some ==> number_in(settings.alt_port, 65532) is Some
            &&& settings.device_id matches Some(id) ==> encode_utf8(id@).len() == 16 && forall|i: int|
                0 <= i < 16 ==> digit_value(#[trigger] encode_utf8(id@)[i], 16) is Some
        },
{
}

/// An identifier which is set has, for each two hexadecimal digits, the byte which they make; one which is
/// not set is made of the address, between two zeros on either side.
pub proof fn identifier_is_the_one_which_is_set(settings: &Settings, ip: Seq<u8>, i: int)
    requires
        settings_error(settings) is None,
        ip.len() == 4,
        0 <= i < 8,
    ensures
        device_id_of(settings, ip).len() == 8,
        settings.device_id matches Some(id) ==> device_id_of(settings, ip)[i] == digit_value(
            encode_utf8(id@)[2 * i],
            16,
        )->0 * 16 + digit_value(encode_utf8(id@)[2 * i + 1], 16)->0,
        settings.device_id is None ==> device_id_of(settings, ip)[i] == if 2 <= i < 6 { ip[i - 2] } else { 0 },
{
    if let Some(id) = settings.device_id {
        let text = encode_utf8(id@);
        assert(digit_value(text[2 * i], 16) is Some);
        assert(digit_value(text[2 * i + 1], 16) is Some);
    }
}

/// A name which is set is the name of the device.
pub proof fn name_is_the_one_which_is_set(settings: &Settings, app_name: Seq<char>, ip: Seq<u8>)
    ensures
        settings.name matches Some(name) ==> name_of(settings, app_name, ip) == name@,
        settings.name is None ==> name_of(settings, app_name, ip).take(app_name.len() as int) == app_name,
{
    if settings.name is None {
        assert(name_of(settings, app_name, ip).take(app_name.len() as int) =~= app_name);
    }
}

// ---------------------------------------------------------------------------------------------
// Services
// ---------------------------------------------------------------------------------------------

/// Whether the service is that of the transmit channel under the name.
pub open spec fn advertises(service: ServiceView, info: &DeviceInfo, index: int, name: Seq<char>) -> bool {
    &&& service.kind is Channel
    &&& service.name == name + "@"@ + info.friendly_hostname@
    &&& service.port == info.flows_control_port
    &&& service.texts.len() >= 11
    &&& service.texts[3] == "id"@ + "="@ + decimal((index + 1) as nat)
    &&& service.texts[4] == "rate"@ + "="@ + decimal(info.sample_rate as nat)
    &&& service.texts[8] == "latency_ns"@ + "="@ + decimal(info.latency_ns as nat)
}

/// Whether the service is that of one of the first `n` transmit channels, under one of its names.
pub open spec fn is_advertised_channel(service: ServiceView, info: &DeviceInfo, n: int) -> bool {
    exists|i: int|
        0 <= i < n && (#[trigger] advertises(service, info, i, info.tx_channels@[i].factory_name@) || advertises(
            service,
            info,
            i,
            info.tx_channels@[i].friendly_name@,
        ))
}

proof fn lemma_channel_service(info: &DeviceInfo, index: int, name: Seq<char>, default: bool)
    ensures
        advertises(channel_service(info, index, name, default), info, index, name),
{
    let texts = crate::mdns_server::channel_texts(info, index);
    assert(texts.len() == 11);
    assert(texts.push("default"@)[3] == texts[3]);
    assert(texts[3] == entry("id"@, decimal((index + 1) as nat)));
}

/// Whether one of the services is that of the transmit channel under the name.
pub open spec fn is_among(services: Seq<ServiceView>, info: &DeviceInfo, index: int, name: Seq<char>) -> bool {
    exists|s: int| 0 <= s < services.len() && advertises(#[trigger] services[s], info, index, name)
}

proof fn lemma_among_more(services: Seq<ServiceView>, more: ServiceView, info: &DeviceInfo, index: int, name: Seq<char>)
    ensures
        is_among(services, info, index, name) ==> is_among(services.push(more), info, index, name),
        advertises(more, info, index, name) ==> is_among(services.push(more), info, index, name),
{
    let all = services.push(more);
    if is_among(services, info, index, name) {
        let s = choose|s: int| 0 <= s < services.len() && advertises(#[trigger] services[s], info, index, name);
        assert(all[s] == services[s]);
    }
    assert(all[services.len() as int] == more);
}

proof fn lemma_advertised_of_more(service: ServiceView, info: &DeviceInfo, n: int)
    requires
        0 < n,
    ensures
        is_advertised_channel(service, info, n - 1) ==> is_advertised_channel(service, info, n),
        advertises(service, info, n - 1, info.tx_channels@[n - 1].factory_name@) || advertises(
            service,
            info,
            n - 1,
            info.tx_channels@[n - 1].friendly_name@,
        ) ==> is_advertised_channel(service, info, n),
{
    if is_advertised_channel(service, info, n - 1) {
        let i = choose|i: int|
            0 <= i < n - 1 && (#[trigger] advertises(service, info, i, info.tx_channels@[i].factory_name@)
                || advertises(service, info, i, info.tx_channels@[i].friendly_name@));
        assert(advertises(service, info, i, info.tx_channels@[i].factory_name@) || advertises(
            service,
            info,
            i,
            info.tx_channels@[i].friendly_name@,
        ));
    }
    let last = advertises(service, info, n - 1, info.tx_channels@[n - 1].factory_name@);
}

/// Every transmit channel is advertised under its default name and under the name which the user gave to
/// it.
pub proof fn all_channels_are_advertised(info: &DeviceInfo, n: int, i: int)
    requires
        0 <= i < n <= info.tx_channels@.len(),
    ensures
        is_among(channel_services(info, n), info, i, info.tx_channels@[i].factory_name@),
        is_among(channel_services(info, n), info, i, info.tx_channels@[i].friendly_name@),
    decreases n,
{
    let before = channel_services(info, n - 1);
    let ch = info.tx_channels@[n - 1];
    let factory = info.tx_channels@[i].factory_name@;
    let friendly = info.tx_channels@[i].friendly_name@;
    let default = channel_service(info, n - 1, ch.factory_name@, true);
    let other = channel_service(info, n - 1, ch.friendly_name@, false);
    lemma_channel_service(info, n - 1, ch.factory_name@, true);
    lemma_channel_service(info, n - 1, ch.friendly_name@, false);
    if i < n - 1 {
        all_channels_are_advertised(info, n - 1, i);
    }
    lemma_among_more(before, default, info, i, factory);
    lemma_among_more(before, default, info, i, friendly);
    lemma_among_more(before.push(default), other, info, i, factory);
    lemma_among_more(before.push(default), other, info, i, friendly);
}

/// No channels are advertised but those which there are, under their names.
pub proof fn only_channels_of_the_device_are_advertised(info: &DeviceInfo, n: int, s: int)
    requires
        0 <= n <= info.tx_channels@.len(),
        0 <= s < channel_services(info, n).len(),
    ensures
        is_advertised_channel(channel_services(info, n)[s], info, n),
    decreases n,
{
    if n > 0 {
        let before = channel_services(info, n - 1);
        let ch = info.tx_channels@[n - 1];
        lemma_channel_service(info, n - 1, ch.factory_name@, true);
        lemma_channel_service(info, n - 1, ch.friendly_name@, false);
        let service = channel_services(info, n)[s];
        if s < before.len() {
            only_channels_of_the_device_are_advertised(info, n - 1, s);
            assert(service == before[s]);
        }
        lemma_advertised_of_more(service, info, n);
    }
}

/// The device is advertised under its name, at the ports where it is asked for channels and for itself.
pub proof fn device_is_advertised(info: &DeviceInfo)
    ensures
        arc_service(info).kind is Arc,
        arc_service(info).name == info.friendly_hostname@,
        arc_service(info).port == info.arc_port,
        arc_service(info).texts.contains("router_info"@ + "="@ + info.board_name@),
        arc_service(info).texts.contains("mf"@ + "="@ + info.manufacturer@),
        arc_service(info).texts.contains("model"@ + "="@ + info.model_number@),
        cmc_service(info).kind is Cmc,
        cmc_service(info).name == info.friendly_hostname@,
        cmc_service(info).port == info.cmc_port,
        cmc_service(info).texts.contains("id"@ + "="@ + crate::hex_text::hex_of(info.factory_device_id@)),
        cmc_service(info).texts.contains("mf"@ + "="@ + info.manufacturer@),
        cmc_service(info).texts.contains("model"@ + "="@ + info.model_number@),
{
    let a = arc_service(info).texts;
    let c = cmc_service(info).texts;
    assert(a[3] == "router_info"@ + "="@ + info.board_name@);
    assert(a[4] == "mf"@ + "="@ + info.manufacturer@);
    assert(a[5] == "model"@ + "="@ + info.model_number@);
    assert(c[0] == "id"@ + "="@ + crate::hex_text::hex_of(info.factory_device_id@));
    assert(c[6] == "mf"@ + "="@ + info.manufacturer@);
    assert(c[7] == "model"@ + "="@ + info.model_number@);
}

// ---------------------------------------------------------------------------------------------
// Streams
// ---------------------------------------------------------------------------------------------

/// The samples since the start of a stream lead from the clock of its start to the current one, the clock
/// of transfers coming before that of the network.
pub proof fn elapsed_samples_lead_to_the_current_clock(position: StreamPosition, cur: usize, now: u64, start: usize)
    requires
        position.start_time == Some(start),
    ensures
        cur != usize::MAX ==> (start + position.elapsed(cur, Some(now)) - cur) % (usize::MAX + 1) == 0,
        cur != usize::MAX ==> position.elapsed(cur, None) == position.elapsed(cur, Some(now)),
        now <= usize::MAX ==> (start + position.elapsed(usize::MAX, Some(now)) - now) % (usize::MAX + 1) == 0,
        position.elapsed(usize::MAX, None) == 0,
        isize::MIN <= position.elapsed(cur, Some(now)) <= isize::MAX,
{
    let m = position_modulus();
    lemma_isize_range();
    crate::common::positions_are_clocks(now);
    lemma_signed_residue_within_turn(cur - start, m);
    lemma_signed_residue_within_turn(crate::common::clock_position(now) - start, m);
    vstd::arithmetic::div_mod::lemma_mod_self_0(m);
    vstd::arithmetic::div_mod::lemma_small_mod(0, m as nat);
    vstd::arithmetic::div_mod::lemma_mod_add_multiples_vanish(-m, m);
    assert((-m) % m == 0);
}

/// What is captured and not read yet is buffered by the device; what is written and not played yet is
/// buffered by the application.
pub proof fn buffered_samples_lie_between_the_pointers(elapsed: int, appl_ptr: isize)
    requires
        isize::MIN <= elapsed - appl_ptr <= isize::MAX,
        elapsed - appl_ptr > isize::MIN,
    ensures
        StreamPosition::buffered(elapsed, StreamDirection::Capture, appl_ptr) == elapsed - appl_ptr,
        StreamPosition::buffered(elapsed, StreamDirection::Playback, appl_ptr) == appl_ptr - elapsed,
{
    lemma_isize_range();
    lemma_signed_residue_within_turn(elapsed - appl_ptr, position_modulus());
    lemma_signed_residue_within_turn(appl_ptr - elapsed, position_modulus());
}

/// The offered numbers of samples go from 64 to 16384, each of them being twice the one before.
pub proof fn offered_sizes_double()
    ensures
        doublings(64) == seq![64int, 128, 256, 512, 1024, 2048, 4096, 8192, 16384],
{
    reveal_with_fuel(doublings, 10);
    assert(doublings(32768) =~= Seq::empty());
    assert(doublings(16384) =~= seq![16384int]);
    assert(doublings(8192) =~= seq![8192int, 16384]);
    assert(doublings(4096) =~= seq![4096int, 8192, 16384]);
    assert(doublings(2048) =~= seq![2048int, 4096, 8192, 16384]);
    assert(doublings(1024) =~= seq![1024int, 2048, 4096, 8192, 16384]);
    assert(doublings(512) =~= seq![512int, 1024, 2048, 4096, 8192, 16384]);
    assert(doublings(256) =~= seq![256int, 512, 1024, 2048, 4096, 8192, 16384]);
    assert(doublings(128) =~= seq![128int, 256, 512, 1024, 2048, 4096, 8192, 16384]);
    assert(doublings(64) =~= seq![64int, 128, 256, 512, 1024, 2048, 4096, 8192, 16384]);
}

/// How often a stream is triggered: not at all as long as it is ahead of the clock, twice when it lags
/// behind by more than it may, but once if it is so far away that it is moved, and once otherwise.
pub proof fn streams_are_triggered_by_their_lag(dir: Direction, drift: int, frames_per_callback: int)
    requires
        0 <= frames_per_callback <= 6000,
    ensures
        dir is FromNetwork ==> trigger_count(dir, drift, frames_per_callback) == if drift < 0 {
            0int
        } else if drift <= 2 * frames_per_callback {
            1int
        } else if drift <= 12000 {
            2int
        } else {
            1int
        },
        dir is ToNetwork ==> trigger_count(dir, drift, frames_per_callback) == if drift < -frames_per_callback {
            0int
        } else if drift <= frames_per_callback {
            1int
        } else if drift <= 12000 {
            2int
        } else {
            1int
        },
{
}

/// What is done with one of the streams concerns that stream alone.
pub proof fn streams_run_apart(streams: Streams, running: bool)
    ensures
        streams.with(StreamDirection::Capture, running).capturing == running,
        streams.with(StreamDirection::Capture, running).playing == streams.playing,
        streams.with(StreamDirection::Playback, running).playing == running,
        streams.with(StreamDirection::Playback, running).capturing == streams.capturing,
        streams.is_running(StreamDirection::Capture) == streams.capturing,
        streams.is_running(StreamDirection::Playback) == streams.playing,
{
}

/// Channels are numbered from 1 on, both in the names which they always have and in those which can be
/// changed, where the number stands at the end.
pub proof fn channels_are_numbered_from_one(channels: Seq<Channel>, prefix: Seq<char>, count: int, i: int)
    requires
        are_numbered(channels, prefix, count),
        0 <= i < count,
    ensures
        channels.len() == count,
        number_of(encode_utf8(channels[i].factory_name@), 10, i + 1) == Some(i + 1),
        channels[i].friendly_name@.len() >= prefix.len(),
        channels[i].friendly_name@.take(prefix.len() as int) == prefix,
        number_of(encode_utf8(channels[i].friendly_name@.skip(prefix.len() as int)), 10, i + 1) == Some(i + 1),
{
    let number = (i + 1) as nat;
    let name = channels[i].friendly_name@;
    assert(channels[i].factory_name@ == decimal_of_two(number));
    assert(name.take(prefix.len() as int) =~= prefix);
    assert(name.skip(prefix.len() as int) =~= decimal(number));
    decimal_is_read_back(number, i + 1);
    two_digits_are_read_back(number, i + 1);
}

} // verus!

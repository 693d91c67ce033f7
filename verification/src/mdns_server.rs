//! Services which this device advertises.

use crate::device_info::{Channel, DeviceInfo};
use crate::flows_tx::{FPP_MAX_ADVERTISED, FPP_MIN, MAX_CHANNELS_IN_FLOW};
use crate::hex_text::{encode, hex_digit, hex_of};
use crate::protocol::flows_control::low16;
use crate::text::{decimal, decimal_string};
use vstd::prelude::*;
use vstd::string::StringExecFns;

verus! {

/// Sorts of services.
#[derive(Debug, Clone, Copy, PartialEq, Eq, Structural)]
pub enum ServiceKind {
    Arc,
    Cmc,
    Channel,
}

impl ServiceKind {
    /// The label of the service type.
    pub fn label(&self) -> (label: &'static str)
        ensures
            label@ == match *self {
                ServiceKind::Arc => "_netaudio-arc"@,
                ServiceKind::Cmc => "_netaudio-cmc"@,
                ServiceKind::Channel => "_netaudio-chan"@,
            },
    {
        match self {
            ServiceKind::Arc => "_netaudio-arc",
            ServiceKind::Cmc => "_netaudio-cmc",
            ServiceKind::Channel => "_netaudio-chan",
        }
    }
}

/// What is advertised of a service.
pub struct Service {
    pub kind: ServiceKind,
    pub name: String,
    pub port: u16,
    /// entries which describe the service
    pub texts: Vec<String>,
    /// how long the advertisement is valid, if it is not as long as usual
    pub ttl: Option<u32>,
}

pub struct ServiceView {
    pub kind: ServiceKind,
    pub name: Seq<char>,
    pub port: u16,
    pub texts: Seq<Seq<char>>,
    pub ttl: Option<u32>,
}

/// The texts as sequences of characters.
pub open spec fn texts_view(texts: Seq<String>) -> Seq<Seq<char>> {
    texts.map_values(|t: String| t@)
}

impl Service {
    pub open spec fn view(&self) -> ServiceView {
        ServiceView {
            kind: self.kind,
            name: self.name@,
            port: self.port,
            texts: texts_view(self.texts@),
            ttl: self.ttl,
        }
    }
}

/// An entry with a key and a value.
pub open spec fn entry(key: Seq<char>, value: Seq<char>) -> Seq<char> {
    key + "="@ + value
}

pub fn kv(key: &str, value: &str) -> (s: String)
    ensures
        s@ == entry(key@, value@),
{
    let mut s = key.to_owned();
    s.append("=");
    s.append(value);
    s
}

/// A byte in hexadecimal digits without a leading zero.
pub open spec fn short_hex(n: u8) -> Seq<char> {
    if n < 16 {
        seq![hex_digit(n as int)]
    } else {
        seq![hex_digit(n as int / 16), hex_digit(n as int % 16)]
    }
}

fn hex_digit_str(d: u8) -> (s: &'static str)
    requires
        d < 16,
    ensures
        s@ == seq![hex_digit(d as int)],
{
    proof {
        reveal_strlit("0");
        reveal_strlit("1");
        reveal_strlit("2");
        reveal_strlit("3");
        reveal_strlit("4");
        reveal_strlit("5");
        reveal_strlit("6");
        reveal_strlit("7");
        reveal_strlit("8");
        reveal_strlit("9");
        reveal_strlit("a");
        reveal_strlit("b");
        reveal_strlit("c");
        reveal_strlit("d");
        reveal_strlit("e");
        reveal_strlit("f");
    }
    let s: &'static str = match d {
        0 => "0",
        1 => "1",
        2 => "2",
        3 => "3",
        4 => "4",
        5 => "5",
        6 => "6",
        7 => "7",
        8 => "8",
        9 => "9",
        10 => "a",
        11 => "b",
        12 => "c",
        13 => "d",
        14 => "e",
        _ => "f",
    };
    assert(s@ =~= seq![hex_digit(d as int)]);
    s
}

fn short_hex_string(n: u8) -> (s: String)
    ensures
        s@ == short_hex(n),
{
    if n < 16 {
        hex_digit_str(n).to_owned()
    } else {
        let mut s = hex_digit_str(n / 16).to_owned();
        s.append(hex_digit_str(n % 16));
        assert(s@ =~= short_hex(n));
        s
    }
}

/// How many channels a receiver may ask for in one flow.
pub open spec fn channels_in_flow(info: &DeviceInfo) -> int {
    let count = low16(info.tx_channels@.len() as int);
    if count < MAX_CHANNELS_IN_FLOW {
        count as int
    } else {
        MAX_CHANNELS_IN_FLOW as int
    }
}

/// The service for controllers.
pub open spec fn arc_service(info: &DeviceInfo) -> ServiceView {
    ServiceView {
        kind: ServiceKind::Arc,
        name: info.friendly_hostname@,
        port: info.arc_port,
        texts: seq![
            "arcp_vers=2.7.41"@,
            "arcp_min=0.2.4"@,
            "router_vers=4.0.2"@,
            entry("router_info"@, info.board_name@),
            entry("mf"@, info.manufacturer@),
            entry("model"@, info.model_number@),
        ],
        ttl: Some(4500),
    }
}

/// The service which describes the node of the network.
pub open spec fn cmc_service(info: &DeviceInfo) -> ServiceView {
    ServiceView {
        kind: ServiceKind::Cmc,
        name: info.friendly_hostname@,
        port: info.cmc_port,
        texts: seq![
            entry("id"@, hex_of(info.factory_device_id@)),
            "process=0"@,
            "cmcp_vers=1.2.0"@,
            "cmcp_min=1.0.0"@,
            "server_vers=4.0.2"@,
            "channels=0x6000004d"@,
            entry("mf"@, info.manufacturer@),
            entry("model"@, info.model_number@),
            ""@,
            ""@,
        ],
        ttl: None,
    }
}

/// What is said of each transmit channel, whatever its name.
pub open spec fn channel_texts(info: &DeviceInfo, index: int) -> Seq<Seq<char>> {
    seq![
        "txtvers=2"@,
        "dbcp1=0x1102"@,
        "dbcp=0x1004"@,
        entry("id"@, decimal((index + 1) as nat)),
        entry("rate"@, decimal(info.sample_rate as nat)),
        entry("pcm"@, decimal(info.bits_per_sample as nat / 8) + " "@ + short_hex(info.pcm_type)),
        entry("enc"@, decimal(info.bits_per_sample as nat)),
        entry("en"@, decimal(info.bits_per_sample as nat)),
        entry("latency_ns"@, decimal(info.latency_ns as nat)),
        entry("fpp"@, decimal(FPP_MAX_ADVERTISED as nat) + ","@ + decimal(FPP_MIN as nat)),
        entry("nchan"@, decimal(channels_in_flow(info) as nat)),
    ]
}

/// The service of a transmit channel under one of its names.
pub open spec fn channel_service(
    info: &DeviceInfo,
    index: int,
    ch_name: Seq<char>,
    default: bool,
) -> ServiceView {
    ServiceView {
        kind: ServiceKind::Channel,
        name: ch_name + "@"@ + info.friendly_hostname@,
        port: info.flows_control_port,
        texts: if default {
            channel_texts(info, index).push("default"@)
        } else {
            channel_texts(info, index)
        },
        ttl: None,
    }
}

/// The services of the first `n` transmit channels: each under its factory name, and under the
/// name which the user gave to it if that is another one.
pub open spec fn channel_services(info: &DeviceInfo, n: int) -> Seq<ServiceView>
    decreases n,
{
    if n <= 0 {
        Seq::empty()
    } else {
        let ch = info.tx_channels@[n - 1];
        let with_default = channel_services(info, n - 1).push(
            channel_service(info, n - 1, ch.factory_name@, true),
        );
        if ch.factory_name@ != ch.friendly_name@ {
            with_default.push(channel_service(info, n - 1, ch.friendly_name@, false))
        } else {
            with_default
        }
    }
}

/// The services as they are specified.
pub open spec fn services_view(services: Seq<Service>) -> Seq<ServiceView> {
    services.map_values(|s: Service| s.view())
}

fn make_arc_service(info: &DeviceInfo) -> (service: Service)
    ensures
        service.view() == arc_service(info),
{
    let mut texts: Vec<String> = Vec::new();
    texts.push("arcp_vers=2.7.41".to_owned());
    texts.push("arcp_min=0.2.4".to_owned());
    texts.push("router_vers=4.0.2".to_owned());
    texts.push(kv("router_info", info.board_name.as_str()));
    texts.push(kv("mf", info.manufacturer.as_str()));
    texts.push(kv("model", info.model_number.as_str()));
    assert(texts_view(texts@) =~= arc_service(info).texts);
    Service {
        kind: ServiceKind::Arc,
        name: info.friendly_hostname.clone(),
        port: info.arc_port,
        texts,
        ttl: Some(4500),
    }
}

fn make_cmc_service(info: &DeviceInfo) -> (service: Service)
    ensures
        service.view() == cmc_service(info),
{
    let mut texts: Vec<String> = Vec::new();
    texts.push(kv("id", encode(info.factory_device_id.as_slice()).as_str()));
    texts.push("process=0".to_owned());
    texts.push("cmcp_vers=1.2.0".to_owned());
    texts.push("cmcp_min=1.0.0".to_owned());
    texts.push("server_vers=4.0.2".to_owned());
    texts.push("channels=0x6000004d".to_owned());
    texts.push(kv("mf", info.manufacturer.as_str()));
    texts.push(kv("model", info.model_number.as_str()));
    texts.push("".to_owned());
    texts.push("".to_owned());
    assert(texts_view(texts@) =~= cmc_service(info).texts);
    Service {
        kind: ServiceKind::Cmc,
        name: info.friendly_hostname.clone(),
        port: info.cmc_port,
        texts,
        ttl: None,
    }
}

fn make_channel_texts(info: &DeviceInfo, index: usize) -> (texts: Vec<String>)
    requires
        index < info.tx_channels@.len(),
    ensures
        texts_view(texts@) == channel_texts(info, index as int),
{
    let total: usize = info.tx_channels.len();
    let mut pcm = decimal_string((info.bits_per_sample / 8) as u64);
    pcm.append(" ");
    pcm.append(short_hex_string(info.pcm_type).as_str());
    let mut fpp = decimal_string(FPP_MAX_ADVERTISED as u64);
    fpp.append(",");
    fpp.append(decimal_string(FPP_MIN as u64).as_str());
    let count: u16 = (total % 0x1_0000) as u16;
    let nchan: u16 = if count < MAX_CHANNELS_IN_FLOW {
        count
    } else {
        MAX_CHANNELS_IN_FLOW
    };
    let mut texts: Vec<String> = Vec::new();
    texts.push("txtvers=2".to_owned());
    texts.push("dbcp1=0x1102".to_owned());
    texts.push("dbcp=0x1004".to_owned());
    texts.push(kv("id", decimal_string(index as u64 + 1).as_str()));
    texts.push(kv("rate", decimal_string(info.sample_rate as u64).as_str()));
    texts.push(kv("pcm", pcm.as_str()));
    texts.push(kv("enc", decimal_string(info.bits_per_sample as u64).as_str()));
    texts.push(kv("en", decimal_string(info.bits_per_sample as u64).as_str()));
    texts.push(kv("latency_ns", decimal_string(info.latency_ns as u64).as_str()));
    texts.push(kv("fpp", fpp.as_str()));
    texts.push(kv("nchan", decimal_string(nchan as u64).as_str()));
    assert(texts_view(texts@) =~= channel_texts(info, index as int));
    texts
}

fn make_channel_service(info: &DeviceInfo, index: usize, ch_name: &str, default: bool) -> (service: Service)
    requires
        index < info.tx_channels@.len(),
    ensures
        service.view() == channel_service(info, index as int, ch_name@, default),
{
    let mut name = ch_name.to_owned();
    name.append("@");
    name.append(info.friendly_hostname.as_str());
    let mut texts = make_channel_texts(info, index);
    if default {
        let ghost before = texts@;
        texts.push("default".to_owned());
        assert(texts_view(texts@) =~= texts_view(before).push("default"@));
    }
    Service { kind: ServiceKind::Channel, name, port: info.flows_control_port, texts, ttl: None }
}

/// All the services of this device.
pub fn make_services(info: &DeviceInfo) -> (services: Vec<Service>)
    ensures
        services_view(services@) == seq![arc_service(info), cmc_service(info)] + channel_services(
            info,
            info.tx_channels@.len() as int,
        ),
{
    let ghost head = seq![arc_service(info), cmc_service(info)];
    let mut services: Vec<Service> = Vec::new();
    services.push(make_arc_service(info));
    services.push(make_cmc_service(info));
    assert(services_view(services@) =~= head + channel_services(info, 0));
    let mut i: usize = 0;
    while i < info.tx_channels.len()
        invariant
            i <= info.tx_channels@.len(),
            services_view(services@) == head + channel_services(info, i as int),
        decreases info.tx_channels@.len() - i,
    {
        let txch: &Channel = &info.tx_channels[i];
        let ghost before = services@;
        services.push(make_channel_service(info, i, txch.factory_name.as_str(), true));
        let ghost with_default = services@;
        assert(services_view(with_default) =~= services_view(before).push(
            channel_service(info, i as int, txch.factory_name@, true),
        ));
        if txch.factory_name != txch.friendly_name {
            services.push(make_channel_service(info, i, txch.friendly_name.as_str(), false));
            assert(services_view(services@) =~= services_view(with_default).push(
                channel_service(info, i as int, txch.friendly_name@, false),
            ));
        }
        i = i + 1;
        assert(services_view(services@) =~= head + channel_services(info, i as int));
    }
    services
}

} // verus!

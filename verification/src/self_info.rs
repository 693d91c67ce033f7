//! Making of the description of this device out of its settings.

use crate::device_info::{Channel, DeviceInfo};
use crate::hex_text::{bytes_of_hex, decode_to_slice, encode, hex_of, is_hex};
use crate::protocol::flows_control::PORT as FLOWS_CONTROL_PORT;
use crate::protocol::mcast::INFO_REQUEST_PORT;
use crate::text::{decimal, decimal_of_two, decimal_of_two_string, decimal_string, number_of, parse_number};
use vstd::prelude::*;
use vstd::string::StringExecFns;
use vstd::utf8::encode_utf8;

verus! {

/// The port at which controllers ask for channels and subscriptions.
pub const ARC_PORT: u16 = 4400;

/// The port at which nodes of the network describe themselves.
pub const CMC_PORT: u16 = 8800;

/// Settings given from outside, as text.
pub struct Settings {
    pub device_id: Option<String>,
    pub name: Option<String>,
    pub sample_rate: Option<String>,
    pub process_id: Option<String>,
    pub alt_port: Option<String>,
}

/// Which setting is invalid.
#[derive(Debug, Clone, Copy, PartialEq, Eq, Structural)]
pub enum SettingsError {
    /// should contain hex data
    DeviceId,
    /// must be integer
    SampleRate,
    /// must be u16
    ProcessId,
    /// must be u16, and three more ports are needed after it
    AltPort,
}

/// A network interface and one of its addresses.
pub struct InterfaceAddress {
    pub name: String,
    pub ip: [u8; 4],
}

/// The first address of the network interface with the name.
pub open spec fn first_address(interfaces: Seq<InterfaceAddress>, name: Seq<char>) -> Option<[u8; 4]>
    decreases interfaces.len(),
{
    if interfaces.len() == 0 {
        None
    } else if interfaces[0].name@ == name {
        Some(interfaces[0].ip)
    } else {
        first_address(interfaces.drop_first(), name)
    }
}

/// The local address to bind to: the one which is set, `parsed` being what is read from the setting
/// as an address. A setting which is no address is the name of a network interface, whose first
/// address is taken.
pub fn choose_bind_ip(setting: &String, parsed: Option<[u8; 4]>, interfaces: &Vec<InterfaceAddress>) -> (ip: Option<
    [u8; 4],
>)
    ensures
        ip == match parsed {
            Some(parsed) => Some(parsed),
            None => first_address(interfaces@, setting@),
        },
{
    if parsed.is_some() {
        return parsed;
    }
    let mut i: usize = 0;
    assert(interfaces@.skip(0) =~= interfaces@);
    while i < interfaces.len()
        invariant
            parsed is None,
            i <= interfaces@.len(),
            first_address(interfaces@, setting@) == first_address(interfaces@.skip(i as int), setting@),
        decreases interfaces@.len() - i,
    {
        assert(interfaces@.skip(i as int)[0] == interfaces@[i as int]);
        if interfaces[i].name == *setting {
            return Some(interfaces[i].ip);
        }
        assert(interfaces@.skip(i as int).drop_first() =~= interfaces@.skip(i as int + 1));
        i = i + 1;
    }
    None
}

/// The number in a setting.
pub open spec fn setting_number(setting: Option<String>, max: int) -> Option<int> {
    number_of(encode_utf8(setting->0@), 10, max)
}

/// Whether a number is set which is none, or is greater than `max`.
pub open spec fn is_wrong_number(setting: Option<String>, max: int) -> bool {
    setting is Some && setting_number(setting, max) is None
}

/// The first wrong one of the settings.
pub open spec fn settings_error(settings: &Settings) -> Option<SettingsError> {
    if settings.device_id is Some && !is_hex(encode_utf8(settings.device_id->0@), 8) {
        Some(SettingsError::DeviceId)
    } else if is_wrong_number(settings.sample_rate, u32::MAX as int) {
        Some(SettingsError::SampleRate)
    } else if is_wrong_number(settings.process_id, u16::MAX as int) {
        Some(SettingsError::ProcessId)
    } else if is_wrong_number(settings.alt_port, u16::MAX - 3) {
        Some(SettingsError::AltPort)
    } else {
        None
    }
}

/// The identifier of the device: the one which is set, else one made of the address.
pub open spec fn device_id_of(settings: &Settings, ip: Seq<u8>) -> Seq<u8> {
    match settings.device_id {
        Some(id) => bytes_of_hex(encode_utf8(id@)),
        None => seq![0u8, 0u8] + ip + seq![0u8, 0u8],
    }
}

/// The name of the device: the one which is set, else one made of the name of the application
/// and the address.
pub open spec fn name_of(settings: &Settings, app_name: Seq<char>, ip: Seq<u8>) -> Seq<char> {
    match settings.name {
        Some(name) => name@,
        None => app_name + " "@ + hex_of(ip),
    }
}

/// The value of a setting if it is there, else the default value.
pub open spec fn setting_or(setting: Option<String>, max: int, default: int) -> int {
    if setting is Some {
        setting_number(setting, max)->0
    } else {
        default
    }
}

/// Whether the device is the one which the settings describe.
pub open spec fn is_self(
    info: DeviceInfo,
    app_name: Seq<char>,
    short_app_name: Seq<char>,
    ip: Seq<u8>,
    settings: &Settings,
) -> bool {
    &&& info.ip_address@ == ip
    &&& info.board_name@ == "Inferno-AoIP"@
    &&& info.manufacturer@ == "Inferno-AoIP"@
    &&& info.model_name@ == app_name
    &&& info.model_number@ == "_000000000000000b"@
    &&& info.factory_device_id@ == device_id_of(settings, ip)
    &&& info.process_id == setting_or(settings.process_id, u16::MAX as int, 0)
    &&& info.vendor_string@ == "Audinate Dante-compatible"@
    &&& info.friendly_hostname@ == name_of(settings, app_name, ip)
    &&& info.factory_hostname@ == short_app_name + "-"@ + hex_of(device_id_of(settings, ip))
    &&& info.rx_channels@.len() == 0
    &&& info.tx_channels@.len() == 0
    &&& info.bits_per_sample == 24
    &&& info.pcm_type == 0xe
    &&& info.latency_ns == 10_000_000
    &&& info.sample_rate == setting_or(settings.sample_rate, u32::MAX as int, 48000)
    &&& info.arc_port == setting_or(settings.alt_port, u16::MAX - 3, ARC_PORT as int)
    &&& info.cmc_port == setting_or(settings.alt_port, u16::MAX - 3, CMC_PORT - 1) + 1
    &&& info.flows_control_port == setting_or(settings.alt_port, u16::MAX - 3, FLOWS_CONTROL_PORT - 2) + 2
    &&& info.info_request_port == setting_or(settings.alt_port, u16::MAX - 3, INFO_REQUEST_PORT - 3) + 3
}

/// Whether the channels are numbered from 1 on and named after their number.
pub open spec fn are_numbered(channels: Seq<Channel>, prefix: Seq<char>, count: int) -> bool {
    &&& channels.len() == count
    &&& forall|i: int|
        0 <= i < count ==> (#[trigger] channels[i]).factory_name@ == decimal_of_two((i + 1) as nat)
            && channels[i].friendly_name@ == prefix + decimal((i + 1) as nat)
}

fn read_setting(setting: &Option<String>, max: u64, default: u64) -> (value: Option<u64>)
    ensures
        value is None <==> is_wrong_number(*setting, max as int),
        value is Some ==> value->0 == setting_or(*setting, max as int, default as int),
{
    match setting {
        Some(s) => parse_number(s.as_str().as_bytes(), 10, max),
        None => Some(default),
    }
}

fn make_channels(prefix: &str, count: usize) -> (channels: Vec<Channel>)
    requires
        count < usize::MAX,
    ensures
        are_numbered(channels@, prefix@, count as int),
{
    let mut channels: Vec<Channel> = Vec::new();
    let mut i: usize = 0;
    while i < count
        invariant
            i <= count,
            count < usize::MAX,
            are_numbered(channels@, prefix@, i as int),
        decreases count - i,
    {
        let id: u64 = i as u64 + 1;
        let factory_name = decimal_of_two_string(id);
        let mut friendly_name = prefix.to_owned();
        friendly_name.append(decimal_string(id).as_str());
        channels.push(Channel { factory_name, friendly_name });
        i = i + 1;
    }
    channels
}

pub trait SelfInfoBuilder: Sized {
    fn new_self(app_name: &str, short_app_name: &str, my_ip: [u8; 4], settings: &Settings) -> Result<
        DeviceInfo,
        SettingsError,
    >;

    fn make_rx_channels(self, count: usize) -> DeviceInfo
        requires
            count < usize::MAX,
    ;

    fn make_tx_channels(self, count: usize) -> DeviceInfo
        requires
            count < usize::MAX,
    ;
}

impl SelfInfoBuilder for DeviceInfo {
    fn new_self(app_name: &str, short_app_name: &str, my_ip: [u8; 4], settings: &Settings) -> (r: Result<
        DeviceInfo,
        SettingsError,
    >)
        ensures
            r is Err <==> settings_error(settings) is Some,
            r is Err ==> r->Err_0 == settings_error(settings)->0,
            r is Ok ==> is_self(r->Ok_0, app_name@, short_app_name@, my_ip@, settings),
    {
        let mut devid: [u8; 8] = [0; 8];
        match &settings.device_id {
            Some(idstr) => {
                if decode_to_slice(idstr.as_str(), &mut devid).is_err() {
                    return Err(SettingsError::DeviceId);
                }
            },
            None => {
                devid = [0, 0, my_ip[0], my_ip[1], my_ip[2], my_ip[3], 0, 0];
            },
        }
        assert(devid@ =~= device_id_of(settings, my_ip@));
        let friendly_hostname = match &settings.name {
            Some(name) => name.clone(),
            None => {
                let mut name = app_name.to_owned();
                name.append(" ");
                name.append(encode(my_ip.as_slice()).as_str());
                name
            },
        };
        let mut factory_hostname = short_app_name.to_owned();
        factory_hostname.append("-");
        factory_hostname.append(encode(devid.as_slice()).as_str());
        let sample_rate: u32 = match read_setting(&settings.sample_rate, u32::MAX as u64, 48000) {
            Some(rate) => rate as u32,
            None => {
                return Err(SettingsError::SampleRate);
            },
        };
        let process_id: u16 = match read_setting(&settings.process_id, u16::MAX as u64, 0) {
            Some(id) => id as u16,
            None => {
                return Err(SettingsError::ProcessId);
            },
        };
        let mut ports: [u16; 4] = [ARC_PORT, CMC_PORT, FLOWS_CONTROL_PORT, INFO_REQUEST_PORT];
        if settings.alt_port.is_some() {
            match read_setting(&settings.alt_port, u16::MAX as u64 - 3, 0) {
                Some(port) => {
                    let port: u16 = port as u16;
                    ports = [port, port + 1, port + 2, port + 3];
                },
                None => {
                    return Err(SettingsError::AltPort);
                },
            }
        }
        Ok(
            DeviceInfo {
                ip_address: my_ip,
                board_name: "Inferno-AoIP".to_owned(),
                manufacturer: "Inferno-AoIP".to_owned(),
                model_name: app_name.to_owned(),
                model_number: "_000000000000000b".to_owned(),
                factory_device_id: devid,
                process_id,
                vendor_string: "Audinate Dante-compatible".to_owned(),
                friendly_hostname,
                factory_hostname,
                rx_channels: Vec::new(),
                tx_channels: Vec::new(),
                bits_per_sample: 24,
                pcm_type: 0xe,
                latency_ns: 10_000_000,
                sample_rate,
                arc_port: ports[0],
                cmc_port: ports[1],
                flows_control_port: ports[2],
                info_request_port: ports[3],
            },
        )
    }

    fn make_rx_channels(self, count: usize) -> (info: DeviceInfo)
        ensures
            are_numbered(info.rx_channels@, "RX "@, count as int),
            info == (DeviceInfo { rx_channels: info.rx_channels, ..self }),
    {
        DeviceInfo { rx_channels: make_channels("RX ", count), ..self }
    }

    fn make_tx_channels(self, count: usize) -> (info: DeviceInfo)
        ensures
            are_numbered(info.tx_channels@, "TX "@, count as int),
            info == (DeviceInfo { tx_channels: info.tx_channels, ..self }),
    {
        DeviceInfo { tx_channels: make_channels("TX ", count), ..self }
    }
}

/// A device whose name is made of its address is told apart from a device with another address,
/// and so is its identifier.
pub proof fn devices_are_told_apart(settings: &Settings, app_name: Seq<char>, a: Seq<u8>, b: Seq<u8>)
    requires
        a.len() == 4,
        b.len() == 4,
        a != b,
        settings.name is None,
        settings.device_id is None,
    ensures
        name_of(settings, app_name, a) != name_of(settings, app_name, b),
        device_id_of(settings, a) != device_id_of(settings, b),
{
    crate::hex_text::hex_is_read_back(a);
    crate::hex_text::hex_is_read_back(b);
    let start = app_name + " "@;
    assert(name_of(settings, app_name, a).skip(start.len() as int) =~= hex_of(a));
    assert(name_of(settings, app_name, b).skip(start.len() as int) =~= hex_of(b));
    assert(device_id_of(settings, a).subrange(2, 6) =~= a);
    assert(device_id_of(settings, b).subrange(2, 6) =~= b);
}

} // verus!

use inferno_aoip::device_info::DeviceInfo;
use inferno_aoip::self_info::{choose_bind_ip, InterfaceAddress, SelfInfoBuilder, Settings, SettingsError};
use inferno_aoip::state_storage::StateStorage;

fn no_settings() -> Settings {
    Settings { device_id: None, name: None, sample_rate: None, process_id: None, alt_port: None }
}

fn make(settings: &Settings) -> Result<DeviceInfo, SettingsError> {
    DeviceInfo::new_self("My Application", "MyApp", [192, 168, 1, 5], settings)
}

fn error_of(settings: Settings) -> SettingsError {
    match make(&settings) {
        Ok(_) => panic!("accepted"),
        Err(e) => e,
    }
}

#[test]
fn device_is_described_by_default() {
    let info = make(&no_settings()).unwrap();
    assert_eq!(info.ip_address, [192, 168, 1, 5]);
    assert_eq!(info.factory_device_id, [0, 0, 192, 168, 1, 5, 0, 0]);
    assert_eq!(info.friendly_hostname, "My Application c0a80105");
    assert_eq!(info.factory_hostname, "MyApp-0000c0a801050000");
    assert_eq!(info.model_name, "My Application");
    assert_eq!(info.sample_rate, 48000);
    assert_eq!(info.process_id, 0);
    assert_eq!(info.bits_per_sample, 24);
    assert_eq!(info.pcm_type, 0xe);
    assert_eq!((info.arc_port, info.cmc_port), (4400, 8800));
    assert_eq!((info.flows_control_port, info.info_request_port), (4455, 8700));
    assert!(info.rx_channels.is_empty() && info.tx_channels.is_empty());
    assert!(info.is_latency_computable());
    assert_eq!(info.latency_samples(), 480);
}

#[test]
fn device_is_described_by_settings() {
    let info = make(&Settings {
        device_id: Some("0011223344556677".to_string()),
        name: Some("Studio".to_string()),
        sample_rate: Some("96000".to_string()),
        process_id: Some("3".to_string()),
        alt_port: Some("14000".to_string()),
    })
    .unwrap();
    assert_eq!(info.factory_device_id, [0x00, 0x11, 0x22, 0x33, 0x44, 0x55, 0x66, 0x77]);
    assert_eq!(info.friendly_hostname, "Studio");
    assert_eq!(info.factory_hostname, "MyApp-0011223344556677");
    assert_eq!(info.sample_rate, 96000);
    assert_eq!(info.process_id, 3);
    assert_eq!((info.arc_port, info.cmc_port), (14000, 14001));
    assert_eq!((info.flows_control_port, info.info_request_port), (14002, 14003));
}

#[test]
fn wrong_settings_are_reported() {
    for id in ["001122334455667", "00112233445566778", "001122334455667x", ""] {
        assert_eq!(
            error_of(Settings { device_id: Some(id.to_string()), ..no_settings() }),
            SettingsError::DeviceId
        );
    }
    assert_eq!(
        error_of(Settings { sample_rate: Some("fast".to_string()), ..no_settings() }),
        SettingsError::SampleRate
    );
    assert_eq!(
        error_of(Settings { process_id: Some("65536".to_string()), ..no_settings() }),
        SettingsError::ProcessId
    );
    assert_eq!(error_of(Settings { alt_port: Some("65533".to_string()), ..no_settings() }), SettingsError::AltPort);
    assert!(make(&Settings { alt_port: Some("65532".to_string()), ..no_settings() }).is_ok());
}

#[test]
fn devices_at_different_addresses_differ() {
    let a = DeviceInfo::new_self("App", "app", [10, 0, 0, 1], &no_settings()).unwrap();
    let b = DeviceInfo::new_self("App", "app", [10, 0, 0, 2], &no_settings()).unwrap();
    assert_ne!(a.friendly_hostname, b.friendly_hostname);
    assert_ne!(a.factory_device_id, b.factory_device_id);
}

#[test]
fn channels_are_numbered() {
    let info = make(&no_settings()).unwrap().make_rx_channels(11).make_tx_channels(2);
    assert_eq!(info.rx_channels.len(), 11);
    assert_eq!(info.rx_channels[0].factory_name, "01");
    assert_eq!(info.rx_channels[0].friendly_name, "RX 1");
    assert_eq!(info.rx_channels[10].factory_name, "11");
    assert_eq!(info.rx_channels[10].friendly_name, "RX 11");
    assert_eq!(info.tx_channels.len(), 2);
    assert_eq!(info.tx_channels[1].factory_name, "02");
    assert_eq!(info.tx_channels[1].friendly_name, "TX 2");
}

#[test]
fn latency_may_be_too_great_to_compute() {
    let mut info = make(&no_settings()).unwrap();
    info.latency_ns = usize::MAX;
    assert!(!info.is_latency_computable());
}

#[test]
fn state_is_kept_below_the_directory_of_the_device() {
    let info = make(&no_settings()).unwrap();
    let storage = StateStorage::new("/var/state/inferno_aoip", "/", &info);
    assert_eq!(storage.full_path("rx_subscriptions"), "/var/state/inferno_aoip/0000c0a801050000/rx_subscriptions.toml");
    assert_ne!(storage.full_path("a"), storage.full_path("b"));
}

#[test]
fn address_or_interface_to_bind_to_is_chosen() {
    let interface = |name: &str, ip: [u8; 4]| InterfaceAddress { name: name.to_string(), ip };
    let interfaces =
        vec![interface("lo", [127, 0, 0, 1]), interface("eth0", [10, 0, 0, 1]), interface("eth0", [10, 0, 0, 2])];
    assert_eq!(choose_bind_ip(&"eth0".to_string(), None, &interfaces), Some([10, 0, 0, 1]));
    assert_eq!(choose_bind_ip(&"eth1".to_string(), None, &interfaces), None);
    assert_eq!(choose_bind_ip(&"10.9.9.9".to_string(), Some([10, 9, 9, 9]), &interfaces), Some([10, 9, 9, 9]));
}

#[test]
fn device_id_is_the_storage_key() {
    let a = make(&no_settings()).unwrap();
    let b = DeviceInfo::new_self("Other", "other", [192, 168, 1, 5], &no_settings()).unwrap();
    let c = DeviceInfo::new_self("My Application", "MyApp", [192, 168, 1, 6], &no_settings()).unwrap();
    let path = |info: &DeviceInfo| StateStorage::new("/state", "/", info).full_path("channels");
    assert_eq!(path(&a), path(&b));
    assert_ne!(path(&a), path(&c));
}

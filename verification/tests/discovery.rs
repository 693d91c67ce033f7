use inferno_aoip::device_info::DeviceInfo;
use inferno_aoip::mdns_client::{
    read_channel, read_response, AdvertisedService, PointerToMulticast, QueryError, Record, RecordData, TxtEntries,
};
use inferno_aoip::mdns_server::{kv, make_services, Service, ServiceKind};
use inferno_aoip::self_info::{SelfInfoBuilder, Settings};

fn device(tx: usize) -> DeviceInfo {
    let settings = Settings {
        device_id: None,
        name: Some("mixer".to_string()),
        sample_rate: None,
        process_id: None,
        alt_port: None,
    };
    match DeviceInfo::new_self("App", "app", [10, 0, 0, 1], &settings) {
        Ok(info) => info.make_tx_channels(tx),
        Err(_) => panic!("refused"),
    }
}

fn name(labels: &[&str]) -> Vec<Vec<u8>> {
    labels.iter().map(|l| l.as_bytes().to_vec()).collect()
}

fn texts(texts: &[&str]) -> RecordData {
    RecordData::Txt(texts.iter().map(|t| t.as_bytes().to_vec()).collect())
}

fn service(properties: &[(&str, &str)]) -> AdvertisedService {
    let mut entries = TxtEntries::new();
    for (key, value) in properties {
        entries.insert(key.as_bytes().to_vec(), value.as_bytes().to_vec());
    }
    AdvertisedService { addr: 0x0a00_0001_1167, properties: entries }
}

const COMPLETE: [(&str, &str); 6] =
    [("fpp", "32,2"), ("nchan", "8"), ("id", "3"), ("enc", "24"), ("dbcp1", "0x1102"), ("latency_ns", "1000000")];

fn without(key: &str) -> AdvertisedService {
    let left: Vec<(&str, &str)> = COMPLETE.iter().copied().filter(|(k, _)| *k != key).collect();
    service(&left)
}

fn with(key: &'static str, value: &'static str) -> AdvertisedService {
    let mut all = COMPLETE.to_vec();
    all.push((key, value));
    service(&all)
}

fn error_of(service: &AdvertisedService) -> QueryError {
    match read_channel(service) {
        Ok(_) => panic!("understood"),
        Err(e) => e,
    }
}

#[test]
fn services_of_the_device_are_advertised() {
    let services = make_services(&device(1));
    assert_eq!(services.len(), 4);
    assert_eq!(services[0].kind, ServiceKind::Arc);
    assert_eq!((services[0].name.as_str(), services[0].port, services[0].ttl), ("mixer", 4400, Some(4500)));
    assert_eq!(
        services[0].texts,
        vec![
            "arcp_vers=2.7.41",
            "arcp_min=0.2.4",
            "router_vers=4.0.2",
            "router_info=Inferno-AoIP",
            "mf=Inferno-AoIP",
            "model=_000000000000000b"
        ]
    );
    assert_eq!(services[1].kind, ServiceKind::Cmc);
    assert_eq!(services[1].port, 8800);
    assert_eq!(services[1].texts[0], "id=00000a0000010000");
    assert_eq!(services[1].texts.len(), 10);
    assert_eq!(services[1].texts[9], "");
}

#[test]
fn channels_are_advertised_under_both_names() {
    let services = make_services(&device(2));
    assert_eq!(services.len(), 6);
    let names: Vec<&str> = services[2..].iter().map(|s| s.name.as_str()).collect();
    assert_eq!(names, vec!["01@mixer", "TX 1@mixer", "02@mixer", "TX 2@mixer"]);
    for s in &services[2..] {
        assert_eq!(s.kind, ServiceKind::Channel);
        assert_eq!(s.port, 4455);
    }
    assert_eq!(
        services[4].texts,
        vec![
            "txtvers=2",
            "dbcp1=0x1102",
            "dbcp=0x1004",
            "id=2",
            "rate=48000",
            "pcm=3 e",
            "enc=24",
            "en=24",
            "latency_ns=10000000",
            "fpp=32,2",
            "nchan=2",
            "default"
        ]
    );
    assert_eq!(services[5].texts.len(), 11);
}

#[test]
fn channel_with_one_name_is_advertised_once() {
    let mut info = device(1);
    info.tx_channels[0].friendly_name = "01".to_string();
    info.pcm_type = 0x1f;
    let services = make_services(&info);
    assert_eq!(services.len(), 3);
    assert_eq!(services[2].texts[5], "pcm=3 1f");
}

#[test]
fn kinds_of_services_have_labels() {
    assert_eq!(kv("a", "b"), "a=b");
    assert_eq!(ServiceKind::Arc.label(), "_netaudio-arc");
    assert_eq!(ServiceKind::Cmc.label(), "_netaudio-cmc");
    assert_eq!(ServiceKind::Channel.label(), "_netaudio-chan");
}

#[test]
fn properties_are_replaced_and_found() {
    let mut entries = TxtEntries::new();
    assert!(entries.get("a").is_none());
    entries.insert(b"b".to_vec(), b"1".to_vec());
    entries.insert(b"a".to_vec(), b"2".to_vec());
    entries.insert(b"b".to_vec(), b"3".to_vec());
    assert_eq!(entries.get("a"), Some(&b"2".to_vec()));
    assert_eq!(entries.get("b"), Some(&b"3".to_vec()));
    assert!(entries.get("c").is_none());
}

#[test]
fn response_is_read() {
    let wanted = name(&["01@mixer", "_netaudio-chan", "_udp", "local"]);
    let same = name(&["01@MIXER", "_netaudio-chan", "_udp", "local"]);
    let host = name(&["host", "local"]);
    let answers = vec![
        Record { name: name(&["other"]), data: RecordData::Srv { target: name(&["wrong"]), port: 1 } },
        Record { name: same, data: RecordData::Srv { target: host.clone(), port: 4455 } },
        Record { name: wanted.clone(), data: texts(&["id=3", "default", "x=a=b"]) },
        Record { name: name(&["other"]), data: texts(&["id=9"]) },
    ];
    let additionals = vec![
        Record { name: name(&["wrong"]), data: RecordData::A([1, 1, 1, 1]) },
        Record { name: host.clone(), data: RecordData::Other },
        Record { name: host, data: RecordData::A([10, 0, 0, 1]) },
    ];
    let found = match read_response(&wanted, &answers, &additionals) {
        Ok(s) => s,
        Err(_) => panic!("not found"),
    };
    assert_eq!(found.addr, 0x0a00_0001_0000 + 4455);
    assert_eq!(found.properties.get("id"), Some(&b"3".to_vec()));
    assert_eq!(found.properties.get("x"), Some(&b"a=b".to_vec()));
    assert!(found.properties.get("default").is_none());
}

#[test]
fn incomplete_response_is_not_found() {
    let wanted = name(&["01@mixer"]);
    let host = name(&["host"]);
    let srv = || Record { name: name(&["01@mixer"]), data: RecordData::Srv { target: name(&["host"]), port: 4455 } };
    assert_eq!(
        read_response(&wanted, &vec![], &vec![Record { name: host, data: RecordData::A([10, 0, 0, 1]) }]).err(),
        Some(QueryError::NotFound)
    );
    assert_eq!(read_response(&wanted, &vec![srv()], &vec![]).err(), Some(QueryError::NotFound));
    let broken = Record { name: name(&["01@mixer"]), data: RecordData::Txt(vec![vec![0xff]]) };
    assert_eq!(read_response(&wanted, &vec![srv(), broken], &vec![]).err(), Some(QueryError::InvalidText));
}

#[test]
fn channel_is_read_from_properties() {
    let ch = read_channel(&service(&COMPLETE)).unwrap();
    assert_eq!(ch.addr, 0x0a00_0001_1167);
    assert_eq!((ch.tx_channels_per_flow, ch.tx_channel_id, ch.bits_per_sample), (8, 3, 24));
    assert_eq!((ch.dbcp1, ch.fpp_min, ch.fpp_max, ch.min_rx_latency_ns), (0x1102, 2, 32, 1_000_000));
    assert!(ch.multicast.is_none());
}

#[test]
fn missing_or_wrong_property_is_an_error() {
    for key in ["fpp", "nchan", "id", "enc", "dbcp1", "latency_ns"] {
        assert_eq!(error_of(&without(key)), QueryError::NotFound);
    }
    assert_eq!(error_of(&with("nchan", "many")), QueryError::InvalidNumber);
    assert_eq!(error_of(&with("id", "0xzz")), QueryError::InvalidNumber);
    assert_eq!(error_of(&with("fpp", "32")), QueryError::InvalidData);
    assert_eq!(error_of(&with("fpp", "32,x")), QueryError::InvalidNumber);
    assert_eq!(error_of(&with("fpp", "65536,2")), QueryError::InvalidNumber);
}

#[test]
fn bits_are_given_by_either_property() {
    let mut left: Vec<(&str, &str)> = COMPLETE.iter().copied().filter(|(k, _)| *k != "enc").collect();
    left.push(("en", "16"));
    assert_eq!(read_channel(&service(&left)).unwrap().bits_per_sample, 16);
}

#[test]
fn multicast_is_pointed_to() {
    let ch = read_channel(&with("b.12", "5")).unwrap();
    assert!(ch.multicast == Some(PointerToMulticast { bundle_id: 12, channel_in_bundle: 5 }));
    assert!(read_channel(&with("b.x", "5")).unwrap().multicast.is_none());
}

fn advertised(s: &Service) -> AdvertisedService {
    let wanted = name(&[s.name.as_str()]);
    let host = name(&["host"]);
    let descriptions: Vec<&str> = s.texts.iter().map(|t| t.as_str()).collect();
    let answers = vec![
        Record { name: wanted.clone(), data: RecordData::Srv { target: host.clone(), port: s.port } },
        Record { name: wanted.clone(), data: texts(&descriptions) },
    ];
    match read_response(&wanted, &answers, &vec![Record { name: host, data: RecordData::A([10, 0, 0, 1]) }]) {
        Ok(found) => found,
        Err(_) => panic!("not found"),
    }
}

#[test]
fn advertised_channel_is_understood() {
    let info = device(9);
    let services = make_services(&info);
    let ch = read_channel(&advertised(&services[4])).unwrap();
    assert_eq!(ch.addr, 0x0a00_0001_0000 + 4455);
    assert_eq!(ch.tx_channels_per_flow, 8);
    assert_eq!(ch.tx_channel_id, 2);
    assert_eq!(ch.bits_per_sample, 24);
    assert_eq!(ch.dbcp1, 0x1102);
    assert_eq!((ch.fpp_min, ch.fpp_max), (2, 32));
    assert_eq!(ch.min_rx_latency_ns, info.latency_ns);
}

use inferno_aoip::arc_server::{self, ArcAction, Response};
use inferno_aoip::channels_subscriber::{SubscriptionInfo, SubscriptionStatus};
use inferno_aoip::cmc_server;
use inferno_aoip::device_info::DeviceInfo;
use inferno_aoip::info_mcast_server::{
    is_message_sendable, read_request, Destination, MulticastMessage, Multicaster, Request,
};
use inferno_aoip::self_info::{SelfInfoBuilder, Settings};
use inferno_aoip::subscriber::Command;

fn device(rx: usize, tx: usize) -> DeviceInfo {
    let settings = Settings { device_id: None, name: None, sample_rate: None, process_id: None, alt_port: None };
    match DeviceInfo::new_self("App", "app", [10, 0, 0, 1], &settings) {
        Ok(info) => info.make_rx_channels(rx).make_tx_channels(tx),
        Err(_) => panic!("refused"),
    }
}

fn response(action: ArcAction) -> Response {
    match action {
        ArcAction::Respond(r) => r,
        _ => panic!("no response"),
    }
}

fn ask(info: &DeviceInfo, opcode1: u16, content: &[u8]) -> Response {
    assert!(arc_server::can_decide(info, false, opcode1, 0, content));
    response(arc_server::decide(info, None, opcode1, 0, content))
}

#[test]
fn features_tell_the_number_of_channels() {
    let r = ask(&device(3, 2), 0x1000, &[]);
    assert_eq!(r.code, 1);
    let mut expected = vec![0, 0, 0, 2, 0, 3, 0, 0, 0, 0, 0, 0, 0, 0, 0, 8, 0, 0, 0, 0, 0, 1];
    expected.extend_from_slice(&[0; 12]);
    assert_eq!(r.content, expected);
}

#[test]
fn device_tells_its_names() {
    let info = device(0, 0);
    assert_eq!(ask(&info, 0x1002, &[]).content, b"App 0a000001\0");
    let names = ask(&info, 0x1003, &[]).content;
    assert_eq!(names.len(), 131);
    assert_eq!(&names[0x26..0x26 + 13], b"App 0a000001\0");
    assert_eq!(&names[0x46..0x46 + 21], b"app-00000a0000010000\0");
    assert_eq!(&names[0x66..0x66 + 13], b"Inferno-AoIP\0");
}

#[test]
fn long_names_are_cut() {
    let mut info = device(0, 0);
    info.friendly_hostname = "x".repeat(100);
    let names = arc_server::device_names(&info);
    assert_eq!(&names[0x26..0x26 + 0x1f], "x".repeat(0x1f).as_bytes());
    assert_eq!(names[0x26 + 0x1f], 0);
}

#[test]
fn fixed_responses_are_zeros() {
    let info = device(0, 0);
    assert_eq!(ask(&info, 0x1102, &[]).content, vec![0; 94]);
    assert_eq!(ask(&info, 0x3200, &[]).content, vec![0; 6]);
    assert_eq!(ask(&info, 0x1100, &[]).content, vec![0; 110]);
    assert_eq!(ask(&info, 0x3300, &[]).content, vec![0; 8]);
}

#[test]
fn other_requests_are_ignored() {
    let info = device(1, 1);
    for opcode1 in [0x2200u16, 0x2201, 0x4000, 0x3010] {
        assert!(matches!(arc_server::decide(&info, None, opcode1, 0, &[]), ArcAction::Ignore));
    }
    assert!(matches!(arc_server::decide(&info, None, 0x1000, 1, &[]), ArcAction::Ignore));
}

#[test]
fn receive_channels_are_described() {
    let info = device(2, 0);
    let statuses = vec![
        Some(SubscriptionInfo {
            tx_channel_name: "L".to_string(),
            tx_hostname: "mixer".to_string(),
            status: SubscriptionStatus::ReceivingUnicast,
        }),
        None,
    ];
    let request = [0, 0, 0, 1];
    assert!(arc_server::can_decide(&info, true, 0x3000, 0, &request));
    let r = response(arc_server::decide(&info, Some(&statuses), 0x3000, 0, &request));
    assert_eq!(r.code, 1);
    let mut expected = vec![2, 2];
    // the description stands at 10 + 2 + 2 * 20, the strings 16 bytes after it
    expected.extend_from_slice(&[0, 1, 0, 6, 0, 52, 0, 68, 0, 70, 0, 76, 1, 1, 0, 9, 0, 0, 0, 0]);
    expected.extend_from_slice(&[0, 2, 0, 6, 0, 52, 0, 0, 0, 0, 0, 81, 0, 0, 0, 0, 0, 0, 0, 0]);
    expected.extend_from_slice(&[0, 0, 0xbb, 0x80, 1, 1, 0, 0x18, 4, 0, 0, 0x18, 0, 0x18, 0, 0x0e]);
    expected.extend_from_slice(b"L\0mixer\0RX 1\0RX 2\0");
    assert_eq!(r.content, expected);
}

#[test]
fn status_of_subscription_has_a_code() {
    assert_eq!(SubscriptionStatus::Unresolved.code(), 1);
    assert_eq!(SubscriptionStatus::InProgress.code(), 8);
    assert_eq!(SubscriptionStatus::TooManyTxFlows.code(), 0x14);
    assert_eq!(SubscriptionStatus::TxFail.code(), 0x15);
    assert_eq!(SubscriptionStatus::ReceivingUnicast.code(), 0x01010009);
    assert_eq!(SubscriptionStatus::ReceivingMulticast.code(), 0x0101000a);
}

#[test]
fn many_receive_channels_are_described_in_parts() {
    let info = device(20, 0);
    let mut statuses: Vec<Option<SubscriptionInfo>> = Vec::new();
    for _ in 0..20 {
        statuses.push(None);
    }
    let first = response(arc_server::decide(&info, Some(&statuses), 0x3000, 0, &[0, 0, 0, 1]));
    assert_eq!(first.code, 0x8112);
    assert_eq!(&first.content[..4], &[16, 16, 0, 1]);
    let second = response(arc_server::decide(&info, Some(&statuses), 0x3000, 0, &[0, 0, 0, 17]));
    assert_eq!(second.code, 1);
    assert_eq!(&second.content[..4], &[4, 4, 0, 17]);
    let nothing = response(arc_server::decide(&info, None, 0x3000, 0, &[0, 0, 0, 1]));
    assert_eq!(nothing.code, 1);
    assert_eq!(&nothing.content[..2], &[0, 0]);
}

#[test]
fn transmit_channels_are_described() {
    let info = device(0, 2);
    let r = ask(&info, 0x2000, &[0, 0, 0, 1]);
    let mut expected = vec![2, 2, 0, 1, 0, 7, 0, 28, 0, 44, 0, 2, 0, 7, 0, 28, 0, 47];
    expected.extend_from_slice(&[0, 0, 0xbb, 0x80, 1, 1, 0, 0x18, 4, 0, 0, 0x18, 0, 0x18, 0, 0x0e]);
    expected.extend_from_slice(b"01\x0002\0");
    assert_eq!((r.code, r.content), (1, expected));
    let r = ask(&info, 0x2010, &[0, 0, 0, 1]);
    let mut expected = vec![2, 2, 0, 1, 0, 1, 0, 28, 0, 2, 0, 2, 0, 33, 0, 0, 0, 0];
    expected.extend_from_slice(b"TX 1\0TX 2\0");
    assert_eq!((r.code, r.content), (1, expected));
    assert!(arc_server::can_decide(&info, false, 0x2000, 0, &[0, 0, 0, 3]));
    assert!(!arc_server::can_decide(&info, false, 0x2000, 0, &[0, 0, 0, 4]));
    assert!(!arc_server::can_decide(&info, false, 0x2000, 0, &[0, 0, 0, 0]));
    assert!(!arc_server::can_decide(&info, false, 0x2010, 0, &[0, 0, 0]));
    assert!(!arc_server::can_decide(&info, false, 0x3000, 0, &[0, 0, 0, 0]));
}

#[test]
fn many_transmit_channels_are_described_in_parts() {
    let info = device(0, 17);
    assert_eq!(ask(&info, 0x2000, &[0, 0, 0, 1]).code, 0x8112);
    assert_eq!(ask(&info, 0x2000, &[0, 0, 0, 2]).code, 1);
    assert_eq!(ask(&info, 0x2010, &[0, 0, 0, 1]).code, 0x8112);
    assert_eq!(ask(&info, 0x2010, &[0, 0, 0, 17]).content[..2], [1, 1]);
}

#[test]
fn subscriptions_are_read() {
    // three entries: subscribe, unsubscribe, names which are not there
    let mut c = vec![0, 3];
    c.extend_from_slice(&[0, 1, 0, 30, 0, 32]);
    c.extend_from_slice(&[0, 2, 0, 0, 0, 0]);
    c.extend_from_slice(&[0, 3, 1, 0, 1, 0]);
    c.extend_from_slice(b"L\0mixer\0");
    assert!(arc_server::is_subscription_readable(&c));
    let commands = arc_server::read_subscription_request(&c);
    assert_eq!(commands.len(), 2);
    match &commands[0] {
        Command::Subscribe { local_channel_index, tx_channel_name, tx_hostname } => {
            assert_eq!(*local_channel_index, 0);
            assert_eq!(tx_channel_name, "L");
            assert_eq!(tx_hostname, "mixer");
        }
        _ => panic!("wrong command"),
    }
    assert!(matches!(commands[1], Command::Unsubscribe { local_channel_index: 1 }));
    let info = device(3, 0);
    let statuses = vec![None, None, None];
    assert!(arc_server::can_decide(&info, true, 0x3010, 0, &c));
    match arc_server::decide(&info, Some(&statuses), 0x3010, 0, &c) {
        ArcAction::Subscribe(commands) => assert_eq!(commands.len(), 2),
        _ => panic!("not understood"),
    }
}

#[test]
fn incomplete_subscriptions_are_not_readable() {
    assert!(!arc_server::is_subscription_readable(&[0]));
    assert!(arc_server::is_subscription_readable(&[0, 0]));
    assert!(!arc_server::is_subscription_readable(&[0, 1, 0, 1, 0, 0, 0]));
    assert!(!arc_server::is_subscription_readable(&[0, 1, 0, 0, 0, 0, 0, 0]));
    // the name is not terminated
    assert!(!arc_server::is_subscription_readable(&[0, 1, 0, 1, 0, 18, 0, 18, b'a']));
}

#[test]
fn node_is_described() {
    let info = device(0, 0);
    let expected = vec![0, 0, 0, 0, 10, 0, 0, 1, 0, 0, 0, 1, 0, 0, 10, 0, 0, 1, 0x21, 0xfc, 0, 0];
    assert_eq!(cmc_server::respond(&info, 0x1001, 0), Some(expected));
    assert_eq!(cmc_server::respond(&info, 0x1001, 1), None);
    assert_eq!(cmc_server::respond(&info, 0x1002, 0), None);
}

fn request_packet(opcode: [u8; 8]) -> Vec<u8> {
    let mut packet = vec![0; 24];
    packet.extend_from_slice(&opcode);
    packet
}

#[test]
fn requests_for_information_are_read() {
    assert_eq!(read_request(&request_packet([7, 0x2a, 0, 0x61, 0, 0, 0, 0])), Some(Request::BoardInfo));
    assert_eq!(read_request(&request_packet([7, 0x99, 0, 0xc1, 0, 0, 0, 0])), Some(Request::ProductInfo));
    assert_eq!(read_request(&request_packet([7, 0x2a, 0, 0x62, 0, 0, 0, 0])), Some(Request::Unknown));
    assert_eq!(read_request(&request_packet([8, 0x2a, 0, 0x61, 0, 0, 0, 0])), Some(Request::Unknown));
    assert_eq!(read_request(&request_packet([7, 0x2a, 0, 0x61, 0, 0, 0, 1])), Some(Request::Unknown));
    assert_eq!(read_request(&[0; 31]), None);
}

#[test]
fn heartbeat_is_announced() {
    let mut multicaster = Multicaster::new(&device(0, 0), 0, 5, 0x0102);
    let a = multicaster.send_heartbeat();
    assert_eq!(a.destination, Destination::Heartbeat);
    assert_eq!(a.destination.ip_address(), [224, 0, 0, 233]);
    assert_eq!(a.destination.port(), 8708);
    let mut expected = vec![0xff, 0xfe, 0, 48, 0, 1, 0, 0, 0, 0, 10, 0, 0, 1, 0, 0];
    expected.extend_from_slice(b"Audinate");
    expected.extend_from_slice(&[0, 8, 0, 1, 0x10, 0, 0, 0]);
    expected.extend_from_slice(&[0, 0x10, 0x80, 1, 0, 4, 0, 4, 0, 1, 0, 0, 0, 0, 0, 0]);
    assert_eq!(a.packet, expected);
    assert_eq!(&multicaster.send_heartbeat().packet[4..6], &[0, 2]);
}

#[test]
fn short_vendor_is_padded_with_spaces() {
    let mut info = device(0, 0);
    info.vendor_string = "Ace".to_string();
    let mut multicaster = Multicaster::new(&info, 0, 5, 0);
    assert_eq!(&multicaster.send_heartbeat().packet[16..24], b"Ace     ");
}

#[test]
fn board_and_product_are_announced_on_request() {
    let info = device(0, 0);
    let mut multicaster = Multicaster::new(&info, 3, 5, 0x0102);
    let board = multicaster.answer(&info, Some(Request::BoardInfo)).unwrap();
    assert_eq!(board.destination, Destination::DeviceInfo);
    assert_eq!(board.destination.ip_address(), [224, 0, 0, 231]);
    assert_eq!(board.destination.port(), 8702);
    assert_eq!(board.packet.len(), 232);
    assert_eq!(&board.packet[24..32], &[7, 0x2a, 0, 0x60, 0, 0, 0, 0]);
    assert_eq!(&board.packet[32..40], &[3, 5, 1, 2, 1, 3, 0, 3]);
    assert_eq!(&board.packet[44..52], b"Inferno-");
    assert_eq!(&board.packet[32 + 0x27..32 + 0x2c], &[7, 1, 0, 0, 0]);
    assert_eq!(&board.packet[32 + 0x38..32 + 0x38 + 13], b"Inferno-AoIP\0");
    assert_eq!((board.packet[32 + 0x16], board.packet[32 + 0xbb]), (0x10, 0x1f));
    let product = multicaster.answer(&info, Some(Request::ProductInfo)).unwrap();
    assert_eq!(product.packet.len(), 368);
    assert_eq!(&product.packet[4..6], &[0, 2]);
    assert_eq!(&product.packet[32..48], b"Inferno-Inferno-");
    assert_eq!(&product.packet[32 + 0x2c..32 + 0x2c + 13], b"Inferno-AoIP\0");
    assert_eq!(&product.packet[32 + 0xac..32 + 0xac + 4], b"App\0");
    assert!(multicaster.answer(&info, Some(Request::Unknown)).is_none());
    assert!(multicaster.answer(&info, None).is_none());
    assert_eq!(&multicaster.send_board_info(&info).packet[4..6], &[0, 3]);
    assert_eq!(&multicaster.send_product_info(&info).packet[4..6], &[0, 4]);
}

#[test]
fn messages_are_announced() {
    let message = MulticastMessage { start_code: 0xffff, opcode: [7, 0x2a, 1, 2, 0, 0, 0, 0], content: vec![5, 6] };
    assert!(is_message_sendable(&message));
    let mut multicaster = Multicaster::new(&device(0, 0), 0, 5, 0);
    let a = multicaster.send_message(&message);
    assert_eq!(&a.packet[..4], &[0xff, 0xff, 0, 34]);
    assert_eq!(&a.packet[24..], &[7, 0x2a, 1, 2, 0, 0, 0, 0, 5, 6]);
    let long = MulticastMessage { start_code: 0, opcode: [0; 8], content: vec![0; 1469] };
    assert!(!is_message_sendable(&long));
}

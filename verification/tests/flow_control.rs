use inferno_aoip::flows_transmitter::Command;
use inferno_aoip::flow_table::{
    make_handle, make_socket_number, new_cookie, split_handle, split_socket_number, AddFlowError, FlowChoice,
    FlowError, FlowInfo, FlowsTransmitter,
};
use inferno_aoip::flows_control_server::{
    add_flow_response, can_decide, decide, found_response, is_flow_request_readable, read_flow_request, FlowAction,
};
use inferno_aoip::protocol::flows_control::{
    make_flow_request, make_stop_request, make_update_request, FlowRequest, OPCODE_REQUEST_FLOW, OPCODE_STOP_FLOW,
    OPCODE_UPDATE_FLOW, START_CODE,
};
use inferno_aoip::protocol::req_resp::make_packet;

fn packet(opcode1: u16, opcode2: u16, content: &[u8]) -> Vec<u8> {
    let mut buf = vec![0; 10 + content.len()];
    make_packet(&mut buf, START_CODE, 1, opcode1, opcode2, content);
    buf
}

fn flow_request(sample_rate: u32, fpp: u16) -> Vec<u8> {
    let channels = [Some(1), None, Some(8)];
    let request = FlowRequest {
        hostname: "receiver",
        ip_address: [10, 0, 0, 7],
        sample_rate,
        bits_per_sample: 24,
        fpp,
        channels: &channels,
        rx_port: 0x1234,
        rx_flow_name: "flow 1",
    };
    packet(OPCODE_REQUEST_FLOW, 0, &make_flow_request(&request))
}

#[test]
fn sent_flow_request_is_understood() {
    let bytes = flow_request(48000, 32);
    assert!(is_flow_request_readable(&bytes));
    assert!(can_decide(&bytes));
    let request = match decide(&bytes, 48000) {
        FlowAction::AddFlow(request) => request,
        _ => panic!("not understood"),
    };
    assert_eq!(request.hostname, "receiver");
    assert_eq!(request.rx_flow_name, "flow 1");
    assert_eq!((request.sample_rate, request.bits_per_sample, request.fpp), (48000, 24, 32));
    assert_eq!(request.channel_indices, vec![Some(0), None, Some(7)]);
    assert_eq!((request.rx_ip, request.rx_port), ([10, 0, 0, 7], 0x1234));
}

#[test]
fn unsuitable_flow_requests_are_refused() {
    assert!(matches!(decide(&flow_request(44100, 32), 48000), FlowAction::Refuse(0x0301)));
    assert!(matches!(decide(&flow_request(48000, 33), 48000), FlowAction::Refuse(0x0302)));
    assert!(matches!(decide(&flow_request(48000, 32), 48000), FlowAction::AddFlow(_)));
}

#[test]
fn short_flow_request_is_ignored() {
    let bytes = packet(OPCODE_REQUEST_FLOW, 0, &[0; 16]);
    assert!(can_decide(&bytes));
    assert!(read_flow_request(&bytes).is_none());
    assert!(matches!(decide(&bytes, 48000), FlowAction::Ignore));
    let mut cut = flow_request(48000, 32);
    cut.truncate(cut.len() - 1);
    assert!(can_decide(&cut));
    assert!(matches!(decide(&cut, 48000), FlowAction::Ignore));
}

#[test]
fn flow_request_without_names_cannot_be_decided() {
    let mut bytes = flow_request(48000, 32);
    bytes[10] = 0xff;
    assert!(!is_flow_request_readable(&bytes));
    assert!(!can_decide(&bytes));
}

#[test]
fn sent_stop_and_update_are_understood() {
    let handle = make_handle(3, 0xabcd);
    match decide(&packet(OPCODE_STOP_FLOW, 0, &make_stop_request(handle)), 48000) {
        FlowAction::RemoveFlow(h) => assert_eq!(h, handle),
        _ => panic!("not understood"),
    }
    match decide(&packet(OPCODE_UPDATE_FLOW, 0, &make_update_request(handle, &[None, Some(2)])), 48000) {
        FlowAction::SetChannels(h, channels) => {
            assert_eq!(h, handle);
            assert_eq!(channels, vec![None, Some(1)]);
        }
        _ => panic!("not understood"),
    }
    assert!(matches!(decide(&packet(OPCODE_STOP_FLOW, 0, &[1, 2, 3]), 48000), FlowAction::Ignore));
    assert!(!can_decide(&packet(OPCODE_UPDATE_FLOW, 0, &[1, 2, 3])));
    assert!(matches!(decide(&packet(OPCODE_STOP_FLOW, 1, &handle), 48000), FlowAction::Ignore));
    assert!(matches!(decide(&packet(0x0777, 0, &[]), 48000), FlowAction::Ignore));
}

#[test]
fn flow_requests_are_answered() {
    assert_eq!(add_flow_response(Some([1, 2, 3, 4, 5, 6])), (1, vec![1, 2, 3, 4, 5, 6]));
    assert_eq!(add_flow_response(None), (0x0315, vec![]));
    assert_eq!(found_response(true), 1);
    assert_eq!(found_response(false), 0x0103);
}

#[test]
fn handles_and_addresses_are_split_again() {
    assert_eq!(make_handle(0x0102_0304, 0x0506), [1, 2, 3, 4, 5, 6]);
    assert_eq!(split_handle([1, 2, 3, 4, 5, 6]), (0x0102_0304, 0x0506));
    assert_eq!(make_socket_number([1, 2, 3, 4], 0x0506), 0x0102_0304_0506);
    assert_eq!(split_socket_number(0x0102_0304_0506), ([1, 2, 3, 4], 0x0506));
}

#[test]
fn cookies_vary() {
    let mut cookies: Vec<u16> = (0..64).map(|_| new_cookie()).collect();
    cookies.sort_unstable();
    cookies.dedup();
    assert!(cookies.len() > 1);
}

fn info(last: u8, unicast: bool) -> FlowInfo {
    let receiver = if unicast { Some("receiver".to_string()) } else { None };
    FlowInfo {
        rx_hostname: receiver.clone(),
        rx_flow_name: receiver,
        dst_addr: [10, 0, 0, last],
        dst_port: 5000,
        local_channel_indices: vec![Some(0)],
    }
}

fn address(last: u8) -> u64 {
    make_socket_number([10, 0, 0, last], 5000)
}

fn new_index(table: &mut FlowsTransmitter, last: u8) -> u32 {
    match table.choose_flow(address(last), None).0 {
        Ok(FlowChoice::New(index)) => index,
        _ => panic!("no new flow"),
    }
}

#[test]
fn flow_is_found_by_its_handle() {
    let mut table = FlowsTransmitter::new();
    assert!(table.is_empty());
    let index = new_index(&mut table, 1);
    let handle = table.insert_flow(index, 0x1234, info(1, true), false);
    assert!(!table.is_empty());
    assert_eq!(split_handle(handle), (index, 0x1234));
    assert_eq!(table.get_flow(handle), Some(index));
    assert_eq!(table.get_flow(make_handle(index, 0x1235)), None);
    assert_eq!(table.get_flow(make_handle(32, 0x1234)), None);
    assert!(table.destination_exists([10, 0, 0, 1], 5000));
    assert!(!table.destination_exists([10, 0, 0, 1], 5001));
    assert_eq!(table.remove_flow(handle), Ok(index as usize));
    assert!(table.is_empty());
    assert_eq!(table.get_flow(handle), None);
    assert_eq!(table.remove_flow(handle), Err(FlowError::NotFound));
}

#[test]
fn second_flow_to_the_same_destination_replaces_the_first() {
    let mut table = FlowsTransmitter::new();
    let index = new_index(&mut table, 1);
    let handle = table.insert_flow(index, 7, info(1, true), false);
    assert_eq!(table.choose_flow(address(1), None).0, Ok(FlowChoice::Existing(index)));
    let mut other = info(1, true);
    other.local_channel_indices = vec![Some(5)];
    assert_eq!(table.replace_info(index, other), handle);
    assert_eq!(table.get_flows_info()[index as usize].as_ref().unwrap().local_channel_indices, vec![Some(5)]);
}

#[test]
fn no_more_flows_than_the_limit() {
    let mut table = FlowsTransmitter::new();
    let mut indices = Vec::new();
    for last in 0..32 {
        let index = new_index(&mut table, last);
        table.insert_flow(index, 1, info(last, true), false);
        indices.push(index);
    }
    indices.sort_unstable();
    assert_eq!(indices, (0..32).collect::<Vec<u32>>());
    assert_eq!(table.choose_flow(address(100), None).0, Err(AddFlowError::OutOfMemory));
}

#[test]
fn requested_index_may_be_busy() {
    let mut table = FlowsTransmitter::new();
    assert_eq!(table.choose_flow(address(1), Some(5)).0, Ok(FlowChoice::New(5)));
    table.insert_flow(5, 1, info(1, false), true);
    assert_eq!(table.choose_flow(address(2), Some(5)).0, Err(AddFlowError::ResourceBusy));
}

#[test]
fn abandoned_flows_are_removed() {
    let mut table = FlowsTransmitter::new();
    table.insert_flow(3, 1, info(1, true), false);
    table.insert_flow(4, 1, info(2, true), false);
    table.insert_flow(5, 1, info(3, false), true);
    table.set_expired(3, true);
    assert_eq!(table.scan_expired(), vec![3]);
    assert!(table.flows[3].is_none());
    assert!(table.flows[4].is_some());
    assert!(table.flows[5].is_some());
    table.set_expired(4, true);
    let (choice, removed) = table.choose_flow(address(9), None);
    assert!(choice.is_ok());
    assert_eq!(removed, vec![4]);
}

#[test]
fn multicast_flow_is_activated_and_removed() {
    let mut table = FlowsTransmitter::new();
    let handle = table.insert_flow(5, 1, info(3, false), true);
    assert!(table.flows[5].as_ref().unwrap().expired);
    assert!(matches!(table.activate_multicast_flow(5), Command::ActivateFlow { index: 5 }));
    assert!(!table.flows[5].as_ref().unwrap().expired);
    assert_eq!(table.get_flow(handle), Some(5));
    assert_eq!(table.remove_multicast_flow(5), Ok(()));
    assert_eq!(table.remove_multicast_flow(5), Err(FlowError::NotFound));
    table.insert_flow(6, 1, info(4, true), false);
    assert_eq!(table.remove_multicast_flow(6), Err(FlowError::PermissionDenied));
    assert!(info(3, false).is_multicast());
    assert!(!info(4, true).is_multicast());
}

#[test]
fn channels_of_a_flow_are_changed() {
    let mut table = FlowsTransmitter::new();
    let handle = table.insert_flow(2, 9, info(1, true), false);
    assert_eq!(table.set_channels(handle, vec![Some(4), None]), Ok(2));
    assert_eq!(table.get_flows_info()[2].as_ref().unwrap().local_channel_indices, vec![Some(4), None]);
    assert_eq!(table.set_channels(make_handle(2, 8), vec![]), Err(FlowError::NotFound));
}

#[test]
fn multicast_destination_is_unused() {
    let mut table = FlowsTransmitter::new();
    let (ip, port) = table.multicast_destination(5, 6, 4321).unwrap();
    assert_eq!((ip, port), ([239, 255, 5, 6], 4321));
    let mut used = info(0, false);
    used.dst_addr = ip;
    used.dst_port = port;
    table.insert_flow(0, 1, used, true);
    assert!(table.multicast_destination(5, 6, 4321).is_none());
}

#[test]
fn random_multicast_destination_is_in_the_local_scope() {
    let table = FlowsTransmitter::new();
    let mut drawn = vec![];
    for _ in 0..16 {
        let (ip, port) = table.random_multicast_destination(4321);
        assert_eq!((ip[0], ip[1], port), (239, 255, 4321));
        drawn.push(ip);
    }
    assert!(drawn.iter().any(|ip| *ip != drawn[0]));
}

#[test]
fn next_unused_multicast_destination_is_found() {
    let mut table = FlowsTransmitter::new();
    assert_eq!(table.multicast_destination_from(0x0506, 4321), ([239, 255, 5, 6], 4321));
    // all but the last two flows go to addresses which follow each other, past the last one
    for i in 0..30u16 {
        let number = 0xfff0u16.wrapping_add(i);
        let mut used = info(0, false);
        used.dst_addr = [239, 255, (number >> 8) as u8, number as u8];
        used.dst_port = 4321;
        table.insert_flow(i as u32, i, used, true);
    }
    assert_eq!(table.multicast_destination_from(0xfff0, 4321), ([239, 255, 0, 14], 4321));
    assert_eq!(table.multicast_destination_from(0xfff5, 4321), ([239, 255, 0, 14], 4321));
    assert_eq!(table.multicast_destination_from(0xffef, 4321), ([239, 255, 255, 0xef], 4321));
    assert_eq!(table.multicast_destination_from(0xfff0, 4322), ([239, 255, 255, 0xf0], 4322));
    let (ip, port) = table.random_multicast_destination(4321);
    assert!(!table.destination_exists(ip, port));
}

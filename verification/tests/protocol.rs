use inferno_aoip::protocol::flows_control::{
    classify_reply, make_flow_request, make_stop_request, make_update_request, read_handle, FlowControlError,
    FlowRequest, FlowsControlClient, Reply, OPCODE_REQUEST_FLOW, OPCODE_STOP_FLOW, OPCODE_UPDATE_FLOW, START_CODE,
};
use inferno_aoip::protocol::{mcast, req_resp};

#[test]
fn request_packet_is_made() {
    let mut buf = [9u8; 16];
    let len = req_resp::make_packet(&mut buf, 0x1102, 0x0304, 0x0506, 0x0708, &[0xaa, 0xbb]);
    assert_eq!(len, 12);
    assert_eq!(buf, [0x11, 0x02, 0, 12, 3, 4, 5, 6, 7, 8, 0xaa, 0xbb, 9, 9, 9, 9]);
}

#[test]
fn request_packet_must_fit() {
    assert!(req_resp::does_packet_fit(6, 16));
    assert!(!req_resp::does_packet_fit(7, 16));
    assert!(!req_resp::does_packet_fit(usize::MAX, 16));
}

#[test]
fn made_request_packet_is_viewed() {
    let mut buf = [0u8; 13];
    let len = req_resp::make_packet(&mut buf, 0x2729, 513, 0x1000, 1, b"abc");
    let view = req_resp::PacketView::new(&buf[..len]).unwrap();
    assert_eq!((view.start_code, view.total_length, view.seqnum), (0x2729, 13, 513));
    assert_eq!((view.opcode1, view.opcode2), (0x1000, 1));
    assert_eq!(view.content, b"abc");
    assert!(req_resp::PacketView::new(&buf[..9]).is_none());
    assert!(req_resp::PacketView::new(&buf[..10]).unwrap().content.is_empty());
}

#[test]
fn response_echoes_the_request() {
    let mut conn = req_resp::Connection::new();
    assert!(conn.recv(&[0u8; 9]).is_none());
    assert!(conn.remote.is_none());
    let request = [0x27, 0x29, 0, 10, 0x12, 0x34, 0x10, 0x02, 0, 0];
    let view = conn.recv(&request).unwrap();
    assert_eq!(view.opcode1, 0x1002);
    let mut buf = [0u8; 11];
    assert_eq!(conn.respond(&mut buf, &[7]), 11);
    assert_eq!(buf, [0x27, 0x29, 0, 11, 0x12, 0x34, 0x10, 0x02, 0, 1, 7]);
    assert_eq!(conn.respond_with_code(&mut buf, 0x8112, &[7]), 11);
    assert_eq!(buf, [0x27, 0x29, 0, 11, 0x12, 0x34, 0x10, 0x02, 0x81, 0x12, 7]);
}

#[test]
fn multicast_packet_is_made_and_viewed() {
    let mut buf = [9u8; 40];
    let id = [1, 2, 3, 4, 5, 6, 7, 8];
    let len = mcast::make_packet(&mut buf, 0xffff, 0x0102, id, *b"Audinate", [7, 42, 0, 96, 0, 0, 0, 0], b"xyz");
    assert_eq!(len, 35);
    assert_eq!(&buf[..8], &[0xff, 0xff, 0, 35, 1, 2, 0, 0]);
    assert_eq!(&buf[8..16], &id);
    assert_eq!(&buf[16..24], b"Audinate");
    assert_eq!(&buf[24..32], &[7, 42, 0, 96, 0, 0, 0, 0]);
    assert_eq!(&buf[32..], b"xyz\x09\x09\x09\x09\x09");
    let view = mcast::PacketView::new(&buf[..len]).unwrap();
    assert_eq!((view.start_code, view.total_length, view.seqnum, view.process), (0xffff, 35, 0x0102, 0));
    assert_eq!(view.factory_device_id, &id);
    assert_eq!(view.vendor, b"Audinate");
    assert_eq!(view.content, b"xyz");
    assert!(mcast::PacketView::new(&buf[..31]).is_none());
}

#[test]
fn multicast_packet_must_fit() {
    assert!(mcast::does_packet_fit(8, 40));
    assert!(!mcast::does_packet_fit(9, 40));
}

#[test]
fn errors_of_flow_control_have_codes() {
    assert_eq!(FlowControlError::FlowNotFound.code(), 0x0103);
    assert_eq!(FlowControlError::TooManyTXFlows.code(), 0x0315);
    assert_eq!(FlowControlError::SampleRateMismatch.code(), 0x0301);
}

#[test]
fn update_and_stop_requests_name_the_flow() {
    let handle = [1, 2, 3, 4, 5, 6];
    assert_eq!(make_stop_request(handle), vec![1, 2, 3, 4, 5, 6]);
    let body = make_update_request(handle, &[Some(3), None]);
    assert_eq!(body, vec![1, 2, 3, 4, 5, 6, 0, 2, 0, 3, 0, 0]);
}

#[test]
fn flow_request_holds_what_is_asked_for() {
    let channels = [Some(1), None, Some(0x0203)];
    let body = make_flow_request(&FlowRequest {
        hostname: "receiver",
        ip_address: [10, 0, 0, 7],
        sample_rate: 48000,
        bits_per_sample: 24,
        fpp: 32,
        channels: &channels,
        rx_port: 0x1234,
        rx_flow_name: "flow",
    });
    let mut expected = vec![
        0, 0x36, 0, 0, 0xbb, 0x80, 0, 0, 0, 24, 0, 1, 0, 3, 0, 0x48, 0, 1, 0, 0, 2, 3, 0, 0x22, 0x0a, 0, 0, 2, 0, 32,
        0, 0x3f, 0, 0, 0, 0, 0, 0, 0, 0, 0, 0, 0, 0,
    ];
    expected.extend_from_slice(b"receiver\0flow\0");
    expected.extend_from_slice(&[0, 0, 0, 0]);
    expected.extend_from_slice(&[8, 2, 0x12, 0x34, 10, 0, 0, 7]);
    assert_eq!(body, expected);
}

#[test]
fn replies_are_told_apart() {
    let mut buf = [0u8; 16];
    let len = req_resp::make_packet(&mut buf, START_CODE, 5, OPCODE_REQUEST_FLOW, 1, &[1, 2, 3, 4, 5, 6]);
    assert_eq!(classify_reply(&buf[..len], OPCODE_REQUEST_FLOW, 5), Reply::Granted);
    assert_eq!(classify_reply(&buf[..len], OPCODE_REQUEST_FLOW, 6), Reply::Spurious);
    assert_eq!(classify_reply(&buf[..len], OPCODE_STOP_FLOW, 5), Reply::Spurious);
    assert_eq!(classify_reply(&buf[..9], OPCODE_REQUEST_FLOW, 5), Reply::TooShort);
    let len = req_resp::make_packet(&mut buf, START_CODE, 5, OPCODE_UPDATE_FLOW, 0x0301, &[]);
    assert_eq!(classify_reply(&buf[..len], OPCODE_UPDATE_FLOW, 5), Reply::Refused);
}

#[test]
fn handle_is_read_from_the_reply() {
    assert_eq!(read_handle(&[1, 2, 3, 4, 5, 6]), Some([1, 2, 3, 4, 5, 6]));
    assert_eq!(read_handle(&[1, 2, 3, 4, 5, 6, 7]), Some([1, 2, 3, 4, 5, 6]));
    assert_eq!(read_handle(&[1, 2, 3, 4, 5]), None);
}

#[test]
fn requests_are_numbered() {
    let mut client = FlowsControlClient::new();
    let first = client.next_seqnum();
    let second = client.next_seqnum();
    assert_eq!(second, first.wrapping_add(1));
    client.seqnum = u16::MAX;
    let a = client.next_seqnum();
    let b = client.next_seqnum();
    assert_eq!(b, a.wrapping_add(1));
}

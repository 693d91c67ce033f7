use inferno_aoip::common::Sample;
use inferno_aoip::flows_receiver::{Command, FlowsReceiver, FlowsReceiverInternal, Incoming};
use inferno_aoip::flows_rx::{keepalive_content, read_samples, read_timestamp, Sink, SocketData};
use inferno_aoip::ring_buffer::{new_owned, OwnedBuffer, RBOutput};

type Receiver = FlowsReceiverInternal<OwnedBuffer<Sample>>;
type Socket = SocketData<OwnedBuffer<Sample>>;

fn sink(id: usize) -> Sink<OwnedBuffer<Sample>> {
    Sink { id, input: new_owned::<Sample>(16, 0, 4) }
}

fn packet(seconds: u32, samples: u32, media: &[u8]) -> Vec<u8> {
    let mut p = vec![2];
    p.extend_from_slice(&seconds.to_be_bytes());
    p.extend_from_slice(&samples.to_be_bytes());
    p.extend_from_slice(media);
    p
}

fn receiver() -> Receiver {
    FlowsReceiverInternal::new(48000, None, false, 0)
}

fn read(receiver: &Receiver, socket: usize, channel: usize, at: usize, count: usize) -> Vec<Sample> {
    let ch = receiver.sockets[socket].as_ref().unwrap().channels[channel].as_ref().unwrap();
    let output = RBOutput::new(ch.sinks[0].input.shared());
    let mut samples = vec![0; count];
    let r = output.read_at(at, &mut samples);
    assert_eq!((r.useful_start_index, r.useful_end_index), (0, count));
    samples
}

#[test]
fn keepalive_is_two_bytes() {
    assert_eq!(keepalive_content(), [0x13, 0x37]);
}

#[test]
fn packet_is_read() {
    let p = packet(2, 5, &[1, 2, 3, 4, 5, 6, 7, 8, 9, 10, 11, 12, 13]);
    assert_eq!(read_timestamp(&p, 48000), 96005);
    assert_eq!(read_samples(&p, 0, 2, 3), vec![0x0102_0300, 0x0708_0900]);
    assert_eq!(read_samples(&p, 1, 2, 3), vec![0x0405_0600, 0x0a0b_0c00]);
    assert_eq!(read_samples(&p, 0, 1, 2).len(), 6);
    assert!(read_samples(&p[..9], 0, 1, 4).is_empty());
}

#[test]
fn socket_remembers_source_and_latency() {
    let mut s: Socket = SocketData::new(true, 3, 2, 48, 7);
    assert_eq!((s.channels.len(), s.last_packet_time, s.latency_samples), (2, 7, 48));
    assert!(!s.receive(&[0; 8], 1234, 48000, Some(0), 9, true));
    assert_eq!(s.last_source, None);
    let p = packet(0, 100, &[0; 6]);
    assert!(s.is_packet_holdable(p.len()));
    assert!(s.receive(&p, 1234, 48000, Some(130), 9, true));
    assert_eq!(s.last_source, Some(1234));
    assert_eq!((s.actual_latency_samples, s.last_packet_time), (30, 9));
    assert!(s.receive(&p, 1234, 48000, Some(110), 10, false));
    assert_eq!((s.actual_latency_samples, s.last_packet_time), (30, 9));
    assert!(s.receive(&p, 1234, 48000, Some(50), 11, true));
    assert_eq!((s.actual_latency_samples, s.last_packet_time), (30, 11));
}

#[test]
fn packet_too_large_for_the_buffer_is_not_holdable() {
    let mut r = receiver();
    r.add_socket(0, SocketData::new(false, 2, 1, 0, 0));
    r.connect_channel(0, 0, sink(1), None);
    let s = r.sockets[0].as_ref().unwrap();
    assert!(s.is_packet_holdable(9 + 15 * 2));
    assert!(!s.is_packet_holdable(9 + 16 * 2));
}

#[test]
fn received_samples_are_written_to_the_sink() {
    let mut r = receiver();
    r.add_socket(3, SocketData::new(false, 3, 2, 4, 0));
    r.connect_channel(3, 1, sink(1), Some(0));
    let p = packet(0, 0, &[1, 1, 1, 2, 2, 2, 3, 3, 3, 4, 4, 4]);
    assert!(r.receive(3, &p, 99, Some(2), 1));
    // samples become readable 4 samples later
    let ch = r.sockets[3].as_ref().unwrap().channels[1].as_ref().unwrap();
    assert_eq!(ch.timestamp_shift, 4);
    r.close_samples(2_000_000, Some(6));
    assert_eq!(read(&r, 3, 1, 0, 6), vec![0, 0, 0, 0, 0x0202_0200, 0x0404_0400]);
    assert!(!r.receive(4, &p, 99, Some(2), 1));
}

#[test]
fn start_time_shifts_the_samples() {
    let mut r: Receiver = FlowsReceiverInternal::new(48000, None, true, 0);
    r.add_socket(0, SocketData::new(false, 3, 1, 4, 0));
    r.connect_channel(0, 0, sink(1), None);
    assert!(!r.close_samples(10_000_000, None));
    r.start_at(1000);
    assert!(!r.waiting_for_start);
    assert_eq!(r.sockets[0].as_ref().unwrap().channels[0].as_ref().unwrap().timestamp_shift, -996);
    assert!(r.receive(0, &packet(0, 1000, &[1, 2, 3]), 99, None, 1));
    r.close_samples(20_000_000, Some(1005));
    assert_eq!(read(&r, 0, 0, 4, 1), vec![0x0102_0300]);
}

#[test]
fn disconnected_sink_is_filled_with_silence() {
    let mut r = receiver();
    r.add_socket(0, SocketData::new(false, 3, 1, 0, 0));
    r.connect_channel(0, 0, sink(1), Some(0));
    r.disconnect_channel(0, 0, 1, Some(0));
    assert!(r.sockets[0].as_ref().unwrap().channels[0].as_ref().unwrap().sinks.is_empty());
    assert_eq!(r.silence_writers.len(), 1);
    assert_eq!(r.silence_writers[0].sink.id, 1);
    assert_eq!(r.silence_writers[0].end_timestamp, 24);
    r.close_samples(1_000_000, Some(23));
    assert_eq!(r.silence_writers.len(), 1);
    r.close_samples(2_000_000, Some(24));
    assert!(r.silence_writers.is_empty());
}

#[test]
fn reconnected_sink_takes_over_from_the_silence() {
    let mut r = receiver();
    r.add_socket(0, SocketData::new(false, 3, 1, 0, 0));
    r.connect_channel(0, 0, sink(1), Some(0));
    r.disconnect_channel(0, 0, 1, Some(0));
    r.connect_channel(0, 0, sink(1), Some(5));
    assert!(r.silence_writers.is_empty());
    assert_eq!(r.sockets[0].as_ref().unwrap().channels[0].as_ref().unwrap().sinks.len(), 1);
}

#[test]
fn wrong_disconnection_changes_nothing() {
    let mut r = receiver();
    r.disconnect_channel(0, 0, 1, Some(0));
    r.add_socket(0, SocketData::new(false, 3, 1, 0, 0));
    r.connect_channel(0, 0, sink(1), Some(0));
    r.disconnect_channel(0, 0, 2, Some(0));
    assert!(r.sockets[0].as_ref().unwrap().channels[0].is_some());
    assert!(r.silence_writers.is_empty());
}

#[test]
fn commands_are_handled() {
    let mut r = receiver();
    r.wake();
    assert!(r.may_have_command);
    assert_eq!(r.poll_timeout(), Some(1_000_000));
    assert!(r.handle_command(Incoming::Command(Command::AddSocket { index: 1, socket: SocketData::new(true, 3, 1, 0, 0) }), None));
    assert!(r.sockets[1].is_some());
    let connect = Command::ConnectChannel { socket_index: 1, channel_in_flow: 0, sink: sink(4) };
    assert!(r.handle_command(Incoming::Command(connect), Some(0)));
    assert!(r.sockets[1].as_ref().unwrap().channels[0].is_some());
    let disconnect = Command::DisconnectChannel { socket_index: 1, channel_in_flow: 0, sink_id: 4 };
    assert!(r.handle_command(Incoming::Command(disconnect), Some(0)));
    assert!(r.sockets[1].as_ref().unwrap().channels[0].as_ref().unwrap().sinks.is_empty());
    assert!(r.handle_command(Incoming::Command(Command::RemoveSocket { index: 1 }), None));
    assert!(r.sockets[1].is_none());
    assert!(r.handle_command(Incoming::Command(Command::NoOp), None));
    assert!(r.handle_command(Incoming::Empty, None));
    assert!(!r.may_have_command);
    assert!(!r.handle_command(Incoming::Command(Command::Shutdown), None));
    assert!(!r.handle_command(Incoming::Disconnected, None));
}

#[test]
fn idle_receiver_waits_for_commands() {
    let mut r = receiver();
    r.may_have_command = false;
    assert_eq!(r.poll_timeout(), None);
    r.add_socket(0, SocketData::new(false, 3, 1, 0, 0));
    assert_eq!(r.poll_timeout(), Some(1_000_000));
    let notifying: Receiver = FlowsReceiverInternal::new(48000, Some(96), false, 0);
    assert_eq!(notifying.closing_samples_interval, 1_000_000);
    let faster: Receiver = FlowsReceiverInternal::new(48000, Some(48), false, 0);
    assert_eq!(faster.closing_samples_interval, 500_000);
}

#[test]
fn samples_are_closed_regularly() {
    let mut r = receiver();
    assert!(!r.close_samples(999_999, None));
    assert_eq!(r.next_closing_samples, 1_000_000);
    assert!(r.close_samples(1_000_000, None));
    assert_eq!(r.next_closing_samples, 2_000_000);
    assert!(!r.close_samples(9_000_000, Some(5)));
    assert_eq!(r.next_closing_samples, 10_000_000);
}

#[test]
fn keepalives_are_sent_in_turns() {
    let mut r = receiver();
    r.add_socket(1, SocketData::new(true, 3, 1, 0, 0));
    r.add_socket(2, SocketData::new(false, 3, 1, 0, 0));
    let p = packet(0, 0, &[1, 2, 3]);
    r.receive(1, &p, 77, None, 0);
    r.receive(2, &p, 78, None, 0);
    let interval = 250_000_000 / 32;
    assert_eq!(r.keepalive(interval - 1), None);
    assert_eq!(r.keepalive(interval), None);
    assert_eq!(r.keepalive(2 * interval), Some(77));
    assert_eq!(r.keepalive(3 * interval), None);
    assert_eq!(r.keepalive_index, 3);
    for i in 4..=32 {
        assert_eq!(r.keepalive(i * interval), None);
    }
    assert_eq!(r.keepalive_index, 0);
}

#[test]
fn handle_remembers_connections() {
    let mut handle = FlowsReceiver::new(4);
    let add: Command<OwnedBuffer<Sample>> = handle.add_socket(5, 4000, true, 3, 2, 96, 0);
    match add {
        Command::AddSocket { index, socket } => {
            assert_eq!(index, 5);
            assert_eq!((socket.channels.len(), socket.bytes_per_sample, socket.latency_samples), (2, 3, 96));
        }
        _ => panic!("wrong command"),
    }
    assert_eq!(handle.flows_info[5].as_ref().unwrap().rx_port, 4000);
    assert_eq!(handle.flows_info[5].as_ref().unwrap().latency_samples, 96);
    match handle.connect_channel(5, 1, 3, sink(9)) {
        Command::ConnectChannel { socket_index, channel_in_flow, sink } => {
            assert_eq!((socket_index, channel_in_flow, sink.id), (5, 1, 9));
        }
        _ => panic!("wrong command"),
    }
    assert_eq!(handle.flows_info[5].as_ref().unwrap().channels_map[1].get(3), Some(true));
    assert_eq!(handle.flows_info[5].as_ref().unwrap().channels_map[1].get(2), Some(false));
    let disconnect: Command<OwnedBuffer<Sample>> = handle.disconnect_channel(5, 1, 3, 9);
    assert!(matches!(disconnect, Command::DisconnectChannel { socket_index: 5, channel_in_flow: 1, sink_id: 9 }));
    assert_eq!(handle.flows_info[5].as_ref().unwrap().channels_map[1].get(3), Some(false));
    let remove: Command<OwnedBuffer<Sample>> = handle.remove_socket(5);
    assert!(matches!(remove, Command::RemoveSocket { index: 5 }));
    assert!(handle.flows_info[5].is_none());
}

#[test]
fn all_sinks_of_a_channel_get_samples_at_the_same_position() {
    let mut r: Receiver = FlowsReceiverInternal::new(48000, None, true, 0);
    r.add_socket(0, SocketData::new(false, 3, 2, 4, 0));
    // one before and two after the start is known, the last one on a channel of its own
    r.connect_channel(0, 0, sink(1), None);
    r.start_at(1000);
    r.connect_channel(0, 0, sink(2), Some(1000));
    r.connect_channel(0, 1, sink(3), Some(1000));
    assert!(r.receive(0, &packet(0, 1000, &[1, 2, 3, 1, 2, 3]), 99, None, 1));
    r.close_samples(20_000_000, Some(1005));
    let s = r.sockets[0].as_ref().unwrap();
    for (c, k) in [(0, 0), (0, 1), (1, 0)] {
        let ch = s.channels[c].as_ref().unwrap();
        assert_eq!((ch.latency_samples, ch.timestamp_shift), (4, -996));
        let mut samples = vec![0; 1];
        RBOutput::new(ch.sinks[k].input.shared()).read_at(4, &mut samples);
        assert_eq!(samples, vec![0x0102_0300]);
    }
}

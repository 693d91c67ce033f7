use inferno_aoip::common::Sample;
use inferno_aoip::device_server::{accept_snapshot, ReadPositionSnapshot};
use inferno_aoip::real_time_box_channel::{channel, RealTimeBoxReceiver, RealTimeBoxSender};
use inferno_aoip::recorder::{buffer_size, interleave};
use inferno_aoip::ring_buffer::{new_owned, OwnedBuffer, RBInput, RBOutput};
use inferno_aoip::samples_collector::{
    channel_to_send, get_available_num_samples, get_min_max_end_timestamps, get_samples_or_silence, plan_read, Channel,
    Command, PeriodicSamplesCollector, ToRealTime, BUFFER_SIZE,
};

fn ring(start: usize, samples: &[Sample]) -> RBInput<Sample, OwnedBuffer<Sample>> {
    let mut input = new_owned::<Sample>(64, start, 0);
    input.write_from_at(start, samples);
    input
}

#[test]
fn samples_are_read_from_the_buffer() {
    let input = ring(0, &[1, 2, 3, 4]);
    let output = RBOutput::new(input.shared());
    let mut ch = Channel::new(0, 0);
    assert!(!ch.was_connected);
    let mut buffer = [9; 2];
    assert!(ch.read_samples_from_ringbuffer(&output, 1, &mut buffer));
    assert_eq!(buffer, [2, 3]);
    assert!(ch.was_connected);
    let mut buffer = [9; 4];
    assert!(!ch.read_samples_from_ringbuffer(&output, 2, &mut buffer));
    assert_eq!(buffer, [3, 4, 0, 0]);
}

#[test]
fn samples_are_read_before_the_latency() {
    let input = ring(0, &[1, 2, 3, 4, 5, 6]);
    let output = RBOutput::new(input.shared());
    let mut ch = Channel::new(0, 2);
    let mut buffer = [9; 3];
    assert!(ch.get_samples(&output, 6, &mut buffer));
    assert_eq!(buffer, [2, 3, 4]);
}

#[test]
fn unconnected_channel_is_silent() {
    let mut buffer = [9; 3];
    let source: Option<RBOutput<Sample, OwnedBuffer<Sample>>> = None;
    assert!(get_samples_or_silence(&mut None, &source, 6, &mut buffer));
    assert_eq!(buffer, [0; 3]);
    let input = ring(0, &[1, 2, 3]);
    let mut ch = Some(Channel::new(0, 0));
    assert!(get_samples_or_silence(&mut ch, &Some(RBOutput::new(input.shared())), 3, &mut buffer));
    assert_eq!(buffer, [1, 2, 3]);
    assert!(ch.unwrap().was_connected);
}

#[test]
fn earliest_and_latest_end_are_found() {
    assert_eq!(get_min_max_end_timestamps(&vec![]), None);
    assert_eq!(get_min_max_end_timestamps(&vec![5, 3, 9]), Some((3, 9)));
    assert_eq!(get_min_max_end_timestamps(&vec![1, u64::MAX]), Some((u64::MAX, 1)));
    assert_eq!(get_available_num_samples(&vec![5, 3, 9], 1), 2);
    assert_eq!(get_available_num_samples(&vec![5, 3, 9], 4), 0);
    assert_eq!(get_available_num_samples(&vec![], 4), 0);
}

#[test]
fn readings_are_planned() {
    let first = plan_read(1000, 1100, None);
    assert_eq!((first.start_timestamp, first.count, first.next_clock), (None, 0, 1000));
    let second = plan_read(1480, 1500, Some(first.next_clock));
    assert_eq!((second.start_timestamp, second.count, second.next_clock), (Some(1000), 480, 1480));
    // a channel which lags behind does not stop the others
    let lagging = plan_read(1480, 21480, Some(1480));
    assert_eq!((lagging.readable_until, lagging.start_timestamp, lagging.count), (11880, Some(1480), 10400));
    let huge = plan_read(1_000_000, 1_000_000, Some(0));
    assert_eq!((huge.start_timestamp, huge.count), (Some(1_000_000 - 192_000), BUFFER_SIZE));
}

#[test]
fn channels_are_collected() {
    let a = ring(0, &[1, 2, 3, 4]);
    let b = ring(0, &[5, 6, 7]);
    let mut collector = PeriodicSamplesCollector::new(3);
    collector.connect_channel(0, 0);
    assert!(collector.handle_command(Some(Command::ConnectChannel { channel_index: 2, latency_samples: 0 })));
    collector.clock = Some(1);
    let sources = vec![Some(RBOutput::new(a.shared())), None, Some(RBOutput::new(b.shared()))];
    let mut buffers = vec![vec![9; BUFFER_SIZE], vec![9; BUFFER_SIZE], vec![9; BUFFER_SIZE]];
    assert_eq!(collector.collect(&sources, &mut buffers), Some(2));
    assert_eq!(collector.clock, Some(3));
    assert_eq!(buffers[0][..3], [2, 3, 9]);
    assert_eq!(buffers[1][..3], [0, 0, 9]);
    assert_eq!(buffers[2][..3], [6, 7, 9]);
    assert!(collector.handle_command(Some(Command::DisconnectChannel { channel_index: 2 })));
    assert!(collector.channels[2].is_none());
    collector.disconnect_channel(0);
    let nothing: Vec<Option<RBOutput<Sample, OwnedBuffer<Sample>>>> = vec![None, None, None];
    assert_eq!(collector.collect(&nothing, &mut buffers), None);
    assert!(collector.handle_command(Some(Command::NoOp)));
    assert!(!collector.handle_command(Some(Command::Shutdown)));
    assert!(!collector.handle_command(None));
}

#[test]
fn channels_are_sent_to_the_real_time_thread() {
    match channel_to_send(Some(Command::ConnectChannel { channel_index: 3, latency_samples: 48 })) {
        Some((3, Some(ch))) => assert_eq!(ch.latency_samples, 48),
        _ => panic!("not sent"),
    }
    assert!(matches!(channel_to_send(Some(Command::DisconnectChannel { channel_index: 3 })), Some((3, None))));
    assert!(channel_to_send(Some(Command::NoOp)).is_none());
    assert!(channel_to_send(None).is_none());
    let (sender, mut receiver) = channel::<Option<Channel>>(Box::new(None));
    let to_real_time = ToRealTime { senders: vec![sender] };
    assert!(to_real_time.handle_command(Some(Command::ConnectChannel { channel_index: 0, latency_samples: 48 })));
    assert!(receiver.update());
    assert_eq!(receiver.get().as_ref().unwrap().latency_samples, 48);
    assert!(!to_real_time.handle_command(Some(Command::Shutdown)));
}

#[test]
fn last_value_is_received() {
    let (sender, mut receiver): (RealTimeBoxSender<i32>, RealTimeBoxReceiver<i32>) = channel(Box::new(1));
    assert_eq!(*receiver.get(), 1);
    assert!(!receiver.update());
    sender.send(Box::new(2));
    sender.send(Box::new(3));
    assert_eq!(*receiver.get(), 1);
    assert!(receiver.update());
    assert_eq!(*receiver.get(), 3);
    assert!(!receiver.update());
    *receiver.get_mut() = 7;
    assert_eq!(*receiver.get(), 7);
}

#[test]
fn value_is_not_taken_while_garbage_waits() {
    let (sender, mut receiver) = channel::<i32>(Box::new(1));
    sender.send(Box::new(2));
    assert!(receiver.update());
    // the sender frees what the receiver left behind before it sends again
    sender.send(Box::new(3));
    assert!(receiver.update());
    assert_eq!(*receiver.get(), 3);
    sender.collect_garbage();
    assert!(!receiver.update());
}

#[test]
fn received_value_replaces_the_current_one() {
    let (_sender, mut receiver) = channel::<i32>(Box::new(1));
    let accepted = receiver.accept(None, Some(Box::new(2)));
    assert!(accepted.updated);
    assert_eq!(accepted.left_behind, Some(Box::new(1)));
    assert_eq!(*receiver.get(), 2);
    let accepted = receiver.accept(Some(Box::new(1)), None);
    assert!(!accepted.updated);
    assert_eq!(accepted.left_behind, Some(Box::new(1)));
    let accepted = receiver.accept(None, None);
    assert!(!accepted.updated && accepted.left_behind.is_none());
    assert_eq!(*receiver.get(), 2);
}

#[test]
fn snapshot_is_read_when_it_is_stable() {
    let snapshot = ReadPositionSnapshot::new();
    assert_eq!(snapshot.read(), Some((usize::MAX, 0)));
    snapshot.write(1000, 77);
    assert_eq!(snapshot.read(), Some((1000, 77)));
    snapshot.write(2000, 88);
    assert_eq!(snapshot.read(), Some((2000, 88)));
    assert_eq!(accept_snapshot(2, 5, 6, 2), Some((5, 6)));
    assert_eq!(accept_snapshot(3, 5, 6, 3), None);
    assert_eq!(accept_snapshot(2, 5, 6, 4), None);
}

#[test]
fn recorded_channels_are_interleaved() {
    let channels = vec![vec![0x0102_0304, 0x0506_0708, 99], vec![-1, 0x1112_1314, 99]];
    let mut buffer = vec![9; 18];
    assert_eq!(interleave(&channels, 2, true, &mut buffer), 16);
    assert_eq!(
        buffer,
        vec![4, 3, 2, 1, 0xff, 0xff, 0xff, 0xff, 8, 7, 6, 5, 0x14, 0x13, 0x12, 0x11, 9, 9]
    );
    let mut buffer = Vec::new();
    assert_eq!(interleave(&channels, 1, false, &mut buffer), 8);
    assert_eq!(buffer, vec![1, 2, 3, 4, 0xff, 0xff, 0xff, 0xff]);
    assert_eq!(buffer_size(2, 48000), 38400);
}

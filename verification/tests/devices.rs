use inferno_aoip::channel_rx_buffer::FragmentDescriptor;
use inferno_aoip::soundcard::{
    buffer_sizes, channel_layout, channels_of, period_bytes, read_channels_count, ChannelArea, DeviceCommand,
    LayoutError, StreamDirection, StreamPosition, Streams, NO_TIMESTAMP,
};
use inferno_aoip::wired::{node_name, node_rate, plan_wakeup, Direction, StreamState};

#[test]
fn pointer_follows_the_clock() {
    let mut position = StreamPosition::new(1000);
    let p = position.pointer(NO_TIMESTAMP, None, StreamDirection::Capture, 0, false);
    assert_eq!((p.started_at, p.pointer), (None, Some(0)));
    let p = position.pointer(NO_TIMESTAMP, Some(500), StreamDirection::Capture, 0, false);
    assert_eq!((p.started_at, p.pointer), (Some(500), Some(0)));
    let p = position.pointer(NO_TIMESTAMP, Some(510), StreamDirection::Capture, 0, true);
    assert_eq!((p.started_at, p.pointer), (None, Some(10)));
    let p = position.pointer(507, Some(510), StreamDirection::Capture, 0, true);
    assert_eq!(p.pointer, Some(7));
}

#[test]
fn pointer_reports_overruns() {
    let mut position = StreamPosition::new(1000);
    assert_eq!(position.start(Some(500)), Some(500));
    assert_eq!(position.start(Some(600)), None);
    assert_eq!(position.pointer(510, None, StreamDirection::Capture, 10, true).pointer, Some(10));
    assert_eq!(position.pointer(510, None, StreamDirection::Capture, 11, true).pointer, None);
    assert_eq!(position.pointer(510, None, StreamDirection::Capture, 11, false).pointer, Some(10));
    assert_eq!(position.pointer(510, None, StreamDirection::Playback, 10, true).pointer, Some(10));
    assert_eq!(position.pointer(510, None, StreamDirection::Playback, 9, true).pointer, None);
}

#[test]
fn pointer_returns_below_the_boundary() {
    let mut position = StreamPosition::new(1000);
    position.start(Some(0));
    assert_eq!(position.pointer(1000, None, StreamDirection::Capture, 0, false).pointer, Some(1000));
    assert_eq!(position.pointer(1001, None, StreamDirection::Capture, 0, false).pointer, Some(1));
    assert_eq!(position.boundary_add, -1000);
    assert_eq!(position.pointer(1500, None, StreamDirection::Capture, 0, false).pointer, Some(500));
}

#[test]
fn layout_of_a_channel_is_found() {
    let layout = channel_layout(ChannelArea { first: 32, step: 64 }, 100, 2).unwrap();
    assert_eq!((layout.offset, layout.length, layout.stride), (1, 199, 2));
    assert_eq!(channel_layout(ChannelArea { first: 4, step: 64 }, 100, 2).err(), Some(LayoutError::NotWholeBytes));
    assert_eq!(channel_layout(ChannelArea { first: 0, step: 60 }, 100, 2).err(), Some(LayoutError::NotWholeBytes));
    assert_eq!(channel_layout(ChannelArea { first: 8, step: 64 }, 100, 2).err(), Some(LayoutError::NotAligned));
    assert_eq!(channel_layout(ChannelArea { first: 0, step: 48 }, 100, 2).err(), Some(LayoutError::NotAligned));
}

#[test]
fn sizes_of_buffers_are_offered() {
    assert_eq!(period_bytes(2), (2 * 4 * 64, 2 * 4 * 16384));
    let sizes = buffer_sizes(2);
    assert_eq!(sizes, vec![512, 1024, 2048, 4096, 8192, 16384, 32768, 65536, 131072]);
}

#[test]
fn channels_are_counted_by_direction() {
    assert_eq!(channels_of(StreamDirection::Capture, 3, 5), 3);
    assert_eq!(channels_of(StreamDirection::Playback, 3, 5), 5);
    assert_eq!(read_channels_count(&None), Some(2));
    assert_eq!(read_channels_count(&Some("16".to_string())), Some(16));
    assert_eq!(read_channels_count(&Some("many".to_string())), None);
}

#[test]
fn streams_start_and_stop_the_device() {
    let mut streams = Streams { capturing: false, playing: false };
    assert_eq!(streams.prepare(StreamDirection::Capture), vec![DeviceCommand::StartReceiver]);
    assert_eq!(
        streams.prepare(StreamDirection::Capture),
        vec![DeviceCommand::StopReceiver, DeviceCommand::StartReceiver]
    );
    assert_eq!(streams.prepare(StreamDirection::Playback), vec![DeviceCommand::StartTransmitter]);
    assert_eq!(
        streams.prepare(StreamDirection::Playback),
        vec![DeviceCommand::StopTransmitter, DeviceCommand::StartTransmitter]
    );
    assert_eq!(streams.close(), None);
    assert_eq!(streams.stop(StreamDirection::Capture), Some(DeviceCommand::StopReceiver));
    assert_eq!(streams.stop(StreamDirection::Capture), None);
    assert_eq!(streams.stop(StreamDirection::Playback), Some(DeviceCommand::StopTransmitter));
    assert_eq!(streams.close(), Some(DeviceCommand::Shutdown));
}

#[test]
fn nodes_are_named() {
    assert_eq!(node_name("Inferno", Direction::FromNetwork), "Inferno (from network)");
    assert_eq!(node_name("Inferno", Direction::ToNetwork), "Inferno (to network)");
    assert_eq!(node_rate(48000), "1/48000");
    assert_eq!(Direction::ToNetwork.select(1, 2), 2);
}

#[test]
fn stream_is_triggered_by_the_clock() {
    let from = Direction::FromNetwork;
    let to = Direction::ToNetwork;
    let state = StreamState::new(128, 1000);
    let count = |dir: Direction, now: usize| {
        let mut s = state;
        s.handle_state(dir, now)
    };
    assert_eq!(count(from, 999), 0);
    assert_eq!(count(from, 1000), 1);
    assert_eq!(count(from, 1256), 1);
    assert_eq!(count(from, 1257), 2);
    assert_eq!(count(to, 871), 0);
    assert_eq!(count(to, 872), 1);
    assert_eq!(count(to, 1128), 1);
    assert_eq!(count(to, 1129), 2);
    let mut s = state;
    assert_eq!(s.handle_state(from, 1000 + 12001), 1);
    assert_eq!((s.next_ts, s.remaining_process), (13001, 1));
}

#[test]
fn stream_exchanges_samples() {
    let mut s = StreamState::new(128, 1000);
    s.remaining_process = 2;
    assert_eq!(s.process(Direction::FromNetwork, 1024), Some((1000, 128)));
    assert_eq!((s.next_ts, s.remaining_process), (1128, 1));
    assert_eq!(s.process(Direction::ToNetwork, 200), Some((1128, 200)));
    assert_eq!(s.process(Direction::ToNetwork, 0), None);
    assert_eq!(s.next_ts, 1328);
    s.to_catchup = 150;
    assert_eq!(s.process(Direction::FromNetwork, 1024), Some((1328, 256)));
    assert_eq!(s.to_catchup, 22);
    assert_eq!(s.process(Direction::FromNetwork, 130), Some((1584, 130)));
    assert_eq!(s.to_catchup, 0);
}

#[test]
fn wakeups_are_planned() {
    assert_eq!(plan_wakeup(1000, 1010, 48000, 128), 1138);
    assert_eq!(plan_wakeup(100_000, 1000, 48000, 128), 100_128);
    assert_eq!(plan_wakeup(1000, 25001, 48000, 128), 1128);
}

#[test]
fn fragment_is_cleared() {
    let mut fragment = FragmentDescriptor { start: 3, end: 5 };
    assert!(fragment.is_some() && !fragment.is_none());
    fragment.clear();
    assert!(fragment.is_none() && !fragment.is_some());
}

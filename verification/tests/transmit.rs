use inferno_aoip::common::Sample;
use inferno_aoip::device_server::new_transmit_buffers;
use inferno_aoip::flows_rx::{read_samples, read_timestamp};
use inferno_aoip::flows_transmitter::{AfterWait, Command, FlowsTransmitterInternal, Turn, WaitEnd};
use inferno_aoip::flows_tx::{
    build_packet, choose_wait, clear_media, clock_offset_samples, compute_timestamp_shift, earlier_of,
    latency_in_samples, published_timestamp, should_dither, should_yield, TxFlow, TxFlows, TxParameters, TxSchedule,
    Wait, NO_TIMESTAMP,
};
use inferno_aoip::ring_buffer::{new_owned, OwnedBuffer, RBInput, RBOutput};
use inferno_aoip::transmit_round::{RoundAction, TransmitRound};
use rand::rngs::SmallRng;
use rand::SeedableRng;

fn flow(channel_indices: Vec<Option<usize>>, next_ts: u64, fpp: usize, bytes_per_sample: usize) -> TxFlow {
    TxFlow { channel_indices, next_ts, fpp, bytes_per_sample, expires: None, expired: false }
}

fn parameters() -> TxParameters {
    TxParameters { sample_rate: 48000, clock_offset_samples: 0, timestamp_shift: 0, tx_source_bit_depth: 24 }
}

fn ring(start: usize, samples: &[Sample]) -> RBInput<Sample, OwnedBuffer<Sample>> {
    let mut input = new_owned::<Sample>(64, start, 0);
    input.write_from_at(start, samples);
    input
}

#[test]
fn next_packet_is_aligned() {
    let mut f = flow(vec![None], 0, 32, 3);
    f.bootstrap_next_ts(100);
    assert_eq!(f.next_ts, 128);
    f.bootstrap_next_ts(128);
    assert_eq!(f.next_ts, 160);
}

#[test]
fn flow_starts_over_after_a_jump() {
    let mut f = flow(vec![None], 1000, 10, 3);
    assert!(!f.resync(1100, 100));
    assert_eq!(f.next_ts, 1000);
    assert!(f.resync(1101, 100));
    assert_eq!(f.next_ts, 1110);
    f.next_ts = 1101 + 192000;
    assert!(!f.resync(1101, 100));
    f.next_ts = 1101 + 192001;
    assert!(f.resync(1101, 100));
    assert_eq!(f.next_ts, 1110);
}

#[test]
fn packets_are_due_until_now() {
    let mut f = flow(vec![None], 1000, 10, 3);
    assert!(f.is_packet_due(1000));
    assert!(!f.is_packet_due(999));
    assert!(!f.packet_sent(5, 10));
    assert_eq!(f.next_ts, 1000);
    assert!(f.packet_sent(10, 10));
    assert_eq!(f.next_ts, 1010);
}

#[test]
fn silent_receiver_loses_its_flow() {
    let mut f = flow(vec![None], 0, 10, 3);
    f.check_keepalive(false, 1_000_000, 48000);
    assert!(!f.expired);
    f.expires = Some(0);
    f.keep_alive(1000, 48000);
    assert_eq!(f.expires, Some(1000 + 4 * 48000));
    f.check_keepalive(false, 1000 + 4 * 48000, 48000);
    assert!(!f.expired);
    f.check_keepalive(true, 1000 + 4 * 48000 + 1, 48000);
    assert!(!f.expired);
    assert_eq!(f.expires, Some(1001 + 8 * 48000));
    f.check_keepalive(false, 1002 + 8 * 48000, 48000);
    assert!(f.expired);
}

#[test]
fn dither_is_needed_for_fewer_bits() {
    assert!(should_dither(parameters(), 16));
    assert!(!should_dither(parameters(), 24));
}

#[test]
fn packet_is_built() {
    let left = ring(0, &[0x0102_0300, 0x0405_0600, 0x0708_0900, 0x0a0b_0c00]);
    let right = ring(0, &[0x1112_1300, 0x1415_1600, 0x1718_1900, 0x1a1b_1c00]);
    let sources = vec![RBOutput::new(left.shared()), RBOutput::new(right.shared())];
    let f = flow(vec![Some(1), None, Some(0)], 48002, 2, 3);
    let par = TxParameters { clock_offset_samples: -1, timestamp_shift: -48000, ..parameters() };
    let mut samples = [99; 256];
    let mut pbuff = [0xffu8; 1500];
    let mut rng = SmallRng::seed_from_u64(1);
    clear_media(&f, &mut pbuff);
    let built = build_packet(&f, par, &sources, &mut samples, &mut pbuff, &mut rng);
    assert_eq!((built.to_send, built.start_ts), (27, 2));
    assert_eq!(&pbuff[..9], &[2, 0, 0, 0, 1, 0, 0, 0, 1]);
    assert_eq!(&pbuff[9..18], &[0x17, 0x18, 0x19, 0, 0, 0, 0x07, 0x08, 0x09]);
    assert_eq!(&pbuff[18..27], &[0x1a, 0x1b, 0x1c, 0, 0, 0, 0x0a, 0x0b, 0x0c]);
    assert_eq!(pbuff[1499], 0xff);
}

#[test]
fn missing_samples_are_sent_as_silence() {
    let source = ring(10, &[0x0102_0300, 0x0405_0600]);
    let sources = vec![RBOutput::new(source.shared())];
    let f = flow(vec![Some(0)], 10, 4, 3);
    let mut samples = [99; 256];
    let mut pbuff = [0u8; 1500];
    let mut rng = SmallRng::seed_from_u64(1);
    build_packet(&f, parameters(), &sources, &mut samples, &mut pbuff, &mut rng);
    assert_eq!(&pbuff[9..21], &[1, 2, 3, 4, 5, 6, 0, 0, 0, 0, 0, 0]);
}

#[test]
fn sent_packet_is_understood_by_the_receiver() {
    let source = ring(0, &[5 << 16, -7 << 16, 9 << 16, i32::MIN]);
    let sources = vec![RBOutput::new(source.shared())];
    for bytes_per_sample in 2..=4 {
        let f = flow(vec![None, Some(0)], 3 * 48000, 4, bytes_per_sample);
        let par =
            TxParameters { timestamp_shift: -3 * 48000, tx_source_bit_depth: 16, clock_offset_samples: 0, ..parameters() };
        let mut samples = [0; 256];
        let mut pbuff = [0u8; 1500];
        let mut rng = SmallRng::seed_from_u64(1);
        clear_media(&f, &mut pbuff);
        let built = build_packet(&f, par, &sources, &mut samples, &mut pbuff, &mut rng);
        let packet = &pbuff[..built.to_send];
        assert_eq!(read_timestamp(packet, 48000), 3 * 48000);
        assert_eq!(read_samples(packet, 1, 2, bytes_per_sample), vec![5 << 16, -7 << 16, 9 << 16, i32::MIN]);
        assert_eq!(read_samples(packet, 0, 2, bytes_per_sample), vec![0; 4]);
    }
}

#[test]
fn samples_with_more_bits_are_dithered() {
    let source = ring(0, &[1000 << 16; 60]);
    let sources = vec![RBOutput::new(source.shared())];
    let f = flow(vec![Some(0)], 0, 60, 2);
    let mut samples = [0; 256];
    let mut pbuff = [0u8; 1500];
    let mut rng = SmallRng::seed_from_u64(1);
    build_packet(&f, parameters(), &sources, &mut samples, &mut pbuff, &mut rng);
    let sent = read_samples(&pbuff[..129], 0, 1, 2);
    assert!(sent.iter().all(|s| (999..=1001).contains(&(s >> 16))));
    assert!(sent.iter().any(|s| s >> 16 != 1000));
}

#[test]
fn times_are_converted_to_samples() {
    assert_eq!(clock_offset_samples(48000), -24);
    assert_eq!(clock_offset_samples(44100), -22);
    assert_eq!(latency_in_samples(10_000_000, 48000), 480);
    assert_eq!(compute_timestamp_shift(1000, 480), -1480);
    assert_eq!(compute_timestamp_shift(u64::MAX, 0), 1);
    assert!(!should_yield(1240, 1000, 48000));
    assert!(should_yield(1241, 1000, 48000));
}

#[test]
fn first_due_flow_is_found() {
    let mut table = TxFlows::new();
    assert_eq!(table.flows.len(), 32);
    assert_eq!(table.min_next_ts(), None);
    table.add_flow(3, vec![Some(0)], 32, 3, true, false, Some(1000), 48000);
    table.add_flow(5, vec![Some(0)], 10, 3, false, false, Some(1000), 48000);
    table.add_flow(7, vec![Some(0)], 2, 3, false, true, Some(1000), 48000);
    assert_eq!(table.flows[3].as_ref().unwrap().next_ts, 1024);
    assert_eq!(table.flows[3].as_ref().unwrap().expires, Some(1000 + 192000));
    assert_eq!(table.flows[5].as_ref().unwrap().expires, None);
    assert_eq!(table.min_next_ts(), Some(1010));
    table.remove_flow(5);
    assert_eq!(table.min_next_ts(), Some(1024));
    table.bootstrap_all(5000, 48000);
    assert_eq!(table.min_next_ts(), Some(5024));
    assert_eq!(table.flows[3].as_ref().unwrap().expires, Some(5000 + 192000));
    assert_eq!(earlier_of(Some(u64::MAX), Some(1)), Some(u64::MAX));
    assert_eq!(earlier_of(None, None), None);
}

#[test]
fn channels_of_a_transmitted_flow_are_changed() {
    let mut table = TxFlows::new();
    table.add_flow(3, vec![Some(0)], 32, 3, true, false, None, 48000);
    assert_eq!(table.flows[3].as_ref().unwrap().next_ts, 0);
    assert_eq!(table.flows[3].as_ref().unwrap().expires, Some(0));
    table.set_channels(3, vec![Some(1), None], Some(100), 48000);
    let f = table.flows[3].as_ref().unwrap();
    assert_eq!(f.channel_indices, vec![Some(1), None]);
}

#[test]
fn timestamp_is_published() {
    assert_eq!(published_timestamp(None), NO_TIMESTAMP);
    assert_eq!(published_timestamp(Some(17)), 17);
    assert_eq!(published_timestamp(Some(u64::MAX)), usize::MAX - 1);
}

#[test]
fn long_waits_listen_to_commands() {
    assert_eq!(choose_wait(Some(99_999_999)), Wait::Sleep { nanoseconds: 99_999_999 });
    assert_eq!(choose_wait(Some(100_000_000)), Wait::Listen { nanoseconds: 100_000_000 });
    assert_eq!(choose_wait(None), Wait::Listen { nanoseconds: 20_000_000_000 });
}

#[test]
fn schedule_plans_events_and_notifications() {
    let mut schedule = TxSchedule::new(1000, Some(100));
    assert_eq!(schedule.sleep_until(None), Some(1000));
    assert_eq!(schedule.sleep_until(Some(900)), Some(900));
    assert!(schedule.events_due(1000, 48000));
    assert_eq!(schedule.next_process_events, 2600);
    assert!(!schedule.events_due(2599, 48000));
    schedule.plan_notification(1000);
    assert_eq!(schedule.next_on_transfer, 1050);
    schedule.plan_notification(1020);
    assert_eq!(schedule.next_on_transfer, 1120);
    schedule.plan_notification(5000);
    assert_eq!(schedule.next_on_transfer, 5100);
    let idle = TxSchedule::new(1000, None);
    assert_eq!(idle.sleep_until(None), None);
    assert_eq!(idle.sleep_until(Some(5)), Some(5));
}

#[test]
fn round_sends_all_that_is_due() {
    let mut table = TxFlows::new();
    table.add_flow(1, vec![Some(0)], 10, 3, true, false, Some(985), 48000);
    table.add_flow(2, vec![Some(0)], 10, 3, false, true, Some(985), 48000);
    let mut round = TransmitRound::new(1005, true);
    let mut sent = 0;
    let mut listened = 0;
    let mut begun = 0;
    loop {
        match round.next_action(&mut table, 4800) {
            RoundAction::GoOn => {}
            RoundAction::BeginFlow { index, dropout } => {
                assert_eq!((index, dropout), (1, false));
                begun += 1;
            }
            RoundAction::SendPacket { index } => {
                assert_eq!(index, 1);
                assert!(!round.packet_handled(&mut table, Some(39), 39));
                sent += 1;
            }
            RoundAction::ListenToReceiver { index } => {
                assert_eq!(index, 1);
                round.receiver_checked(&mut table, true, 48000);
                listened += 1;
            }
            RoundAction::Finish => break,
        }
    }
    // packets at 990 and 1000 are due, the one at 1010 is not
    assert_eq!((begun, sent, listened), (1, 2, 1));
    assert_eq!(table.flows[1].as_ref().unwrap().next_ts, 1010);
    assert_eq!(table.flows[1].as_ref().unwrap().expires, Some(1005 + 192000));
}

#[test]
fn round_is_broken_off_when_it_takes_too_long() {
    let mut table = TxFlows::new();
    table.add_flow(0, vec![Some(0)], 1, 3, false, false, Some(0), 48000);
    let mut round = TransmitRound::new(100, false);
    let mut sent = 0;
    loop {
        match round.next_action(&mut table, 4800) {
            RoundAction::SendPacket { .. } => {
                sent += 1;
                if round.packet_handled(&mut table, Some(12), 12) {
                    assert!(!round.has_taken_too_long(None, 48000));
                    assert!(!round.has_taken_too_long(Some(340), 48000));
                    assert!(round.has_taken_too_long(Some(341), 48000));
                    break;
                }
            }
            RoundAction::BeginFlow { .. } => {}
            _ => panic!("nothing was sent"),
        }
    }
    assert_eq!(sent, 16);
}

#[test]
fn round_reports_a_dropout() {
    let mut table = TxFlows::new();
    table.add_flow(0, vec![Some(0)], 10, 3, false, false, Some(0), 48000);
    let mut round = TransmitRound::new(100_000, false);
    assert_eq!(round.next_action(&mut table, 4800), RoundAction::BeginFlow { index: 0, dropout: true });
    assert_eq!(table.flows[0].as_ref().unwrap().next_ts, 100_010);
    assert_eq!(round.next_action(&mut table, 4800), RoundAction::GoOn);
}

fn add_command(index: usize, fpp: usize) -> Command {
    Command::AddFlow {
        index,
        channel_indices: vec![Some(0)],
        fpp,
        bytes_per_sample: 3,
        needs_keepalives: true,
        expired: false,
    }
}

#[test]
fn transmitter_executes_commands() {
    let mut t = FlowsTransmitterInternal::new(48000, None);
    assert!(t.is_executable(&add_command(2, 10)));
    assert!(!t.is_executable(&add_command(32, 10)));
    assert!(!t.is_executable(&add_command(2, 0)));
    assert!(!t.is_executable(&Command::SetChannels { index: 2, channel_indices: vec![] }));
    assert!(t.handle_command(add_command(2, 10), None));
    assert_eq!(t.table.flows[2].as_ref().unwrap().next_ts, 0);
    assert!(!t.is_executable(&add_command(2, 10)));
    t.clock_ready(1004);
    assert_eq!(t.table.flows[2].as_ref().unwrap().next_ts, 1010);
    assert_eq!(t.table.flows[2].as_ref().unwrap().expires, Some(1004 + 192000));
    assert!(t.handle_command(Command::SetChannels { index: 2, channel_indices: vec![None] }, Some(2000)));
    assert_eq!(t.table.flows[2].as_ref().unwrap().channel_indices, vec![None]);
    assert_eq!(t.table.flows[2].as_ref().unwrap().next_ts, 1010);
    assert!(t.handle_command(Command::RemoveFlow { index: 2 }, None));
    assert!(t.table.flows[2].is_none());
    assert!(t.handle_command(Command::NoOp, None));
    assert!(!t.handle_command(Command::Shutdown, None));
}

#[test]
fn transmitter_plans_its_turns() {
    let mut t = FlowsTransmitterInternal::new(48000, None);
    assert_eq!(t.sleep_until(), None);
    assert_eq!(
        t.plan_turn(None),
        Turn { published: NO_TIMESTAMP, wait: Wait::Listen { nanoseconds: 20_000_000_000 } }
    );
    t.start(1000);
    t.handle_command(add_command(0, 10), Some(1000));
    assert_eq!(t.sleep_until(), Some(1010));
    assert_eq!(t.plan_turn(Some(5)), Turn { published: 1010, wait: Wait::Sleep { nanoseconds: 5 } });
    assert_eq!(
        t.plan_turn(Some(100_000_000)),
        Turn { published: NO_TIMESTAMP, wait: Wait::Listen { nanoseconds: 100_000_000 } }
    );
}

#[test]
fn transmitter_looks_for_commands_from_time_to_time() {
    let mut t = FlowsTransmitterInternal::new(48000, None);
    t.start(1000);
    assert_eq!(
        t.wait_over(WaitEnd::Slept, Some(1010)),
        AfterWait { round: Some((1010, true)), look_for_command: true }
    );
    assert_eq!(
        t.wait_over(WaitEnd::Slept, Some(1010 + 1599)),
        AfterWait { round: Some((2609, false)), look_for_command: false }
    );
    assert_eq!(
        t.wait_over(WaitEnd::Slept, Some(1010 + 1600)),
        AfterWait { round: Some((2610, true)), look_for_command: true }
    );
    assert_eq!(t.wait_over(WaitEnd::Slept, None), AfterWait { round: None, look_for_command: true });
    assert_eq!(
        t.wait_over(WaitEnd::ListenedInVain, Some(3000)),
        AfterWait { round: Some((3000, true)), look_for_command: false }
    );
    assert_eq!(t.wait_over(WaitEnd::ListenedInVain, None), AfterWait { round: None, look_for_command: false });
    assert_eq!(
        t.wait_over(WaitEnd::CommandCame, Some(9000)),
        AfterWait { round: None, look_for_command: false }
    );
}

#[test]
fn transmitter_plans_notifications() {
    let mut t = FlowsTransmitterInternal::new(48000, Some(100));
    t.start(1000);
    assert_eq!(t.sleep_until(), Some(1000));
    t.end_turn(Some(1001));
    assert_eq!(t.sleep_until(), Some(1050));
    t.end_turn(None);
    assert_eq!(t.sleep_until(), Some(1050));
}

#[test]
fn transmit_buffers_are_empty() {
    let mut buffers = new_transmit_buffers(3, 16, 4);
    assert_eq!(buffers.len(), 3);
    assert!(buffers.iter().all(|b| b.ring_buffer_size() == 16));
    assert_eq!(buffers[2].write_from_at(0, &[1, 2]), 2);
    assert_eq!(RBOutput::new(buffers[1].shared()).readable_until(), 0);
    assert!(new_transmit_buffers(0, 16, 4).is_empty());
}

#[test]
fn flow_is_sent_after_it_was_activated() {
    let mut t = FlowsTransmitterInternal::new(48000, None);
    let add = Command::AddFlow {
        index: 3,
        channel_indices: vec![Some(0)],
        fpp: 16,
        bytes_per_sample: 3,
        needs_keepalives: false,
        expired: true,
    };
    assert!(!t.is_executable(&Command::ActivateFlow { index: 3 }));
    assert!(!t.is_executable(&Command::ActivateFlow { index: 32 }));
    assert!(t.handle_command(add, Some(100)));
    assert_eq!(t.sleep_until(), None);
    assert!(t.is_executable(&Command::ActivateFlow { index: 3 }));
    assert!(t.handle_command(Command::ActivateFlow { index: 3 }, Some(200)));
    let flow = t.table.flows[3].as_ref().unwrap();
    assert_eq!((flow.expired, flow.next_ts, flow.fpp), (false, 112, 16));
    assert_eq!(t.sleep_until(), Some(112));
}

use inferno_aoip::channels_subscriber::{
    bundle_is_received, bundle_names, choose_frames_per_packet, compute_latency_samples, create_multicast_flow,
    create_unicast_flows, drop_bad_servers, find_needed_channels, latency_is_computable, make_bundle_name,
    make_flow_name, plan_answers, reuse_known_sources, servers_of, sort_answers, use_existing_flows, use_free_slots,
    ChannelAnswer, ChannelOtherEnd, ChannelSubscription, Flow, FlowSource, ReceiverParameters,
    SubscriptionStatus, WantedBundleChannel, WantedChannel,
};
use inferno_aoip::mdns_client::{AdvertisedBundle, AdvertisedChannel, PointerToMulticast};
use inferno_aoip::subscriber::{
    notify_channels_change, Buffering, ChannelsSubscriber, Command, SavedChannelState,
};

const PAR: ReceiverParameters = ReceiverParameters { rx_channels: 4, min_latency_ns: 10_000_000, sample_rate: 48000 };

fn sub(channel: &str, host: &str, remote: Option<ChannelOtherEnd>) -> Option<ChannelSubscription> {
    Some(ChannelSubscription { tx_channel_name: channel.to_string(), tx_hostname: host.to_string(), remote })
}

fn end(local_flow_index: usize, channel_in_flow: usize, tx_channel_id: u16) -> ChannelOtherEnd {
    ChannelOtherEnd { local_flow_index, channel_in_flow, tx_channel_id }
}

fn adv(addr: u64, tx_channel_id: u16) -> AdvertisedChannel {
    AdvertisedChannel {
        addr,
        tx_channels_per_flow: 8,
        tx_channel_id,
        bits_per_sample: 24,
        dbcp1: 0x1102,
        fpp_min: 2,
        fpp_max: 32,
        min_rx_latency_ns: 1_000_000,
        multicast: None,
    }
}

fn wanted(local_channel_index: usize, addr: u64, tx_channel_id: u16) -> WantedChannel {
    WantedChannel { local_channel_index, adv: adv(addr, tx_channel_id) }
}

fn unicast(addr: u64, handle: Option<[u8; 6]>) -> FlowSource {
    FlowSource::Unicast { control_remote_addr: addr, dbcp1: 0x1102, handle }
}

fn shown(s: &ChannelsSubscriber, i: usize) -> SubscriptionStatus {
    s.channel_status(i).as_ref().unwrap().status
}

#[test]
fn aliases_are_found() {
    let channels = vec![
        sub("L", "mixer", None),
        None,
        sub("L", "mixer", None),
        sub("R", "mixer", None),
        sub("L", "other", Some(end(0, 0, 1))),
    ];
    assert_eq!(find_needed_channels(&channels), vec![Some(0), None, Some(0), Some(3), None]);
}

#[test]
fn known_sources_are_reused() {
    let channels = vec![sub("L", "mixer", None), sub("L", "mixer", Some(end(2, 1, 7))), sub("R", "mixer", None)];
    let heads = find_needed_channels(&channels);
    let (updates, left) = reuse_known_sources(&channels, &heads);
    assert_eq!(updates.len(), 1);
    assert_eq!((updates[0].local_channel_index, updates[0].remote), (0, end(2, 1, 7)));
    assert_eq!(left, vec![2]);
}

#[test]
fn answers_are_sorted_by_kind() {
    let channels = vec![sub("L", "mixer", None), sub("R", "mixer", None), sub("C", "mixer", None)];
    let mut multicast = adv(1, 5);
    multicast.multicast = Some(PointerToMulticast { bundle_id: 12, channel_in_bundle: 3 });
    let answers = vec![
        ChannelAnswer { local_channel_index: 0, adv: Some(adv(1, 4)) },
        ChannelAnswer { local_channel_index: 1, adv: Some(multicast) },
        ChannelAnswer { local_channel_index: 2, adv: None },
    ];
    let (unicast, bundles) = sort_answers(&channels, &answers);
    assert_eq!((unicast.len(), bundles.len()), (1, 1));
    assert_eq!((unicast[0].local_channel_index, unicast[0].adv.tx_channel_id), (0, 4));
    assert_eq!(bundles[0].bundle_full_name, "12@mixer");
    assert_eq!((bundles[0].local_channel_index, bundles[0].channel_in_bundle, bundles[0].tx_channel_id), (1, 3, 5));
    assert_eq!(make_bundle_name(7, &"host".to_string()), "7@host");
}

#[test]
fn contradicting_servers_are_dropped() {
    let mut odd = wanted(2, 2, 9);
    odd.adv.bits_per_sample = 16;
    let good = drop_bad_servers(&vec![wanted(0, 1, 4), wanted(1, 2, 5), odd, wanted(3, 1, 6)]);
    let left: Vec<usize> = good.iter().map(|w| w.local_channel_index).collect();
    assert_eq!(left, vec![0, 3]);
    let mut other_dbcp = wanted(1, 1, 5);
    other_dbcp.adv.dbcp1 = 0x1103;
    assert!(drop_bad_servers(&vec![wanted(0, 1, 4), other_dbcp]).is_empty());
    let mut other_count = wanted(1, 1, 5);
    other_count.adv.tx_channels_per_flow = 4;
    assert!(drop_bad_servers(&vec![wanted(0, 1, 4), other_count]).is_empty());
}

#[test]
fn bundles_are_asked_for_once() {
    let in_bundle = |name: &str, lci: usize| WantedBundleChannel {
        local_channel_index: lci,
        bundle_full_name: name.to_string(),
        channel_in_bundle: lci,
        tx_channel_id: 1,
    };
    let names = bundle_names(&vec![in_bundle("2@b", 0), in_bundle("1@a", 1), in_bundle("2@b", 2)]);
    assert_eq!(names, vec!["1@a", "2@b"]);
    let flows = vec![
        None,
        Some(Flow::new(2, FlowSource::Multicast { bundle_full_name: "1@a".to_string() }, 4, &[], 480, 0)),
    ];
    assert!(bundle_is_received(&flows, &"1@a".to_string()));
    assert!(!bundle_is_received(&flows, &"2@b".to_string()));
    let (updates, _, _) = use_existing_flows(&flows, vec![], &vec![in_bundle("1@a", 1)]);
    assert_eq!(updates.len(), 1);
    assert_eq!((updates[0].local_channel_index, updates[0].remote), (1, end(1, 1, 1)));
}

#[test]
fn channels_of_existing_flows_are_used() {
    let mut flow = Flow::new(1, unicast(10, Some([0; 6])), 3, &[4, 5], 480, 0);
    flow.channels_refcount[0] = 1;
    let flows = vec![Some(flow), None];
    let (updates, left, free) = use_existing_flows(&flows, vec![wanted(2, 10, 5), wanted(3, 10, 6), wanted(4, 11, 5)], &vec![]);
    assert_eq!(updates.len(), 1);
    assert_eq!((updates[0].local_channel_index, updates[0].remote), (2, end(0, 1, 5)));
    let lcis: Vec<usize> = left.iter().map(|w| w.local_channel_index).collect();
    assert_eq!(lcis, vec![3, 4]);
    // channel 0 is in use and channel 1 is about to be
    assert_eq!(free.len(), 1);
    assert_eq!((free[0].addr, free[0].flow_index, free[0].channel_in_flow), (10, 0, 2));
    let (updates, left) = use_free_slots(&left, &free);
    assert_eq!(updates.len(), 1);
    assert_eq!((updates[0].local_channel_index, updates[0].remote), (3, end(0, 2, 6)));
    assert_eq!(left.len(), 1);
    assert_eq!(left[0].local_channel_index, 4);
}

#[test]
fn answers_become_a_plan() {
    let mut flow = Flow::new(1, unicast(10, Some([1, 2, 3, 4, 5, 6])), 3, &[4], 480, 0);
    flow.channels_refcount[0] = 1;
    let flows = vec![Some(flow)];
    let channels = vec![
        sub("a", "h", None),
        sub("b", "h", None),
        sub("c", "h", None),
        sub("d", "h", None),
        sub("e", "h", Some(end(0, 0, 4))),
    ];
    let answers = vec![
        ChannelAnswer { local_channel_index: 0, adv: Some(adv(10, 4)) },
        ChannelAnswer { local_channel_index: 1, adv: Some(adv(10, 5)) },
        ChannelAnswer { local_channel_index: 2, adv: Some(adv(10, 6)) },
        ChannelAnswer { local_channel_index: 3, adv: Some(adv(10, 7)) },
    ];
    let plan = plan_answers(&channels, &flows, &answers);
    assert_eq!(plan.resolved.len(), 1);
    assert_eq!(plan.resolved[0].remote, end(0, 0, 4));
    assert_eq!(plan.requests.len(), 1);
    assert_eq!((plan.requests[0].flow_index, plan.requests[0].addr, plan.requests[0].dbcp1), (0, 10, 0x1102));
    assert_eq!(plan.requests[0].handle, [1, 2, 3, 4, 5, 6]);
    assert_eq!(plan.requests[0].tx_channels, vec![Some(4), Some(5), Some(6)]);
    assert_eq!(plan.requests[0].updates.len(), 2);
    assert_eq!(plan.remaining.len(), 1);
    assert_eq!(plan.remaining[0].local_channel_index, 3);
    assert!(plan.in_multicast.is_empty());
}

#[test]
fn latency_is_the_greater_one() {
    assert!(latency_is_computable(1_000_000, PAR));
    assert_eq!(compute_latency_samples(1_000_000, PAR), 480);
    assert_eq!(compute_latency_samples(20_000_000, PAR), 960);
    assert!(!latency_is_computable(usize::MAX, PAR));
}

#[test]
fn unicast_flows_are_created_per_server() {
    let mut flows = vec![None, Some(Flow::new(2, unicast(9, None), 1, &[1], 0, 0))];
    let all: Vec<WantedChannel> =
        vec![wanted(0, 20, 1), wanted(1, 10, 2), wanted(2, 10, 3)].into_iter().collect();
    assert_eq!(servers_of(&all), vec![10, 20]);
    let new_flows = create_unicast_flows(&mut flows, &all, PAR, 77);
    assert_eq!(new_flows.len(), 2);
    assert_eq!((new_flows[0].flow_index, new_flows[0].first.addr), (0, 10));
    assert_eq!((new_flows[1].flow_index, new_flows[1].first.addr), (2, 20));
    assert_eq!(new_flows[0].updates[1].remote, end(0, 1, 3));
    let flow = flows[0].as_ref().unwrap();
    assert_eq!((flow.local_id, flow.latency_samples, flow.creation_time), (1, 480, 77));
    assert_eq!(flow.tx_channels, vec![Some(2), Some(3), None, None]);
    assert!(!flow.is_used());
}

#[test]
fn many_channels_take_several_flows() {
    let mut flows = vec![];
    let mut all = vec![];
    for i in 0..3 {
        let mut w = wanted(i, 10, i as u16 + 1);
        w.adv.tx_channels_per_flow = 2;
        all.push(w);
    }
    let new_flows = create_unicast_flows(&mut flows, &all, PAR, 0);
    assert_eq!(new_flows.len(), 2);
    assert_eq!((new_flows[0].updates.len(), new_flows[1].updates.len()), (2, 1));
    assert_eq!(new_flows[1].updates[0].remote, end(1, 0, 3));
    assert_eq!(flows.len(), 2);
}

#[test]
fn multicast_flow_is_created() {
    let mut flows = vec![];
    let bundle = AdvertisedBundle {
        media_addr: 5,
        tx_channels_per_flow: 4,
        bits_per_sample: 24,
        min_rx_latency_ns: 20_000_000,
    };
    let in_bundle = vec![WantedBundleChannel {
        local_channel_index: 3,
        bundle_full_name: "1@a".to_string(),
        channel_in_bundle: 2,
        tx_channel_id: 9,
    }];
    let (index, updates) = create_multicast_flow(&mut flows, &"1@a".to_string(), bundle, &in_bundle, PAR, 5);
    assert_eq!(index, 0);
    assert_eq!((updates[0].local_channel_index, updates[0].remote), (3, end(0, 2, 9)));
    assert_eq!(flows[0].as_ref().unwrap().latency_samples, 960);
    assert!(bundle_is_received(&flows, &"1@a".to_string()));
}

#[test]
fn packets_are_as_large_as_possible() {
    assert_eq!(choose_frames_per_packet(32, 1472, 8, 24), 32);
    assert_eq!(choose_frames_per_packet(256, 1472, 8, 24), 61);
    assert_eq!(make_flow_name(3, 12), "3_12");
}

#[test]
fn change_is_announced_by_a_mask() {
    assert_eq!(notify_channels_change(&[0, 3]).content, vec![0, 1, 9]);
    assert_eq!(notify_channels_change(&[7, 9]).content, vec![0, 1, 129]);
    assert_eq!(notify_channels_change(&[]).content, vec![0, 1, 0]);
    assert_eq!(notify_channels_change(&[]).start_code, 0xffff);
    assert_eq!(notify_channels_change(&[]).opcode, [0x07, 0x2a, 1, 2, 0, 0, 0, 0]);
}

/// A subscriber whose channels 0 and 1 are connected to the channels of a new flow.
fn connected() -> ChannelsSubscriber {
    let mut s = ChannelsSubscriber::new(4);
    for (i, name) in [(0, "L"), (1, "R")] {
        s.announce(i, name, "mixer");
        assert_eq!(shown(&s, i), SubscriptionStatus::Unresolved);
        assert!(s.subscribe(i, name, "mixer").is_none());
    }
    assert!(s.needs_resolving && s.resolve_now);
    let (heads, resolved, left) = s.begin_resolving();
    assert!(!s.resolve_now);
    assert!(resolved.is_empty());
    assert_eq!(left, vec![0, 1]);
    let new_flows = create_unicast_flows(&mut s.flows, &vec![wanted(0, 10, 1), wanted(1, 10, 2)], PAR, 100);
    assert_eq!(new_flows.len(), 1);
    s.flow_granted(0, [9; 6]);
    let mut changed = vec![];
    for update in &new_flows[0].updates {
        let actions = s.apply_update(&heads, *update, Buffering::Owned, &mut changed);
        assert_eq!(actions.len(), 1);
        assert!(actions[0].new_ring_buffer);
        assert_eq!(actions[0].latency_samples, 480);
    }
    assert_eq!(changed, vec![0, 1]);
    assert_eq!(shown(&s, 0), SubscriptionStatus::InProgress);
    s
}

#[test]
fn channels_are_connected_and_receive() {
    let mut s = connected();
    let flow = s.flows[0].as_mut().unwrap();
    assert!(flow.is_used());
    assert_eq!(flow.channels_refcount, vec![1, 1, 0, 0]);
    flow.last_packet_time = 101;
    let result = s.scan_flows(102);
    assert!(result.removed.is_empty() && result.orphaned.is_empty());
    assert_eq!(result.changed, vec![0, 1]);
    assert_eq!(shown(&s, 1), SubscriptionStatus::ReceivingUnicast);
    assert!(shown(&s, 1).is_receiving());
    assert!(s.scan_flows(102).changed.is_empty());
}

#[test]
fn alias_shares_the_ring_buffer() {
    let mut s = connected();
    s.announce(2, "L", "mixer");
    s.subscribe(2, "L", "mixer");
    let (heads, resolved, left) = s.begin_resolving();
    assert!(left.is_empty());
    assert_eq!(resolved.len(), 1);
    let mut changed = vec![];
    let actions = s.apply_update(&heads, resolved[0], Buffering::Owned, &mut changed);
    assert_eq!(actions.len(), 1);
    assert!(!actions[0].new_ring_buffer);
    assert_eq!(s.flows[0].as_ref().unwrap().channels_refcount, vec![2, 1, 0, 0]);
}

#[test]
fn silent_flow_is_given_up() {
    let mut s = connected();
    assert!(s.scan_flows(106).removed.is_empty());
    let result = s.scan_flows(107);
    assert_eq!(result.removed.len(), 1);
    assert_eq!(result.removed[0].flow_index, 0);
    let stop = result.removed[0].stop.as_ref().unwrap();
    assert_eq!((stop.addr, stop.dbcp1, stop.handle), (10, 0x1102, [9; 6]));
    assert_eq!(result.orphaned, vec![0, 1]);
    assert!(s.flows[0].is_none());
    assert!(s.needs_resolving && s.resolve_now);
    assert_eq!(shown(&s, 0), SubscriptionStatus::Unresolved);
    assert!(s.channels[0].as_ref().unwrap().remote.is_none());
}

#[test]
fn unused_flow_is_removed() {
    let mut s = connected();
    assert!(s.unsubscribe(0, true).is_some());
    assert!(s.channel_status(0).is_none());
    assert_eq!(s.flows[0].as_ref().unwrap().channels_refcount, vec![0, 1, 0, 0]);
    assert!(s.unsubscribe(1, false).is_some());
    assert!(s.channel_status(1).is_some());
    assert!(s.unsubscribe(1, false).is_none());
    let result = s.scan_flows(100);
    assert_eq!(result.removed.len(), 1);
    assert!(result.orphaned.is_empty());
}

#[test]
fn refused_flow_is_shown() {
    let mut s = ChannelsSubscriber::new(4);
    s.announce(0, "L", "mixer");
    s.subscribe(0, "L", "mixer");
    let (heads, _, _) = s.begin_resolving();
    let new_flows = create_unicast_flows(&mut s.flows, &vec![wanted(0, 10, 1)], PAR, 100);
    s.flow_refused(&heads, &new_flows[0].updates, 0);
    assert_eq!(shown(&s, 0), SubscriptionStatus::TxFail);
    assert!(s.flows[0].is_none());
    create_unicast_flows(&mut s.flows, &vec![wanted(0, 10, 1)], PAR, 100);
    s.flow_dropped(0);
    assert!(s.flows[0].is_none());
}

#[test]
fn commands_of_the_user_are_handled() {
    let mut s = ChannelsSubscriber::new(2);
    let subscribe = Command::Subscribe {
        local_channel_index: 1,
        tx_channel_name: "L".to_string(),
        tx_hostname: "mixer".to_string(),
    };
    let (go_on, message) = s.handle_command(subscribe);
    assert!(go_on && message.is_none());
    assert!(s.channels[1].is_some());
    let (go_on, message) = s.handle_command(Command::Unsubscribe { local_channel_index: 1 });
    assert!(go_on);
    assert_eq!(message.unwrap().content, vec![0, 1, 2]);
    assert!(s.handle_command(Command::ForceRefresh).0);
    assert!(!s.handle_command(Command::Shutdown).0);
}

#[test]
fn resolving_is_repeated() {
    let mut s = ChannelsSubscriber::new(2);
    assert!(!s.should_resolve(100));
    s.subscribe(0, "L", "mixer");
    assert!(s.should_resolve(0));
    s.begin_resolving();
    assert!(!s.should_resolve(8));
    assert!(s.should_resolve(9));
    s.unsubscribe(0, true);
    s.begin_resolving();
    assert!(!s.needs_resolving);
    assert!(!s.should_resolve(9));
}

#[test]
fn saved_state_is_loaded() {
    let mut s = ChannelsSubscriber::new(3);
    s.subscribe(2, "L", "mixer");
    s.subscribe(0, "R", "mixer");
    let names = vec!["RX 1".to_string(), "RX 2".to_string(), "RX 3".to_string()];
    let saved: Vec<SavedChannelState> = s.save_state(&names);
    assert_eq!(saved.len(), 2);
    assert_eq!((saved[0].local_channel_id, saved[0].local_channel_name.as_str()), (1, "RX 1"));
    assert_eq!((saved[1].local_channel_id, saved[1].tx_channel_name.as_str()), (3, "L"));
    let mut loaded = ChannelsSubscriber::new(3);
    assert!(loaded.load_state(&saved).is_empty());
    assert_eq!(loaded.channels[2].as_ref().unwrap().tx_channel_name, "L");
    assert_eq!(loaded.channels[0].as_ref().unwrap().tx_hostname, "mixer");
    assert!(loaded.channels[1].is_none());
    assert_eq!(shown(&loaded, 2), SubscriptionStatus::Unresolved);
    let mut smaller = ChannelsSubscriber::new(1);
    smaller.load_state(&saved);
    assert!(smaller.channels[0].is_some());
}

#[test]
fn channels_which_are_subscribed_already_are_announced_when_state_is_loaded() {
    let entry = |id: u16, channel: &str| SavedChannelState {
        local_channel_id: id,
        local_channel_name: "RX".to_string(),
        tx_channel_name: channel.to_string(),
        tx_hostname: "mixer".to_string(),
    };
    let mut s = ChannelsSubscriber::new(3);
    s.subscribe(2, "L", "mixer");
    // channel 3 is subscribed already, channel 1 the second time only, and channel 9 is not there
    let messages = s.load_state(&vec![entry(3, "R"), entry(1, "L"), entry(9, "L"), entry(1, "R")]);
    let contents: Vec<Vec<u8>> = messages.iter().map(|m| m.content.clone()).collect();
    assert_eq!(contents, vec![vec![0, 1, 4], vec![0, 1, 1]]);
    assert!(messages.iter().all(|m| m.start_code == 0xffff && m.opcode == [0x07, 0x2a, 1, 2, 0, 0, 0, 0]));
    assert_eq!(s.channels[0].as_ref().unwrap().tx_channel_name, "R");
}

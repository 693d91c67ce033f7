//! What commands, answers of transmitters and the watch over flows do to subscriptions: which channels
//! they concern, and that all others are left alone.

use crate::channels_subscriber::{
    ChannelSourceUpdate, FlowSourceView, FlowView, SubscriptionStatus,
};
use crate::info_mcast_server::MulticastMessage;
use crate::protocol::flows_control::FlowHandle;
use crate::subscriber::{
    announces_change, channels_mask, channels_on_flow, is_bit_needed, is_on_flow, saved_channels, shown_otherwise, Buffering,
    Command, ConnectAction, RemovedFlow, SavedChannelView, SubscriberView, SubscriptionView,
};
use vstd::prelude::*;

verus! {

// ---------------------------------------------------------------------------------------------
// Commands
// ---------------------------------------------------------------------------------------------

/// Whether nothing differs between the flows but for how many channels are connected to their channels.
pub open spec fn same_but_for_users(a: Option<FlowView>, b: Option<FlowView>) -> bool {
    match a {
        None => b is None,
        Some(a) => {
            &&& b is Some
            &&& b->0.local_id == a.local_id
            &&& b->0.source == a.source
            &&& b->0.channels_rb_outputs == a.channels_rb_outputs
            &&& b->0.tx_channels == a.tx_channels
            &&& b->0.latency_samples == a.latency_samples
            &&& b->0.last_packet_time == a.last_packet_time
            &&& b->0.creation_time == a.creation_time
            &&& b->0.needs_subscription_info_update == a.needs_subscription_info_update
            &&& b->0.channels_refcount.len() == a.channels_refcount.len()
        },
    }
}

/// Whether the channel is connected to the channel `k` of the flow `f`.
pub open spec fn is_connected_to(sub: Option<SubscriptionView>, f: int, k: int) -> bool {
    match sub {
        Some(sub) => match sub.remote {
            Some(remote) => remote.local_flow_index == f && remote.channel_in_flow == k,
            None => false,
        },
        None => false,
    }
}

/// Unsubscribing a channel takes away its subscription, and one user from what it was connected to; all
/// other channels and flows are left alone.
pub proof fn unsubscribing_concerns_one_channel(v: SubscriberView, i: int, remove_from_info: bool, f: int, k: int)
    requires
        v.wf(),
        0 <= i < v.channels.len(),
        0 <= f < v.flows.len(),
        v.flows[f] is Some,
        0 <= k < v.flows[f]->0.channels_refcount.len(),
    ensures
        ({
            let r = v.unsubscribed(i, remove_from_info);
            &&& r.channels.len() == v.channels.len()
            &&& r.infos.len() == v.infos.len()
            &&& r.flows.len() == v.flows.len()
            &&& r.channels[i] is None
            &&& forall|j: int| 0 <= j < v.channels.len() && j != i ==> #[trigger] r.channels[j] == v.channels[j]
            &&& forall|j: int| 0 <= j < v.channels.len() && j != i ==> #[trigger] r.infos[j] == v.infos[j]
            &&& v.channels[i] is Some && remove_from_info ==> r.infos[i] is None
            &&& v.channels[i] is None || !remove_from_info ==> r.infos[i] == v.infos[i]
            &&& same_but_for_users(v.flows[f], r.flows[f])
            &&& r.flows[f]->0.channels_refcount[k] == v.flows[f]->0.channels_refcount[k] - if is_connected_to(
                v.channels[i],
                f,
                k,
            ) { 1int } else { 0int }
            &&& r.needs_resolving == v.needs_resolving
            &&& r.resolve_now == v.resolve_now
        }),
{
    if v.channels[i] is Some && v.channels[i]->0.remote is Some {
        let remote = v.channels[i]->0.remote->0;
        assert(v.is_flow_channel(remote));
        assert(v.flows[remote.local_flow_index as int]->0.wf());
    }
    assert(v.flows[f]->0.channels_refcount[k] == crate::subscriber::users(v.channels, f, k, v.channels.len() as int));
    lemma_users_nonnegative(v.channels, f, k, v.channels.len() as int, i);
}

proof fn lemma_users_nonnegative(channels: Seq<Option<SubscriptionView>>, f: int, k: int, n: int, i: int)
    requires
        0 <= n <= channels.len(),
    ensures
        0 <= crate::subscriber::users(channels, f, k, n) <= n,
        0 <= i < n && is_connected_to(channels[i], f, k) ==> crate::subscriber::users(channels, f, k, n) >= 1,
    decreases n,
{
    if n > 0 {
        lemma_users_nonnegative(channels, f, k, n - 1, i);
    }
}

/// Subscribing a channel makes it wait for the channel and the transmitter with the names given, from
/// now on; all other channels, and what is shown, are left alone.
pub proof fn subscribing_concerns_one_channel(
    v: SubscriberView,
    i: int,
    tx_channel_name: Seq<char>,
    tx_hostname: Seq<char>,
)
    requires
        v.wf(),
        0 <= i < v.channels.len(),
    ensures
        ({
            let r = v.subscribed(i, tx_channel_name, tx_hostname);
            &&& r.channels.len() == v.channels.len()
            &&& r.channels[i] is Some
            &&& r.channels[i]->0.tx_channel_name == tx_channel_name
            &&& r.channels[i]->0.tx_hostname == tx_hostname
            &&& r.channels[i]->0.remote is None
            &&& forall|j: int| 0 <= j < v.channels.len() && j != i ==> #[trigger] r.channels[j] == v.channels[j]
            &&& r.infos == v.infos
            &&& r.flows == v.unsubscribed(i, false).flows
            &&& r.needs_resolving
            &&& r.resolve_now
        }),
{
}

/// A subscription which was asked for is shown with the names given, as not resolved yet.
pub proof fn announced_subscription_is_shown(
    v: SubscriberView,
    i: int,
    tx_channel_name: Seq<char>,
    tx_hostname: Seq<char>,
)
    requires
        0 <= i < v.infos.len(),
    ensures
        ({
            let r = v.announced(i, tx_channel_name, tx_hostname);
            &&& r.infos.len() == v.infos.len()
            &&& r.infos[i] is Some
            &&& r.infos[i]->0.tx_channel_name == tx_channel_name
            &&& r.infos[i]->0.tx_hostname == tx_hostname
            &&& r.infos[i]->0.status is Unresolved
            &&& forall|j: int| 0 <= j < v.infos.len() && j != i ==> #[trigger] r.infos[j] == v.infos[j]
            &&& r.channels == v.channels
            &&& r.flows == v.flows
        }),
{
}

/// A command does to the channel which it names what it says, and nothing to the others.
pub proof fn commands_are_obeyed(v: SubscriberView, command: Command)
    requires
        v.wf(),
        v.is_valid_command(command),
    ensures
        ({
            let r = v.commanded(command);
            match command {
                Command::Subscribe { local_channel_index, tx_channel_name, tx_hostname } => {
                    let i = local_channel_index as int;
                    &&& r.channels[i] is Some
                    &&& r.channels[i]->0.tx_channel_name == tx_channel_name@
                    &&& r.channels[i]->0.tx_hostname == tx_hostname@
                    &&& r.resolve_now
                    &&& forall|j: int| 0 <= j < v.channels.len() && j != i ==> #[trigger] r.channels[j] == v.channels[j]
                },
                Command::Unsubscribe { local_channel_index } => {
                    let i = local_channel_index as int;
                    &&& r.channels[i] is None
                    &&& v.channels[i] is Some ==> r.infos[i] is None
                    &&& forall|j: int| 0 <= j < v.channels.len() && j != i ==> #[trigger] r.channels[j] == v.channels[j]
                },
                Command::Shutdown => r == v,
                Command::ForceRefresh => r == v,
            }
        }),
{
}

/// The bits which announce changed channels: one for each of the first eight channels, the first one
/// standing also for all channels after these.
pub proof fn announced_bits_are_those_of_channels(indices: Seq<usize>)
    ensures
        0 <= channels_mask(indices) < 256,
        channels_mask(indices) % 2 == 1 <==> exists|j: int|
            0 <= j < indices.len() && (#[trigger] indices[j] == 0 || indices[j] >= 8),
        channels_mask(indices) / 2 % 2 == 1 <==> indices.contains(1),
        channels_mask(indices) / 4 % 2 == 1 <==> indices.contains(2),
        channels_mask(indices) / 8 % 2 == 1 <==> indices.contains(3),
        channels_mask(indices) / 16 % 2 == 1 <==> indices.contains(4),
        channels_mask(indices) / 32 % 2 == 1 <==> indices.contains(5),
        channels_mask(indices) / 64 % 2 == 1 <==> indices.contains(6),
        channels_mask(indices) / 128 % 2 == 1 <==> indices.contains(7),
{
    lemma_bit(indices, 1);
    lemma_bit(indices, 2);
    lemma_bit(indices, 3);
    lemma_bit(indices, 4);
    lemma_bit(indices, 5);
    lemma_bit(indices, 6);
    lemma_bit(indices, 7);
    let b = |k: int| if is_bit_needed(indices, k) { 1int } else { 0int };
    lemma_bits(b(0), b(1), b(2), b(3), b(4), b(5), b(6), b(7));
    assert(channels_mask(indices) == b(0) + 2 * b(1) + 4 * b(2) + 8 * b(3) + 16 * b(4) + 32 * b(5) + 64 * b(6)
        + 128 * b(7));
    assert(b(0) == 1 <==> exists|j: int| 0 <= j < indices.len() && (#[trigger] indices[j] == 0 || indices[j] >= 8));
}

/// A number is made up of its bits.
proof fn lemma_bits(b0: int, b1: int, b2: int, b3: int, b4: int, b5: int, b6: int, b7: int)
    requires
        0 <= b0 <= 1,
        0 <= b1 <= 1,
        0 <= b2 <= 1,
        0 <= b3 <= 1,
        0 <= b4 <= 1,
        0 <= b5 <= 1,
        0 <= b6 <= 1,
        0 <= b7 <= 1,
    ensures
        ({
            let m = b0 + 2 * b1 + 4 * b2 + 8 * b3 + 16 * b4 + 32 * b5 + 64 * b6 + 128 * b7;
            &&& 0 <= m < 256
            &&& m % 2 == b0
            &&& m / 2 % 2 == b1
            &&& m / 4 % 2 == b2
            &&& m / 8 % 2 == b3
            &&& m / 16 % 2 == b4
            &&& m / 32 % 2 == b5
            &&& m / 64 % 2 == b6
            &&& m / 128 % 2 == b7
        }),
{
    let m = b0 + 2 * b1 + 4 * b2 + 8 * b3 + 16 * b4 + 32 * b5 + 64 * b6 + 128 * b7;
    assert(m / 2 == b1 + 2 * b2 + 4 * b3 + 8 * b4 + 16 * b5 + 32 * b6 + 64 * b7);
    assert(m / 4 == b2 + 2 * b3 + 4 * b4 + 8 * b5 + 16 * b6 + 32 * b7);
    assert(m / 8 == b3 + 2 * b4 + 4 * b5 + 8 * b6 + 16 * b7);
    assert(m / 16 == b4 + 2 * b5 + 4 * b6 + 8 * b7);
    assert(m / 32 == b5 + 2 * b6 + 4 * b7);
    assert(m / 64 == b6 + 2 * b7);
    assert(m / 128 == b7);
}

proof fn lemma_bit(indices: Seq<usize>, k: usize)
    requires
        k > 0,
    ensures
        is_bit_needed(indices, k as int) <==> indices.contains(k),
{
    if is_bit_needed(indices, k as int) {
        let i = choose|i: int|
            0 <= i < indices.len() && (#[trigger] indices[i] == k || (k == 0 && indices[i] >= 8));
        assert(indices[i] == k);
    }
}

// ---------------------------------------------------------------------------------------------
// Connections
// ---------------------------------------------------------------------------------------------

/// An update connects exactly the channels for which the updated channel stands, all of them to the
/// channel of the flow which the update gives; what they are subscribed to stays the same, and they are
/// shown as being connected. All other channels are left alone.
pub proof fn update_connects_the_channels_it_stands_for(
    v: SubscriberView,
    heads: Seq<Option<usize>>,
    update: ChannelSourceUpdate,
    buffering: Buffering,
    n: int,
    i: int,
)
    requires
        v.infos.len() == v.channels.len(),
        v.can_update(heads, update),
        0 <= n <= v.channels.len(),
        0 <= i < v.channels.len(),
    ensures
        ({
            let r = v.updated(heads, update, buffering, n);
            &&& r.channels.len() == v.channels.len()
            &&& r.infos.len() == v.infos.len()
            &&& r.flows.len() == v.flows.len()
            &&& i < n && heads[i] == Some(update.local_channel_index) ==> {
                &&& r.channels[i] is Some
                &&& r.channels[i]->0.remote == Some(update.remote)
                &&& r.channels[i]->0.tx_channel_name == v.channels[i]->0.tx_channel_name
                &&& r.channels[i]->0.tx_hostname == v.channels[i]->0.tx_hostname
                &&& r.infos[i] is Some
                &&& r.infos[i]->0.tx_channel_name == v.channels[i]->0.tx_channel_name
                &&& r.infos[i]->0.tx_hostname == v.channels[i]->0.tx_hostname
                &&& r.infos[i]->0.status is InProgress
            }
            &&& i >= n || heads[i] != Some(update.local_channel_index) ==> {
                &&& r.channels[i] == v.channels[i]
                &&& r.infos[i] == v.infos[i]
            }
            &&& r.needs_resolving == v.needs_resolving
            &&& r.resolve_now == v.resolve_now
        }),
    decreases n,
{
    if n > 0 {
        update_connects_the_channels_it_stands_for(v, heads, update, buffering, n - 1, i);
        update_connects_the_channels_it_stands_for(v, heads, update, buffering, n - 1, n - 1);
    }
}

/// Connecting channels changes only the flow which they are connected to, and there only the channel
/// which they are connected to: it now carries the channel of the transmitter which the update names.
pub proof fn update_changes_one_channel_of_the_flow(
    v: SubscriberView,
    heads: Seq<Option<usize>>,
    update: ChannelSourceUpdate,
    buffering: Buffering,
    n: int,
    f: int,
    k: int,
)
    requires
        v.can_update(heads, update),
        0 <= n <= v.channels.len(),
        0 <= f < v.flows.len(),
        v.flows[f] is Some,
        0 <= k < v.flows[f]->0.tx_channels.len(),
    ensures
        ({
            let r = v.updated(heads, update, buffering, n);
            let is_the_one = f == update.remote.local_flow_index && k == update.remote.channel_in_flow;
            &&& r.flows.len() == v.flows.len()
            &&& f != update.remote.local_flow_index ==> r.flows[f] == v.flows[f]
            &&& r.flows[f] is Some
            &&& r.flows[f]->0.local_id == v.flows[f]->0.local_id
            &&& r.flows[f]->0.source == v.flows[f]->0.source
            &&& r.flows[f]->0.latency_samples == v.flows[f]->0.latency_samples
            &&& r.flows[f]->0.tx_channels.len() == v.flows[f]->0.tx_channels.len()
            &&& !is_the_one ==> r.flows[f]->0.tx_channels[k] == v.flows[f]->0.tx_channels[k]
            &&& is_the_one && r.flows[f] != v.flows[f] ==> r.flows[f]->0.tx_channels[k] == Some(
                update.remote.tx_channel_id,
            )
            &&& is_the_one && (exists|i: int|
                0 <= i < n && #[trigger] heads[i] == Some(update.local_channel_index))
                ==> r.flows[f]->0.tx_channels[k] == Some(update.remote.tx_channel_id)
        }),
    decreases n,
{
    if n > 0 {
        update_changes_one_channel_of_the_flow(v, heads, update, buffering, n - 1, f, k);
        let g = update.remote.local_flow_index as int;
        update_changes_one_channel_of_the_flow(
            v,
            heads,
            update,
            buffering,
            n - 1,
            g,
            update.remote.channel_in_flow as int,
        );
    }
}

/// Whether the action connects the channel as the update says, with the latency of the flow.
pub open spec fn is_action_for_update(
    action: ConnectAction,
    v: SubscriberView,
    update: ChannelSourceUpdate,
    chi: int,
) -> bool {
    &&& action.channel_index == chi
    &&& action.remote == update.remote
    &&& action.latency_samples == v.flows[update.remote.local_flow_index as int]->0.latency_samples
}

/// There is one action for each channel which an update connects, and none for any other.
pub proof fn actions_are_those_of_connected_channels(
    v: SubscriberView,
    heads: Seq<Option<usize>>,
    update: ChannelSourceUpdate,
    buffering: Buffering,
    n: int,
)
    requires
        v.can_update(heads, update),
        0 <= n <= v.channels.len(),
        v.channels.len() <= usize::MAX,
    ensures
        ({
            let actions = v.update_actions(heads, update, buffering, n);
            &&& forall|a: int|
                0 <= a < actions.len() ==> {
                    let chi = (#[trigger] actions[a]).channel_index as int;
                    &&& chi < n
                    &&& heads[chi] == Some(update.local_channel_index)
                    &&& is_action_for_update(actions[a], v, update, chi)
                }
            &&& forall|a: int, b: int|
                0 <= a < b < actions.len() ==> (#[trigger] actions[a]).channel_index < (
                #[trigger] actions[b]).channel_index
            &&& forall|chi: int|
                0 <= chi < n && #[trigger] heads[chi] == Some(update.local_channel_index) ==> exists|a: int|
                    0 <= a < actions.len() && is_action_for_update(#[trigger] actions[a], v, update, chi)
            &&& buffering == Buffering::External ==> forall|a: int|
                0 <= a < actions.len() ==> (#[trigger] actions[a]).new_ring_buffer
        }),
    decreases n,
{
    if n > 0 {
        actions_are_those_of_connected_channels(v, heads, update, buffering, n - 1);
        let before = v.update_actions(heads, update, buffering, n - 1);
        let actions = v.update_actions(heads, update, buffering, n);
        let g = update.remote.local_flow_index as int;
        let k = update.remote.channel_in_flow as int;
        update_changes_one_channel_of_the_flow(v, heads, update, buffering, n - 1, g, k);
        assert forall|chi: int| 0 <= chi < n && #[trigger] heads[chi] == Some(update.local_channel_index) implies exists|
            a: int,
        |
            0 <= a < actions.len() && is_action_for_update(#[trigger] actions[a], v, update, chi) by {
            if chi < n - 1 {
                let a = choose|a: int|
                    0 <= a < before.len() && is_action_for_update(#[trigger] before[a], v, update, chi);
                assert(actions[a] == before[a]);
            } else {
                assert(is_action_for_update(actions[actions.len() - 1], v, update, chi));
            }
        }
    }
}

/// A granted flow is known by the handle which the transmitter gave; nothing else changes.
pub proof fn granted_flow_has_the_handle(v: SubscriberView, f: int, handle: FlowHandle)
    requires
        0 <= f < v.flows.len(),
        v.flows[f] is Some,
        v.flows[f]->0.source is Unicast,
    ensures
        ({
            let r = v.granted(f, handle);
            &&& r.flows.len() == v.flows.len()
            &&& r.flows[f] is Some
            &&& r.flows[f]->0.source is Unicast
            &&& r.flows[f]->0.source->handle == Some(handle)
            &&& r.flows[f]->0.source->control_remote_addr == v.flows[f]->0.source->control_remote_addr
            &&& r.flows[f]->0.source->dbcp1 == v.flows[f]->0.source->dbcp1
            &&& r.flows[f]->0.tx_channels == v.flows[f]->0.tx_channels
            &&& r.flows[f]->0.channels_refcount == v.flows[f]->0.channels_refcount
            &&& forall|g: int| 0 <= g < v.flows.len() && g != f ==> #[trigger] r.flows[g] == v.flows[g]
            &&& r.channels == v.channels
            &&& r.infos == v.infos
        }),
{
}

/// A refused flow is removed, and the channels which should have used it, and no others, are shown as
/// failed.
pub proof fn refused_flow_fails_its_channels(
    v: SubscriberView,
    heads: Seq<Option<usize>>,
    updates: Seq<ChannelSourceUpdate>,
    f: int,
    i: int,
)
    requires
        0 <= f < v.flows.len(),
        0 <= i < v.infos.len(),
    ensures
        ({
            let r = v.refused(heads, updates, f);
            let concerned = exists|u: int|
                0 <= u < updates.len() && heads[i] == Some((#[trigger] updates[u]).local_channel_index);
            &&& r.flows.len() == v.flows.len()
            &&& r.flows[f] is None
            &&& forall|g: int| 0 <= g < v.flows.len() && g != f ==> #[trigger] r.flows[g] == v.flows[g]
            &&& r.channels == v.channels
            &&& r.infos[i] is Some <==> v.infos[i] is Some
            &&& v.infos[i] is Some ==> {
                &&& r.infos[i]->0.tx_channel_name == v.infos[i]->0.tx_channel_name
                &&& r.infos[i]->0.tx_hostname == v.infos[i]->0.tx_hostname
                &&& r.infos[i]->0.status == if concerned {
                    SubscriptionStatus::TxFail
                } else {
                    v.infos[i]->0.status
                }
            }
        }),
{
}

// ---------------------------------------------------------------------------------------------
// Watching flows
// ---------------------------------------------------------------------------------------------

/// Whether some channel is connected to the flow.
pub open spec fn has_users(flow: FlowView) -> bool {
    exists|k: int| 0 <= k < flow.channels_refcount.len() && #[trigger] flow.channels_refcount[k] > 0
}

/// Whether the last packet of the flow came more than two seconds ago.
pub open spec fn is_mute(flow: FlowView, now: usize) -> bool {
    flow.last_packet_time + 2 < now
}

/// Whether the flow is used, and is mute more than six seconds after it was made.
pub open spec fn is_lost(flow: FlowView, now: usize) -> bool {
    has_users(flow) && is_mute(flow, now) && flow.creation_time + 6 < now
}

/// Whether packets of the flow come and this has to be shown.
pub open spec fn is_to_be_shown(flow: FlowView, now: usize) -> bool {
    has_users(flow) && !is_mute(flow, now) && flow.needs_subscription_info_update
}

/// The flow, if there is one, which the channel is connected to.
pub open spec fn flow_of(v: SubscriberView, i: int) -> Option<int> {
    match v.channels[i] {
        Some(sub) => match sub.remote {
            Some(remote) => Some(remote.local_flow_index as int),
            None => None,
        },
        None => None,
    }
}

/// Whether the channel is connected to one of the first `n` flows, which is lost.
pub open spec fn is_on_lost_flow(v: SubscriberView, now: usize, n: int, i: int) -> bool {
    flow_of(v, i) matches Some(f) && f < n && v.flows[f] is Some && is_lost(v.flows[f]->0, now)
}

/// Whether the channel is connected to one of the first `n` flows, whose packets come.
pub open spec fn is_on_received_flow(v: SubscriberView, now: usize, n: int, i: int) -> bool {
    flow_of(v, i) matches Some(f) && f < n && v.flows[f] is Some && is_to_be_shown(v.flows[f]->0, now)
}

/// Flows are removed exactly if nobody uses them or they are lost. The channels of lost flows, and no
/// others, are disconnected and shown as not resolved; those of received flows are shown as receiving.
pub proof fn watch_removes_unused_and_lost_flows(v: SubscriberView, now: usize, n: int, f: int, i: int)
    requires
        0 <= n <= v.flows.len(),
        0 <= f < v.flows.len(),
        0 <= i < v.channels.len(),
        v.infos.len() == v.channels.len(),
    ensures
        ({
            let r = v.scanned(now, n);
            &&& r.flows.len() == v.flows.len()
            &&& r.channels.len() == v.channels.len()
            &&& r.infos.len() == v.infos.len()
            &&& f < n && v.flows[f] is Some && (!has_users(v.flows[f]->0) || is_lost(v.flows[f]->0, now))
                ==> r.flows[f] is None
            &&& f >= n || v.flows[f] is None || has_users(v.flows[f]->0) && !is_lost(v.flows[f]->0, now)
                ==> r.flows[f] == v.flows[f]
            &&& is_on_lost_flow(v, now, n, i) ==> {
                &&& r.channels[i] is Some
                &&& r.channels[i]->0.remote is None
                &&& r.channels[i]->0.tx_channel_name == v.channels[i]->0.tx_channel_name
                &&& r.channels[i]->0.tx_hostname == v.channels[i]->0.tx_hostname
                &&& r.resolve_now && r.needs_resolving
            }
            &&& !is_on_lost_flow(v, now, n, i) ==> r.channels[i] == v.channels[i]
            &&& v.infos[i] is None ==> r.infos[i] is None
            &&& v.infos[i] is Some ==> {
                &&& r.infos[i] is Some
                &&& r.infos[i]->0.tx_channel_name == v.infos[i]->0.tx_channel_name
                &&& r.infos[i]->0.tx_hostname == v.infos[i]->0.tx_hostname
                &&& is_on_lost_flow(v, now, n, i) ==> r.infos[i]->0.status is Unresolved
                &&& is_on_received_flow(v, now, n, i) ==> r.infos[i]->0.status
                    == if v.flows[flow_of(v, i)->0]->0.source is Unicast {
                    SubscriptionStatus::ReceivingUnicast
                } else {
                    SubscriptionStatus::ReceivingMulticast
                }
                &&& !is_on_lost_flow(v, now, n, i) && !is_on_received_flow(v, now, n, i) ==> r.infos[i]
                    == v.infos[i]
            }
        }),
    decreases n,
{
    if n > 0 {
        watch_removes_unused_and_lost_flows(v, now, n - 1, f, i);
        watch_removes_unused_and_lost_flows(v, now, n - 1, n - 1, i);
        let before = v.scanned(now, n - 1);
        if before.flows[n - 1] is Some && is_lost(before.flows[n - 1]->0, now) && is_on_flow(before.channels[i], n - 1) {
            lemma_someone_on_flow(before, n - 1, i, before.channels.len() as int);
        }
    }
}

proof fn lemma_someone_on_flow(v: SubscriberView, f: int, i: int, n: int)
    requires
        0 <= i < n <= v.channels.len(),
        is_on_flow(v.channels[i], f),
    ensures
        channels_on_flow(v, f, n).len() > 0,
    decreases n,
{
    if i < n - 1 {
        lemma_someone_on_flow(v, f, i, n - 1);
    }
}

/// Whether the flow is stopped as its source requires: a transmitter is told which of its flows it is,
/// while nobody has to be told about multicast.
pub open spec fn is_stopped(removed: RemovedFlow, flow: FlowView) -> bool {
    match flow.source {
        FlowSourceView::Unicast { control_remote_addr, dbcp1, handle } => {
            &&& removed.stop is Some
            &&& removed.stop->0.addr == control_remote_addr
            &&& removed.stop->0.dbcp1 == dbcp1
            &&& handle is Some ==> removed.stop->0.handle == handle->0
        },
        FlowSourceView::Multicast { .. } => removed.stop is None,
    }
}

/// Whether the flow is one of those which are removed.
pub open spec fn is_to_be_removed(v: SubscriberView, now: usize, f: int) -> bool {
    &&& 0 <= f < v.flows.len()
    &&& v.flows[f] is Some
    &&& !has_users(v.flows[f]->0) || is_lost(v.flows[f]->0, now)
}

/// The flows which are removed, and no others, are stopped, each of them once.
pub proof fn removed_flows_are_stopped(v: SubscriberView, now: usize, n: int)
    requires
        0 <= n <= v.flows.len() <= usize::MAX,
        v.infos.len() == v.channels.len(),
    ensures
        ({
            let removed = v.removed_by_scan(now, n);
            &&& forall|a: int|
                0 <= a < removed.len() ==> {
                    let f = (#[trigger] removed[a]).flow_index as int;
                    &&& f < n
                    &&& is_to_be_removed(v, now, f)
                    &&& is_stopped(removed[a], v.flows[f]->0)
                }
            &&& forall|a: int, b: int|
                0 <= a < b < removed.len() ==> (#[trigger] removed[a]).flow_index < (#[trigger] removed[b]).flow_index
            &&& forall|f: int|
                0 <= f < n && #[trigger] is_to_be_removed(v, now, f) ==> exists|a: int|
                    0 <= a < removed.len() && (#[trigger] removed[a]).flow_index == f
        }),
    decreases n,
{
    if n > 0 {
        removed_flows_are_stopped(v, now, n - 1);
        let before = v.removed_by_scan(now, n - 1);
        let removed = v.removed_by_scan(now, n);
        lemma_flow_is_as_before(v, now, n - 1);
        assert forall|f: int| 0 <= f < n && #[trigger] is_to_be_removed(v, now, f) implies exists|a: int|
            0 <= a < removed.len() && (#[trigger] removed[a]).flow_index == f by {
            if f < n - 1 {
                let a = choose|a: int| 0 <= a < before.len() && (#[trigger] before[a]).flow_index == f;
                assert(removed[a] == before[a]);
            } else {
                assert(removed[removed.len() - 1].flow_index == f);
            }
        }
    }
}

/// Flows which were not looked at yet are as they were.
proof fn lemma_flow_is_as_before(v: SubscriberView, now: usize, n: int)
    requires
        0 <= n < v.flows.len(),
    ensures
        forall|f: int| n <= f < v.flows.len() ==> #[trigger] v.scanned(now, n).flows[f] == v.flows[f],
        v.scanned(now, n).flows.len() == v.flows.len(),
    decreases n,
{
    if n > 0 {
        lemma_flow_is_as_before(v, now, n - 1);
    }
}

proof fn lemma_channels_on_flow(v: SubscriberView, f: int, n: int, i: usize)
    requires
        0 <= n <= v.channels.len() <= usize::MAX,
    ensures
        channels_on_flow(v, f, n).contains(i) <==> i < n && is_on_flow(v.channels[i as int], f),
    decreases n,
{
    if n > 0 {
        lemma_channels_on_flow(v, f, n - 1, i);
        let before = channels_on_flow(v, f, n - 1);
        let all = channels_on_flow(v, f, n);
        if is_on_flow(v.channels[n - 1], f) {
            lemma_pushed(before, (n - 1) as usize, i);
        }
    }
}

proof fn lemma_pushed(s: Seq<usize>, x: usize, i: usize)
    ensures
        s.push(x).contains(i) <==> s.contains(i) || x == i,
{
    let all = s.push(x);
    if s.contains(i) {
        let p = choose|p: int| 0 <= p < s.len() && s[p] == i;
        assert(all[p] == i);
    }
    if x == i {
        assert(all[s.len() as int] == i);
    }
    if all.contains(i) && x != i {
        let p = choose|p: int| 0 <= p < all.len() && all[p] == i;
        assert(s[p] == i);
    }
}

proof fn lemma_joined(s: Seq<usize>, t: Seq<usize>, i: usize)
    ensures
        (s + t).contains(i) <==> s.contains(i) || t.contains(i),
{
    let all = s + t;
    if s.contains(i) {
        let p = choose|p: int| 0 <= p < s.len() && s[p] == i;
        assert(all[p] == i);
    }
    if t.contains(i) {
        let p = choose|p: int| 0 <= p < t.len() && t[p] == i;
        assert(all[s.len() + p] == i);
    }
    if all.contains(i) {
        let p = choose|p: int| 0 <= p < all.len() && all[p] == i;
        if p < s.len() {
            assert(s[p] == i);
        } else {
            assert(t[p - s.len()] == i);
        }
    }
}

/// The channels which are reported to have lost their source are those of lost flows.
pub proof fn orphaned_channels_are_those_of_lost_flows(v: SubscriberView, now: usize, n: int, i: usize)
    requires
        0 <= n <= v.flows.len(),
        v.infos.len() == v.channels.len(),
        i < v.channels.len() <= usize::MAX,
    ensures
        v.orphaned_by_scan(now, n).contains(i) <==> is_on_lost_flow(v, now, n, i as int),
    decreases n,
{
    if n > 0 {
        orphaned_channels_are_those_of_lost_flows(v, now, n - 1, i);
        watch_removes_unused_and_lost_flows(v, now, n - 1, n - 1, i as int);
        let before = v.scanned(now, n - 1);
        lemma_joined(v.orphaned_by_scan(now, n - 1), before.orphaned_by_flow(n - 1, now), i);
        lemma_channels_on_flow(before, n - 1, before.channels.len() as int, i);
        assert(before.flows[n - 1] == v.flows[n - 1]);
    }
}

proof fn lemma_shown_otherwise(v: SubscriberView, f: int, status: Option<SubscriptionStatus>, n: int, i: usize)
    requires
        0 <= n <= v.channels.len() <= usize::MAX,
    ensures
        shown_otherwise(v, f, status, n).contains(i) <==> i < n && is_on_flow(v.channels[i as int], f)
            && v.infos[i as int] is Some && status != Some(v.infos[i as int]->0.status),
    decreases n,
{
    if n > 0 {
        lemma_shown_otherwise(v, f, status, n - 1, i);
        let before = shown_otherwise(v, f, status, n - 1);
        lemma_pushed(before, (n - 1) as usize, i);
    }
}

/// The channels of which it is announced that they changed are those which lost their source and those
/// which are shown otherwise than before.
pub proof fn changed_channels_are_announced(v: SubscriberView, now: usize, n: int, i: usize)
    requires
        0 <= n <= v.flows.len(),
        v.infos.len() == v.channels.len(),
        i < v.channels.len() <= usize::MAX,
    ensures
        v.changed_by_scan(now, n).contains(i) <==> v.infos[i as int] is Some && (is_on_lost_flow(v, now, n, i as int)
            || v.scanned(now, n).infos[i as int]->0.status != v.infos[i as int]->0.status),
    decreases n,
{
    if n > 0 {
        watch_removes_unused_and_lost_flows(v, now, n, 0, i as int);
        changed_channels_are_announced(v, now, n - 1, i);
        watch_removes_unused_and_lost_flows(v, now, n - 1, n - 1, i as int);
        let before = v.scanned(now, n - 1);
        let count = before.channels.len() as int;
        let flow = v.flows[n - 1];
        assert(before.flows[n - 1] == flow);
        lemma_joined(v.changed_by_scan(now, n - 1), before.changed_by_flow(n - 1, now), i);
        if flow is Some {
            let status = if flow->0.source is Unicast {
                SubscriptionStatus::ReceivingUnicast
            } else {
                SubscriptionStatus::ReceivingMulticast
            };
            lemma_shown_otherwise(before, n - 1, Some(status), count, i);
            lemma_shown_otherwise(before, n - 1, None, count, i);
        }
    }
}

// ---------------------------------------------------------------------------------------------
// Saved state
// ---------------------------------------------------------------------------------------------

/// Whether what is kept is the subscription of the channel, along with its identifier and name.
pub open spec fn is_saved_channel(saved: SavedChannelView, channels: Seq<Option<SubscriptionView>>, names: Seq<String>, i: int) -> bool {
    &&& 0 <= i < channels.len()
    &&& channels[i] is Some
    &&& saved.local_channel_id == (i + 1) % 0x1_0000
    &&& saved.local_channel_name == names[i]@
    &&& saved.tx_channel_name == channels[i]->0.tx_channel_name
    &&& saved.tx_hostname == channels[i]->0.tx_hostname
}

/// Whether what is kept is the subscription of one of the first `n` channels.
pub open spec fn is_saved_of(saved: SavedChannelView, channels: Seq<Option<SubscriptionView>>, names: Seq<String>, n: int) -> bool {
    exists|i: int| i < n && #[trigger] is_saved_channel(saved, channels, names, i)
}

/// Every subscription is kept, and nothing else is.
pub proof fn all_subscriptions_are_kept(channels: Seq<Option<SubscriptionView>>, names: Seq<String>, n: int)
    requires
        0 <= n <= channels.len(),
    ensures
        ({
            let saved = saved_channels(channels, names, n);
            &&& forall|a: int| 0 <= a < saved.len() ==> is_saved_of(#[trigger] saved[a], channels, names, n)
            &&& forall|i: int|
                0 <= i < n && #[trigger] channels[i] is Some ==> exists|a: int|
                    0 <= a < saved.len() && is_saved_channel(#[trigger] saved[a], channels, names, i)
        }),
    decreases n,
{
    if n > 0 {
        all_subscriptions_are_kept(channels, names, n - 1);
        let before = saved_channels(channels, names, n - 1);
        let saved = saved_channels(channels, names, n);
        if channels[n - 1] is Some {
            assert(is_saved_channel(saved[saved.len() - 1], channels, names, n - 1));
        }
        assert forall|a: int| 0 <= a < saved.len() implies is_saved_of(#[trigger] saved[a], channels, names, n) by {
            if a < before.len() {
                assert(saved[a] == before[a]);
                assert(is_saved_of(before[a], channels, names, n - 1));
                let i = choose|i: int| i < n - 1 && #[trigger] is_saved_channel(before[a], channels, names, i);
                assert(is_saved_channel(saved[a], channels, names, i));
            }
        }
        assert forall|i: int| 0 <= i < n && #[trigger] channels[i] is Some implies exists|a: int|
            0 <= a < saved.len() && is_saved_channel(#[trigger] saved[a], channels, names, i) by {
            if i < n - 1 {
                let a = choose|a: int|
                    0 <= a < before.len() && is_saved_channel(#[trigger] before[a], channels, names, i);
                assert(saved[a] == before[a]);
            }
        }
    }
}

// ---------------------------------------------------------------------------------------------
// Announcements
// ---------------------------------------------------------------------------------------------

/// The announcement of a changed channel has a code of its own, and tells the channel by its bit, which is
/// the first one for a channel that has none.
pub proof fn change_is_announced_by_its_bit(message: MulticastMessage, local_channel_index: usize)
    requires
        announces_change(message, local_channel_index),
    ensures
        message.start_code == 0xffff,
        message.opcode@.len() == 8,
        message.opcode@[0] == 7 && message.opcode@[1] == 0x2a && message.opcode@[2] == 1 && message.opcode@[3] == 2,
        message.opcode@[4] == 0 && message.opcode@[5] == 0 && message.opcode@[6] == 0 && message.opcode@[7] == 0,
        message.content@.len() == 3,
        message.content@[0] == 0 && message.content@[1] == 1,
        message.content@[2] % 2 == 1 <==> (local_channel_index == 0 || local_channel_index >= 8),
        message.content@[2] / 2 % 2 == 1 <==> local_channel_index == 1,
        message.content@[2] / 4 % 2 == 1 <==> local_channel_index == 2,
        message.content@[2] / 8 % 2 == 1 <==> local_channel_index == 3,
        message.content@[2] / 16 % 2 == 1 <==> local_channel_index == 4,
        message.content@[2] / 32 % 2 == 1 <==> local_channel_index == 5,
        message.content@[2] / 64 % 2 == 1 <==> local_channel_index == 6,
        message.content@[2] / 128 % 2 == 1 <==> local_channel_index == 7,
{
    let indices = seq![local_channel_index];
    announced_bits_are_those_of_channels(indices);
    assert(indices[0] == local_channel_index);
    assert(indices.len() == 1);
    assert forall|k: usize| indices.contains(k) <==> local_channel_index == k by {
        if local_channel_index == k {
            assert(indices[0] == k);
        }
    }
    assert(message.content@[2] == channels_mask(indices));
}

} // verus!

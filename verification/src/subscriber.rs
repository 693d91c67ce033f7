//! State of subscriptions and of the flows which serve them.

use crate::channels_subscriber::{
    flows_view, find_needed_channels, is_granted, is_heads_of, known_sources, needs_source,
    reuse_known_sources, unknown_sources, ChannelOtherEnd, ChannelSourceUpdate, ChannelSubscription, Flow,
    FlowHandle, FlowSource, FlowSourceView, FlowView, SubscriptionInfo, SubscriptionStatus,
};
use crate::mdns_client::SocketNumber;
use crate::info_mcast_server::MulticastMessage;
use vstd::prelude::*;

verus! {

pub struct SubscriptionView {
    pub tx_channel_name: Seq<char>,
    pub tx_hostname: Seq<char>,
    pub remote: Option<ChannelOtherEnd>,
}

pub struct InfoView {
    pub tx_channel_name: Seq<char>,
    pub tx_hostname: Seq<char>,
    pub status: SubscriptionStatus,
}

pub open spec fn subscriptions_view(channels: Seq<Option<ChannelSubscription>>) -> Seq<
    Option<SubscriptionView>,
> {
    Seq::new(
        channels.len(),
        |i: int|
            match channels[i] {
                Some(sub) => Some(
                    SubscriptionView {
                        tx_channel_name: sub.tx_channel_name@,
                        tx_hostname: sub.tx_hostname@,
                        remote: sub.remote,
                    },
                ),
                None => None,
            },
    )
}

pub open spec fn infos_view(infos: Seq<Option<SubscriptionInfo>>) -> Seq<Option<InfoView>> {
    Seq::new(
        infos.len(),
        |i: int|
            match infos[i] {
                Some(info) => Some(
                    InfoView {
                        tx_channel_name: info.tx_channel_name@,
                        tx_hostname: info.tx_hostname@,
                        status: info.status,
                    },
                ),
                None => None,
            },
    )
}

/// Subscriptions of all local channels.
pub struct ChannelsSubscriber {
    pub channels: Vec<Option<ChannelSubscription>>,
    pub flows: Vec<Option<Flow>>,
    pub subscriptions_info: Vec<Option<SubscriptionInfo>>,
    pub needs_resolving: bool,
    pub resolve_now: bool,
}

pub struct SubscriberView {
    pub channels: Seq<Option<SubscriptionView>>,
    pub flows: Seq<Option<FlowView>>,
    pub infos: Seq<Option<InfoView>>,
    pub needs_resolving: bool,
    pub resolve_now: bool,
}

impl View for ChannelsSubscriber {
    type V = SubscriberView;

    open spec fn view(&self) -> SubscriberView {
        SubscriberView {
            channels: subscriptions_view(self.channels@),
            flows: flows_view(self.flows@),
            infos: infos_view(self.subscriptions_info@),
            needs_resolving: self.needs_resolving,
            resolve_now: self.resolve_now,
        }
    }
}

/// Whether the channel is connected to channel `k` of flow `f`.
pub open spec fn uses(sub: Option<SubscriptionView>, f: int, k: int) -> bool {
    &&& sub is Some
    &&& sub->0.remote is Some
    &&& sub->0.remote->0.local_flow_index == f
    &&& sub->0.remote->0.channel_in_flow == k
}

/// How many of the first `n` channels are connected to channel `k` of flow `f`.
pub open spec fn users(channels: Seq<Option<SubscriptionView>>, f: int, k: int, n: int) -> int
    decreases n,
{
    if n <= 0 {
        0
    } else {
        users(channels, f, k, n - 1) + if uses(channels[n - 1], f, k) {
            1int
        } else {
            0int
        }
    }
}

impl SubscriberView {
    /// Whether everything that a channel is connected to exists.
    pub open spec fn remotes_exist(self) -> bool {
        forall|i: int|
            0 <= i < self.channels.len() && #[trigger] self.channels[i] is Some
                && self.channels[i]->0.remote is Some ==> self.is_flow_channel(
                self.channels[i]->0.remote->0,
            )
    }

    /// Whether there is such a channel in such a flow.
    pub open spec fn is_flow_channel(self, remote: ChannelOtherEnd) -> bool {
        let f = remote.local_flow_index as int;
        &&& f < self.flows.len()
        &&& self.flows[f] is Some
        &&& remote.channel_in_flow < self.flows[f]->0.tx_channels.len()
    }

    /// Whether each flow knows how many channels are connected to each of its channels.
    pub open spec fn refcounts_match(self) -> bool {
        forall|f: int, k: int|
            #![trigger self.flows[f]->0.channels_refcount[k]]
            0 <= f < self.flows.len() && self.flows[f] is Some && 0 <= k
                < self.flows[f]->0.channels_refcount.len() ==> self.flows[f]->0.channels_refcount[k]
                == users(self.channels, f, k, self.channels.len() as int)
    }

    pub open spec fn flows_wf(self) -> bool {
        forall|f: int| 0 <= f < self.flows.len() && #[trigger] self.flows[f] is Some ==> self.flows[f]->0.wf()
    }

    /// What always holds.
    pub open spec fn wf(self) -> bool {
        &&& self.infos.len() == self.channels.len()
        &&& self.channels.len() <= isize::MAX
        &&& self.flows_wf()
        &&& self.remotes_exist()
        &&& self.refcounts_match()
    }

    /// Whether no flow still waits for the transmitter to grant it.
    pub open spec fn all_granted(self) -> bool {
        forall|f: int|
            0 <= f < self.flows.len() && #[trigger] self.flows[f] is Some && self.flows[f]->0.source is Unicast
                ==> is_granted(self.flows[f])
    }
}

proof fn lemma_users_bounds(channels: Seq<Option<SubscriptionView>>, f: int, k: int, n: int)
    requires
        0 <= n <= channels.len(),
    ensures
        0 <= users(channels, f, k, n) <= n,
    decreases n,
{
    if n > 0 {
        lemma_users_bounds(channels, f, k, n - 1);
    }
}

/// Changing one channel changes the number of users by that one channel only.
proof fn lemma_users_update(
    channels: Seq<Option<SubscriptionView>>,
    i: int,
    sub: Option<SubscriptionView>,
    f: int,
    k: int,
    n: int,
)
    requires
        0 <= i < channels.len(),
        0 <= n <= channels.len(),
    ensures
        users(channels.update(i, sub), f, k, n) == users(channels, f, k, n) + if i < n {
            (if uses(sub, f, k) {
                1int
            } else {
                0int
            }) - (if uses(channels[i], f, k) {
                1int
            } else {
                0int
            })
        } else {
            0int
        },
    decreases n,
{
    if n > 0 {
        lemma_users_update(channels, i, sub, f, k, n - 1);
    }
}

/// A channel which is connected is counted.
proof fn lemma_user_counts(channels: Seq<Option<SubscriptionView>>, i: int, f: int, k: int, n: int)
    requires
        0 <= i < n <= channels.len(),
        uses(channels[i], f, k),
    ensures
        users(channels, f, k, n) >= 1,
    decreases n,
{
    lemma_users_bounds(channels, f, k, n - 1);
    if i < n - 1 {
        lemma_user_counts(channels, i, f, k, n - 1);
    }
}

// ---------------------------------------------------------------------------------------------
// Announcing changes
// ---------------------------------------------------------------------------------------------

/// Whether bit `k` stands for one of the channels; bit 0 also stands for all channels above the eighth.
pub open spec fn is_bit_needed(indices: Seq<usize>, k: int) -> bool {
    exists|i: int|
        0 <= i < indices.len() && (#[trigger] indices[i] == k || (k == 0 && indices[i] >= 8))
}

pub open spec fn bit_value(indices: Seq<usize>, k: int, value: int) -> int {
    if is_bit_needed(indices, k) {
        value
    } else {
        0
    }
}

/// One bit for each of the channels.
pub open spec fn channels_mask(indices: Seq<usize>) -> int {
    bit_value(indices, 0, 1) + bit_value(indices, 1, 2) + bit_value(indices, 2, 4) + bit_value(
        indices,
        3,
        8,
    ) + bit_value(indices, 4, 16) + bit_value(indices, 5, 32) + bit_value(indices, 6, 64) + bit_value(
        indices,
        7,
        128,
    )
}

fn bit_for(indices: &[usize], k: usize, value: u8) -> (bit: u8)
    ensures
        bit == bit_value(indices@, k as int, value as int),
{
    let mut i: usize = 0;
    while i < indices.len()
        invariant
            i <= indices@.len(),
            forall|j: int| 0 <= j < i ==> !(#[trigger] indices@[j] == k || (k == 0 && indices@[j] >= 8)),
        decreases indices@.len() - i,
    {
        if indices[i] == k || (k == 0 && indices[i] >= 8) {
            return value;
        }
        i = i + 1;
    }
    0
}

/// The announcement that the state of the channels has changed.
pub fn notify_channels_change(channel_indices: &[usize]) -> (message: MulticastMessage)
    ensures
        message.start_code == 0xffff,
        message.opcode@ == seq![0x07u8, 0x2a, 1, 2, 0, 0, 0, 0],
        message.content@ == seq![0u8, 1, channels_mask(channel_indices@) as u8],
{
    let mask: u8 = bit_for(channel_indices, 0, 1) + bit_for(channel_indices, 1, 2) + bit_for(
        channel_indices,
        2,
        4,
    ) + bit_for(channel_indices, 3, 8) + bit_for(channel_indices, 4, 16) + bit_for(
        channel_indices,
        5,
        32,
    ) + bit_for(channel_indices, 6, 64) + bit_for(channel_indices, 7, 128);
    let mut content: Vec<u8> = Vec::new();
    content.push(0);
    content.push(1);
    content.push(mask);
    assert(content@ =~= seq![0u8, 1, channels_mask(channel_indices@) as u8]);
    let opcode: [u8; 8] = [0x07, 0x2a, 1, 2, 0, 0, 0, 0];
    assert(opcode@ =~= seq![0x07u8, 0x2a, 1, 2, 0, 0, 0, 0]);
    MulticastMessage { start_code: 0xffff, opcode, content }
}

// ---------------------------------------------------------------------------------------------
// Subscribing and unsubscribing
// ---------------------------------------------------------------------------------------------

impl SubscriberView {
    /// After the channel was disconnected from what it was connected to.
    pub open spec fn released(self, i: int) -> SubscriberView {
        match self.channels[i] {
            Some(sub) => {
                let flows = match sub.remote {
                    Some(remote) => {
                        let f = remote.local_flow_index as int;
                        let k = remote.channel_in_flow as int;
                        let flow = self.flows[f]->0;
                        self.flows.update(
                            f,
                            Some(
                                FlowView {
                                    channels_refcount: flow.channels_refcount.update(
                                        k,
                                        (flow.channels_refcount[k] - 1) as isize,
                                    ),
                                    ..flow
                                },
                            ),
                        )
                    },
                    None => self.flows,
                };
                SubscriberView { flows, channels: self.channels.update(i, None), ..self }
            },
            None => self,
        }
    }

    /// After the subscription of the channel was removed.
    pub open spec fn unsubscribed(self, i: int, remove_from_info: bool) -> SubscriberView {
        let released = self.released(i);
        if self.channels[i] is Some && remove_from_info {
            SubscriberView { infos: released.infos.update(i, None), ..released }
        } else {
            released
        }
    }

    /// After the channel was subscribed to a channel of a transmitter.
    pub open spec fn subscribed(
        self,
        i: int,
        tx_channel_name: Seq<char>,
        tx_hostname: Seq<char>,
    ) -> SubscriberView {
        let released = self.unsubscribed(i, false);
        SubscriberView {
            channels: released.channels.update(
                i,
                Some(SubscriptionView { tx_channel_name, tx_hostname, remote: None }),
            ),
            needs_resolving: true,
            resolve_now: true,
            ..released
        }
    }

    /// After a subscription was asked for, before it has any effect.
    pub open spec fn announced(
        self,
        i: int,
        tx_channel_name: Seq<char>,
        tx_hostname: Seq<char>,
    ) -> SubscriberView {
        SubscriberView {
            infos: self.infos.update(
                i,
                Some(
                    InfoView {
                        tx_channel_name,
                        tx_hostname,
                        status: SubscriptionStatus::Unresolved,
                    },
                ),
            ),
            ..self
        }
    }
}

proof fn lemma_released_wf(v: SubscriberView, i: int)
    requires
        v.wf(),
        0 <= i < v.channels.len(),
    ensures
        v.released(i).wf(),
        v.channels[i] is Some && v.channels[i]->0.remote is Some ==> {
            let remote = v.channels[i]->0.remote->0;
            v.flows[remote.local_flow_index as int]->0.channels_refcount[remote.channel_in_flow as int]
                >= 1
        },
{
    let r = v.released(i);
    if v.channels[i] is Some {
        if v.channels[i]->0.remote is Some {
            let remote = v.channels[i]->0.remote->0;
            let f = remote.local_flow_index as int;
            let k = remote.channel_in_flow as int;
            assert(v.is_flow_channel(remote));
            assert(v.flows[f]->0.wf());
            lemma_user_counts(v.channels, i, f, k, v.channels.len() as int);
            lemma_users_bounds(v.channels, f, k, v.channels.len() as int);
            assert(v.flows[f]->0.channels_refcount[k] == users(
                v.channels,
                f,
                k,
                v.channels.len() as int,
            ));
        }
        assert forall|f: int| 0 <= f < r.flows.len() && #[trigger] r.flows[f] is Some implies r.flows[f]->0.wf() by {
            assert(v.flows[f] is Some ==> v.flows[f]->0.wf());
        }
        assert forall|j: int|
            0 <= j < r.channels.len() && #[trigger] r.channels[j] is Some && r.channels[j]->0.remote is Some
            implies r.is_flow_channel(r.channels[j]->0.remote->0) by {
            assert(r.channels[j] == v.channels[j]);
            assert(v.is_flow_channel(v.channels[j]->0.remote->0));
        }
        assert forall|f: int, k: int|
            #![trigger r.flows[f]->0.channels_refcount[k]]
            0 <= f < r.flows.len() && r.flows[f] is Some && 0 <= k < r.flows[f]->0.channels_refcount.len()
            implies r.flows[f]->0.channels_refcount[k] == users(r.channels, f, k, r.channels.len() as int) by {
            lemma_users_update(v.channels, i, None, f, k, v.channels.len() as int);
            assert(v.flows[f] is Some);
            assert(v.flows[f]->0.channels_refcount[k] == users(
                v.channels,
                f,
                k,
                v.channels.len() as int,
            ));
        }
    }
}

/// Replacing a channel which is not connected by another one which is not connected keeps what
/// always holds.
proof fn lemma_replace_unconnected(v: SubscriberView, i: int, sub: Option<SubscriptionView>)
    requires
        v.wf(),
        0 <= i < v.channels.len(),
        v.channels[i] is Some ==> v.channels[i]->0.remote is None,
        sub is Some ==> sub->0.remote is None,
    ensures
        (SubscriberView { channels: v.channels.update(i, sub), ..v }).wf(),
{
    let r = SubscriberView { channels: v.channels.update(i, sub), ..v };
    assert forall|j: int|
        0 <= j < r.channels.len() && #[trigger] r.channels[j] is Some && r.channels[j]->0.remote is Some
        implies r.is_flow_channel(r.channels[j]->0.remote->0) by {
        assert(j != i);
        assert(v.channels[j] == r.channels[j]);
        assert(v.is_flow_channel(v.channels[j]->0.remote->0));
    }
    assert forall|f: int, k: int|
        #![trigger r.flows[f]->0.channels_refcount[k]]
        0 <= f < r.flows.len() && r.flows[f] is Some && 0 <= k < r.flows[f]->0.channels_refcount.len()
        implies r.flows[f]->0.channels_refcount[k] == users(r.channels, f, k, r.channels.len() as int) by {
        lemma_users_update(v.channels, i, sub, f, k, v.channels.len() as int);
        assert(v.flows[f]->0.channels_refcount[k] == users(v.channels, f, k, v.channels.len() as int));
    }
}

/// What is shown does not matter to what always holds.
proof fn lemma_replace_info(v: SubscriberView, i: int, info: Option<InfoView>)
    requires
        v.wf(),
        0 <= i < v.channels.len(),
    ensures
        (SubscriberView { infos: v.infos.update(i, info), ..v }).wf(),
{
    let r = SubscriberView { infos: v.infos.update(i, info), ..v };
    assert forall|j: int|
        0 <= j < r.channels.len() && #[trigger] r.channels[j] is Some && r.channels[j]->0.remote is Some
        implies r.is_flow_channel(r.channels[j]->0.remote->0) by {
        assert(v.is_flow_channel(v.channels[j]->0.remote->0));
    }
    assert forall|f: int, k: int|
        #![trigger r.flows[f]->0.channels_refcount[k]]
        0 <= f < r.flows.len() && r.flows[f] is Some && 0 <= k < r.flows[f]->0.channels_refcount.len()
        implies r.flows[f]->0.channels_refcount[k] == users(r.channels, f, k, r.channels.len() as int) by {
        assert(v.flows[f]->0.channels_refcount[k] == users(v.channels, f, k, v.channels.len() as int));
    }
}

impl ChannelsSubscriber {
    /// No channel subscribed to anything.
    pub fn new(num_channels: usize) -> (subscriber: Self)
        requires
            num_channels <= isize::MAX,
        ensures
            subscriber@.wf(),
            subscriber@ == (SubscriberView {
                channels: Seq::new(num_channels as nat, |i: int| None),
                flows: Seq::empty(),
                infos: Seq::new(num_channels as nat, |i: int| None),
                needs_resolving: false,
                resolve_now: false,
            }),
    {
        let mut channels: Vec<Option<ChannelSubscription>> = Vec::new();
        let mut infos: Vec<Option<SubscriptionInfo>> = Vec::new();
        let mut i: usize = 0;
        while i < num_channels
            invariant
                i <= num_channels,
                channels@ == Seq::new(i as nat, |i: int| None::<ChannelSubscription>),
                infos@ == Seq::new(i as nat, |i: int| None::<SubscriptionInfo>),
            decreases num_channels - i,
        {
            channels.push(None);
            infos.push(None);
            i = i + 1;
        }
        let subscriber = Self {
            channels,
            flows: Vec::new(),
            subscriptions_info: infos,
            needs_resolving: false,
            resolve_now: false,
        };
        assert(subscriber@.channels =~= Seq::new(num_channels as nat, |i: int| None));
        assert(subscriber@.infos =~= Seq::new(num_channels as nat, |i: int| None));
        assert(subscriber@.flows =~= Seq::empty());
        subscriber
    }

    /// Shows a subscription as soon as it is asked for.
    /// (Controllers ask for the list of subscriptions right after the response to a subscribe request.)
    pub fn announce(&mut self, local_channel_index: usize, tx_channel_name: &str, tx_hostname: &str)
        requires
            old(self)@.wf(),
            local_channel_index < old(self)@.channels.len(),
        ensures
            final(self)@.wf(),
            final(self)@ == old(self)@.announced(
                local_channel_index as int,
                tx_channel_name@,
                tx_hostname@,
            ),
    {
        self.subscriptions_info.set(
            local_channel_index,
            Some(
                SubscriptionInfo {
                    tx_channel_name: tx_channel_name.to_owned(),
                    tx_hostname: tx_hostname.to_owned(),
                    status: SubscriptionStatus::Unresolved,
                },
            ),
        );
        proof {
            let expected = old(self)@.announced(
                local_channel_index as int,
                tx_channel_name@,
                tx_hostname@,
            );
            assert(self@.infos =~= expected.infos);
            lemma_replace_info(
                old(self)@,
                local_channel_index as int,
                expected.infos[local_channel_index as int],
            );
        }
    }

    /// What is shown of the subscription of the channel.
    pub fn channel_status(&self, channel_index: usize) -> (info: &Option<SubscriptionInfo>)
        requires
            channel_index < self@.infos.len(),
        ensures
            *info == self.subscriptions_info@[channel_index as int],
    {
        &self.subscriptions_info[channel_index]
    }

    /// Removes the subscription of the channel; returns what is to be announced.
    pub fn unsubscribe(&mut self, local_channel_index: usize, remove_from_info: bool) -> (message: Option<
        MulticastMessage,
    >)
        requires
            old(self)@.wf(),
            local_channel_index < old(self)@.channels.len(),
        ensures
            final(self)@.wf(),
            final(self)@ == old(self)@.unsubscribed(local_channel_index as int, remove_from_info),
            message is Some <==> old(self)@.channels[local_channel_index as int] is Some,
            message is Some ==> message->0.start_code == 0xffff && message->0.opcode@
                == seq![0x07u8, 0x2a, 1, 2, 0, 0, 0, 0] && message->0.content@ == seq![
                0u8,
                1,
                channels_mask(seq![local_channel_index]) as u8,
            ],
    {
        let ghost v0 = self@;
        let i: usize = local_channel_index;
        proof {
            lemma_released_wf(v0, i as int);
        }
        let remote: Option<ChannelOtherEnd> = match &self.channels[i] {
            Some(subscription) => subscription.remote,
            None => {
                return None;
            },
        };
        match remote {
            Some(remote) => {
                let f: usize = remote.local_flow_index;
                let k: usize = remote.channel_in_flow;
                assert(v0.is_flow_channel(remote));
                assert(v0.flows[f as int]->0.wf());
                let ghost flows0 = self.flows@;
                assert(flows_view(flows0)[f as int] is Some);
                match &mut self.flows[f] {
                    Some(flow) => {
                        let count: isize = flow.channels_refcount[k];
                        flow.channels_refcount.set(k, count - 1);
                    },
                    None => {},
                }
                assert(flows_view(self.flows@) =~= v0.released(i as int).flows);
            },
            None => {
                assert(flows_view(self.flows@) =~= v0.released(i as int).flows);
            },
        }
        self.channels.set(i, None);
        assert(subscriptions_view(self.channels@) =~= v0.released(i as int).channels);
        if remove_from_info {
            self.subscriptions_info.set(i, None);
            proof {
                lemma_replace_info(v0.released(i as int), i as int, None);
            }
        }
        assert(infos_view(self.subscriptions_info@) =~= v0.unsubscribed(i as int, remove_from_info).infos);
        let indices: [usize; 1] = [i];
        assert(indices@ =~= seq![local_channel_index]);
        Some(notify_channels_change(indices.as_slice()))
    }

    /// Subscribes the channel to a channel of a transmitter; returns what is to be announced.
    pub fn subscribe(&mut self, local_channel_index: usize, tx_channel_name: &str, tx_hostname: &str) -> (message:
        Option<MulticastMessage>)
        requires
            old(self)@.wf(),
            local_channel_index < old(self)@.channels.len(),
        ensures
            final(self)@.wf(),
            final(self)@ == old(self)@.subscribed(
                local_channel_index as int,
                tx_channel_name@,
                tx_hostname@,
            ),
            message is Some <==> old(self)@.channels[local_channel_index as int] is Some,
            message is Some ==> message->0.start_code == 0xffff && message->0.opcode@
                == seq![0x07u8, 0x2a, 1, 2, 0, 0, 0, 0] && message->0.content@ == seq![
                0u8,
                1,
                channels_mask(seq![local_channel_index]) as u8,
            ],
    {
        let ghost v0 = self@;
        let message = self.unsubscribe(local_channel_index, false);
        let ghost v1 = self@;
        self.channels.set(
            local_channel_index,
            Some(
                ChannelSubscription {
                    tx_channel_name: tx_channel_name.to_owned(),
                    tx_hostname: tx_hostname.to_owned(),
                    remote: None,
                },
            ),
        );
        self.needs_resolving = true;
        self.resolve_now = true;
        proof {
            let i = local_channel_index as int;
            let expected = v0.subscribed(i, tx_channel_name@, tx_hostname@);
            assert(self@.channels =~= expected.channels);
            lemma_replace_unconnected(v1, i, expected.channels[i]);
            let r = SubscriberView { channels: v1.channels.update(i, expected.channels[i]), ..v1 };
            lemma_flags_do_not_matter(r, true, true);
        }
        message
    }
}

proof fn lemma_flags_do_not_matter(v: SubscriberView, needs_resolving: bool, resolve_now: bool)
    requires
        v.wf(),
    ensures
        (SubscriberView { needs_resolving, resolve_now, ..v }).wf(),
{
    let r = SubscriberView { needs_resolving, resolve_now, ..v };
    assert forall|j: int|
        0 <= j < r.channels.len() && #[trigger] r.channels[j] is Some && r.channels[j]->0.remote is Some
        implies r.is_flow_channel(r.channels[j]->0.remote->0) by {
        assert(v.is_flow_channel(v.channels[j]->0.remote->0));
    }
    assert forall|f: int, k: int|
        #![trigger r.flows[f]->0.channels_refcount[k]]
        0 <= f < r.flows.len() && r.flows[f] is Some && 0 <= k < r.flows[f]->0.channels_refcount.len()
        implies r.flows[f]->0.channels_refcount[k] == users(r.channels, f, k, r.channels.len() as int) by {
        assert(v.flows[f]->0.channels_refcount[k] == users(v.channels, f, k, v.channels.len() as int));
    }
}

// ---------------------------------------------------------------------------------------------
// Connecting channels
// ---------------------------------------------------------------------------------------------

/// Where received samples are kept.
#[derive(Clone, Copy, Debug, PartialEq, Eq, Structural)]
pub enum Buffering {
    /// in ring buffers of ours, one for each channel of a flow, shared by all aliases
    Owned,
    /// in memory given by somebody else, a place of its own for each local channel
    External,
}

/// A connection to be made between a channel of a flow and a local channel.
#[derive(Clone, Copy, Debug, PartialEq, Eq, Structural)]
pub struct ConnectAction {
    pub channel_index: usize,
    pub remote: ChannelOtherEnd,
    pub latency_samples: usize,
    /// whether a new ring buffer has to be made and given to the receiver of the flow
    pub new_ring_buffer: bool,
}

impl SubscriberView {
    /// After the channel was connected to a channel of a flow.
    pub open spec fn connected(self, chi: int, remote: ChannelOtherEnd, buffering: Buffering) -> SubscriberView {
        let f = remote.local_flow_index as int;
        let k = remote.channel_in_flow as int;
        let flow = self.flows[f]->0;
        let sub = self.channels[chi]->0;
        SubscriberView {
            flows: self.flows.update(
                f,
                Some(
                    FlowView {
                        tx_channels: flow.tx_channels.update(k, Some(remote.tx_channel_id)),
                        channels_refcount: flow.channels_refcount.update(
                            k,
                            (flow.channels_refcount[k] + 1) as isize,
                        ),
                        channels_rb_outputs: if buffering == Buffering::Owned {
                            flow.channels_rb_outputs.update(k, true)
                        } else {
                            flow.channels_rb_outputs
                        },
                        ..flow
                    },
                ),
            ),
            channels: self.channels.update(chi, Some(SubscriptionView { remote: Some(remote), ..sub })),
            infos: self.infos.update(
                chi,
                Some(
                    InfoView {
                        tx_channel_name: sub.tx_channel_name,
                        tx_hostname: sub.tx_hostname,
                        status: SubscriptionStatus::InProgress,
                    },
                ),
            ),
            ..self
        }
    }

    /// What has to be done to connect the channel.
    pub open spec fn connect_action(self, chi: int, remote: ChannelOtherEnd, buffering: Buffering) -> ConnectAction {
        let flow = self.flows[remote.local_flow_index as int]->0;
        ConnectAction {
            channel_index: chi as usize,
            remote,
            latency_samples: flow.latency_samples,
            new_ring_buffer: buffering == Buffering::External
                || !flow.channels_rb_outputs[remote.channel_in_flow as int],
        }
    }

    /// After those of the first `n` channels for which the updated channel stands were connected.
    pub open spec fn updated(
        self,
        heads: Seq<Option<usize>>,
        update: ChannelSourceUpdate,
        buffering: Buffering,
        n: int,
    ) -> SubscriberView
        decreases n,
    {
        if n <= 0 {
            self
        } else {
            let before = self.updated(heads, update, buffering, n - 1);
            if heads[n - 1] == Some(update.local_channel_index) {
                before.connected(n - 1, update.remote, buffering)
            } else {
                before
            }
        }
    }

    /// What has to be done for those of the first `n` channels for which the updated channel stands.
    pub open spec fn update_actions(
        self,
        heads: Seq<Option<usize>>,
        update: ChannelSourceUpdate,
        buffering: Buffering,
        n: int,
    ) -> Seq<ConnectAction>
        decreases n,
    {
        if n <= 0 {
            Seq::empty()
        } else {
            let before = self.update_actions(heads, update, buffering, n - 1);
            if heads[n - 1] == Some(update.local_channel_index) {
                before.push(
                    self.updated(heads, update, buffering, n - 1).connect_action(
                        n - 1,
                        update.remote,
                        buffering,
                    ),
                )
            } else {
                before
            }
        }
    }

    /// Whether all channels for which the updated channel stands wait to be connected.
    pub open spec fn can_update(self, heads: Seq<Option<usize>>, update: ChannelSourceUpdate) -> bool {
        &&& heads.len() == self.channels.len()
        &&& self.is_flow_channel(update.remote)
        &&& forall|i: int|
            0 <= i < heads.len() && #[trigger] heads[i] == Some(update.local_channel_index)
                ==> self.channels[i] is Some && self.channels[i]->0.remote is None
    }
}

proof fn lemma_connected_wf(v: SubscriberView, chi: int, remote: ChannelOtherEnd, buffering: Buffering)
    requires
        v.wf(),
        0 <= chi < v.channels.len(),
        v.channels[chi] is Some,
        v.channels[chi]->0.remote is None,
        v.is_flow_channel(remote),
    ensures
        v.connected(chi, remote, buffering).wf(),
        0 <= v.flows[remote.local_flow_index as int]->0.channels_refcount[remote.channel_in_flow as int]
            < isize::MAX,
        v.flows[remote.local_flow_index as int]->0.wf(),
{
    let r = v.connected(chi, remote, buffering);
    let f0 = remote.local_flow_index as int;
    let k0 = remote.channel_in_flow as int;
    assert(v.flows[f0]->0.wf());
    let n = v.channels.len() as int;
    assert(v.flows[f0]->0.channels_refcount[k0] == users(v.channels, f0, k0, n));
    // the channel itself is not counted
    lemma_users_update(v.channels, chi, r.channels[chi], f0, k0, n);
    lemma_users_bounds(v.channels, f0, k0, n);
    lemma_users_bounds(r.channels, f0, k0, n);
    assert(users(r.channels, f0, k0, n) == users(v.channels, f0, k0, n) + 1);
    assert forall|f: int| 0 <= f < r.flows.len() && #[trigger] r.flows[f] is Some implies r.flows[f]->0.wf() by {
        assert(v.flows[f] is Some ==> v.flows[f]->0.wf());
    }
    assert forall|j: int|
        0 <= j < r.channels.len() && #[trigger] r.channels[j] is Some && r.channels[j]->0.remote is Some
        implies r.is_flow_channel(r.channels[j]->0.remote->0) by {
        if j != chi {
            assert(v.channels[j] == r.channels[j]);
            assert(v.is_flow_channel(v.channels[j]->0.remote->0));
        }
    }
    assert forall|f: int, k: int|
        #![trigger r.flows[f]->0.channels_refcount[k]]
        0 <= f < r.flows.len() && r.flows[f] is Some && 0 <= k < r.flows[f]->0.channels_refcount.len()
        implies r.flows[f]->0.channels_refcount[k] == users(r.channels, f, k, r.channels.len() as int) by {
        lemma_users_update(v.channels, chi, r.channels[chi], f, k, n);
        assert(v.flows[f] is Some);
        assert(v.flows[f]->0.channels_refcount[k] == users(v.channels, f, k, n));
    }
}

impl ChannelsSubscriber {
    /// Connects one channel.
    fn connect(&mut self, chi: usize, remote: ChannelOtherEnd, buffering: Buffering) -> (action: ConnectAction)
        requires
            old(self)@.wf(),
            chi < old(self)@.channels.len(),
            old(self)@.channels[chi as int] is Some,
            old(self)@.channels[chi as int]->0.remote is None,
            old(self)@.is_flow_channel(remote),
        ensures
            final(self)@.wf(),
            final(self)@ == old(self)@.connected(chi as int, remote, buffering),
            action == old(self)@.connect_action(chi as int, remote, buffering),
    {
        let ghost v0 = self@;
        proof {
            lemma_connected_wf(v0, chi as int, remote, buffering);
        }
        let f: usize = remote.local_flow_index;
        let k: usize = remote.channel_in_flow;
        let mut latency_samples: usize = 0;
        let mut new_ring_buffer: bool = false;
        assert(flows_view(self.flows@)[f as int] is Some);
        match &mut self.flows[f] {
            Some(flow) => {
                flow.tx_channels.set(k, Some(remote.tx_channel_id));
                let count: isize = flow.channels_refcount[k];
                flow.channels_refcount.set(k, count + 1);
                latency_samples = flow.latency_samples;
                match buffering {
                    Buffering::Owned => {
                        new_ring_buffer = !flow.channels_rb_outputs[k];
                        flow.channels_rb_outputs.set(k, true);
                    },
                    Buffering::External => {
                        new_ring_buffer = true;
                    },
                }
            },
            None => {},
        }
        assert(flows_view(self.flows@) =~= v0.connected(chi as int, remote, buffering).flows);
        assert(subscriptions_view(self.channels@)[chi as int] is Some);
        match &mut self.channels[chi] {
            Some(subscription) => {
                subscription.remote = Some(remote);
                self.subscriptions_info.set(
                    chi,
                    Some(
                        SubscriptionInfo {
                            tx_channel_name: subscription.tx_channel_name.clone(),
                            tx_hostname: subscription.tx_hostname.clone(),
                            status: SubscriptionStatus::InProgress,
                        },
                    ),
                );
            },
            None => {},
        }
        assert(subscriptions_view(self.channels@) =~= v0.connected(chi as int, remote, buffering).channels);
        assert(infos_view(self.subscriptions_info@) =~= v0.connected(chi as int, remote, buffering).infos);
        ConnectAction { channel_index: chi, remote, latency_samples, new_ring_buffer }
    }

    /// Connects all channels for which the updated channel stands. The indices of the connected
    /// channels are added to `changed`.
    pub fn apply_update(
        &mut self,
        heads: &Vec<Option<usize>>,
        update: ChannelSourceUpdate,
        buffering: Buffering,
        changed: &mut Vec<usize>,
    ) -> (actions: Vec<ConnectAction>)
        requires
            old(self)@.wf(),
            old(self)@.can_update(heads@, update),
        ensures
            final(self)@.wf(),
            final(self)@ == old(self)@.updated(
                heads@,
                update,
                buffering,
                old(self)@.channels.len() as int,
            ),
            actions@ == old(self)@.update_actions(
                heads@,
                update,
                buffering,
                old(self)@.channels.len() as int,
            ),
            final(changed)@ == old(changed)@ + actions@.map_values(|a: ConnectAction| a.channel_index),
    {
        let ghost v0 = self@;
        let ghost changed0 = changed@;
        let mut actions: Vec<ConnectAction> = Vec::new();
        let mut chi: usize = 0;
        assert(changed0 + actions@.map_values(|a: ConnectAction| a.channel_index) =~= changed0);
        while chi < heads.len()
            invariant
                v0 == old(self)@,
                changed0 == old(changed)@,
                v0.can_update(heads@, update),
                chi <= heads@.len(),
                self@.wf(),
                self@ == v0.updated(heads@, update, buffering, chi as int),
                self@.channels.len() == v0.channels.len(),
                self@.is_flow_channel(update.remote),
                forall|i: int| chi <= i < v0.channels.len() ==> #[trigger] self@.channels[i] == v0.channels[i],
                actions@ == v0.update_actions(heads@, update, buffering, chi as int),
                changed@ == changed0 + actions@.map_values(|a: ConnectAction| a.channel_index),
            decreases heads@.len() - chi,
        {
            let concerned: bool = match heads[chi] {
                Some(head) => head == update.local_channel_index,
                None => false,
            };
            if concerned {
                assert(heads@[chi as int] == Some(update.local_channel_index));
                assert(self@.channels[chi as int] == v0.channels[chi as int]);
                let ghost actions0 = actions@;
                let action = self.connect(chi, update.remote, buffering);
                actions.push(action);
                changed.push(chi);
                assert(actions@.map_values(|a: ConnectAction| a.channel_index) =~= actions0.map_values(
                    |a: ConnectAction| a.channel_index,
                ).push(chi));
            }
            chi = chi + 1;
        }
        actions
    }

    /// Starts looking for the sources of channels. Returns which channel stands for which, the
    /// updates that can be made at once and the channels that have to be asked for.
    pub fn begin_resolving(&mut self) -> (r: (Vec<Option<usize>>, Vec<ChannelSourceUpdate>, Vec<usize>))
        requires
            old(self)@.wf(),
        ensures
            final(self)@.wf(),
            final(self).channels == old(self).channels,
            is_heads_of(r.0@, old(self).channels@),
            r.1@ == known_sources(old(self).channels@, r.0@, old(self).channels@.len() as int),
            r.2@ == unknown_sources(old(self).channels@, r.0@, old(self).channels@.len() as int),
            final(self)@ == (SubscriberView {
                resolve_now: false,
                needs_resolving: old(self)@.needs_resolving && exists|i: int|
                    needs_source(old(self).channels@, i),
                ..old(self)@
            }),
    {
        self.resolve_now = false;
        let heads = find_needed_channels(&self.channels);
        let mut any: bool = false;
        let mut i: usize = 0;
        while i < heads.len()
            invariant
                is_heads_of(heads@, self.channels@),
                i <= heads@.len(),
                any == exists|k: int| 0 <= k < i && needs_source(self.channels@, k),
            decreases heads@.len() - i,
        {
            if heads[i].is_some() {
                any = true;
                assert(needs_source(self.channels@, i as int));
            }
            i = i + 1;
        }
        if !any {
            self.needs_resolving = false;
        }
        proof {
            if any {
                let k = choose|k: int| 0 <= k < heads@.len() && needs_source(self.channels@, k);
                assert(needs_source(old(self).channels@, k));
            }
            lemma_flags_do_not_matter(old(self)@, self.needs_resolving, false);
        }
        let (resolved, remaining) = reuse_known_sources(&self.channels, &heads);
        (heads, resolved, remaining)
    }
}

// ---------------------------------------------------------------------------------------------
// Answers of transmitters
// ---------------------------------------------------------------------------------------------

/// Whether one of the updates concerns the channel or the one which stands for it.
pub open spec fn is_concerned(
    heads: Seq<Option<usize>>,
    updates: Seq<ChannelSourceUpdate>,
    chi: int,
) -> bool {
    exists|u: int| 0 <= u < updates.len() && heads[chi] == Some((#[trigger] updates[u]).local_channel_index)
}

impl SubscriberView {
    /// After the transmitter granted the flow.
    pub open spec fn granted(self, f: int, handle: FlowHandle) -> SubscriberView {
        let flow = self.flows[f]->0;
        SubscriberView {
            flows: self.flows.update(
                f,
                Some(
                    FlowView {
                        source: FlowSourceView::Unicast {
                            control_remote_addr: flow.source->Unicast_control_remote_addr,
                            dbcp1: flow.source->Unicast_dbcp1,
                            handle: Some(handle),
                        },
                        ..flow
                    },
                ),
            ),
            ..self
        }
    }

    /// After the flow was removed from the table.
    pub open spec fn without_flow(self, f: int) -> SubscriberView {
        SubscriberView { flows: self.flows.update(f, None), ..self }
    }

    /// After the transmitter refused the flow which the updates needed.
    pub open spec fn refused(
        self,
        heads: Seq<Option<usize>>,
        updates: Seq<ChannelSourceUpdate>,
        f: int,
    ) -> SubscriberView {
        SubscriberView {
            infos: Seq::new(
                self.infos.len(),
                |i: int|
                    if is_concerned(heads, updates, i) && self.infos[i] is Some {
                        Some(InfoView { status: SubscriptionStatus::TxFail, ..self.infos[i]->0 })
                    } else {
                        self.infos[i]
                    },
            ),
            ..self.without_flow(f)
        }
    }
}

/// A flow which nobody uses can be removed.
proof fn lemma_without_flow_wf(v: SubscriberView, f: int)
    requires
        v.wf(),
        0 <= f < v.flows.len(),
        v.flows[f] is Some ==> !v.flows[f]->0.is_used(),
    ensures
        v.without_flow(f).wf(),
{
    let r = v.without_flow(f);
    let n = v.channels.len() as int;
    assert forall|g: int| 0 <= g < r.flows.len() && #[trigger] r.flows[g] is Some implies r.flows[g]->0.wf() by {
        assert(v.flows[g] is Some ==> v.flows[g]->0.wf());
    }
    assert forall|j: int|
        0 <= j < r.channels.len() && #[trigger] r.channels[j] is Some && r.channels[j]->0.remote is Some
        implies r.is_flow_channel(r.channels[j]->0.remote->0) by {
        let remote = v.channels[j]->0.remote->0;
        assert(v.is_flow_channel(remote));
        if remote.local_flow_index == f {
            let k = remote.channel_in_flow as int;
            assert(v.flows[f]->0.wf());
            assert(v.flows[f]->0.channels_refcount[k] == users(v.channels, f, k, n));
            assert(!(v.flows[f]->0.channels_refcount[k] > 0));
            lemma_user_counts(v.channels, j, f, k, n);
        }
    }
    assert forall|g: int, k: int|
        #![trigger r.flows[g]->0.channels_refcount[k]]
        0 <= g < r.flows.len() && r.flows[g] is Some && 0 <= k < r.flows[g]->0.channels_refcount.len()
        implies r.flows[g]->0.channels_refcount[k] == users(r.channels, g, k, r.channels.len() as int) by {
        assert(v.flows[g]->0.channels_refcount[k] == users(v.channels, g, k, n));
    }
}

/// Nothing but what is shown differs.
proof fn lemma_infos_do_not_matter(v: SubscriberView, infos: Seq<Option<InfoView>>)
    requires
        v.wf(),
        infos.len() == v.infos.len(),
    ensures
        (SubscriberView { infos, ..v }).wf(),
{
    let r = SubscriberView { infos, ..v };
    assert forall|j: int|
        0 <= j < r.channels.len() && #[trigger] r.channels[j] is Some && r.channels[j]->0.remote is Some
        implies r.is_flow_channel(r.channels[j]->0.remote->0) by {
        assert(v.is_flow_channel(v.channels[j]->0.remote->0));
    }
    assert forall|f: int, k: int|
        #![trigger r.flows[f]->0.channels_refcount[k]]
        0 <= f < r.flows.len() && r.flows[f] is Some && 0 <= k < r.flows[f]->0.channels_refcount.len()
        implies r.flows[f]->0.channels_refcount[k] == users(r.channels, f, k, r.channels.len() as int) by {
        assert(v.flows[f]->0.channels_refcount[k] == users(v.channels, f, k, v.channels.len() as int));
    }
}

impl ChannelsSubscriber {
    /// The transmitter has granted the flow.
    pub fn flow_granted(&mut self, flow_index: usize, handle: FlowHandle)
        requires
            old(self)@.wf(),
            flow_index < old(self)@.flows.len(),
            old(self)@.flows[flow_index as int] is Some,
            old(self)@.flows[flow_index as int]->0.source is Unicast,
        ensures
            final(self)@.wf(),
            final(self)@ == old(self)@.granted(flow_index as int, handle),
    {
        let ghost v0 = self@;
        assert(flows_view(self.flows@)[flow_index as int] is Some);
        match &mut self.flows[flow_index] {
            Some(flow) => {
                match &flow.source {
                    FlowSource::Unicast { control_remote_addr, dbcp1, .. } => {
                        let addr: SocketNumber = *control_remote_addr;
                        let dbcp1: u16 = *dbcp1;
                        flow.source = FlowSource::Unicast {
                            control_remote_addr: addr,
                            dbcp1,
                            handle: Some(handle),
                        };
                    },
                    FlowSource::Multicast { .. } => {},
                }
            },
            None => {},
        }
        proof {
            let r = v0.granted(flow_index as int, handle);
            assert(flows_view(self.flows@) =~= r.flows);
            assert forall|f: int| 0 <= f < r.flows.len() && #[trigger] r.flows[f] is Some implies r.flows[f]->0.wf() by {
                assert(v0.flows[f] is Some ==> v0.flows[f]->0.wf());
            }
            assert forall|j: int|
                0 <= j < r.channels.len() && #[trigger] r.channels[j] is Some && r.channels[j]->0.remote is Some
                implies r.is_flow_channel(r.channels[j]->0.remote->0) by {
                assert(v0.is_flow_channel(v0.channels[j]->0.remote->0));
            }
            assert forall|f: int, k: int|
                #![trigger r.flows[f]->0.channels_refcount[k]]
                0 <= f < r.flows.len() && r.flows[f] is Some && 0 <= k < r.flows[f]->0.channels_refcount.len()
                implies r.flows[f]->0.channels_refcount[k] == users(r.channels, f, k, r.channels.len() as int) by {
                assert(v0.flows[f] is Some);
                assert(v0.flows[f]->0.channels_refcount[k] == users(
                    v0.channels,
                    f,
                    k,
                    v0.channels.len() as int,
                ));
            }
        }
    }

    /// The flow cannot be received.
    pub fn flow_dropped(&mut self, flow_index: usize)
        requires
            old(self)@.wf(),
            flow_index < old(self)@.flows.len(),
            old(self)@.flows[flow_index as int] is Some ==> !old(self)@.flows[flow_index as int]->0.is_used(),
        ensures
            final(self)@.wf(),
            final(self)@ == old(self)@.without_flow(flow_index as int),
    {
        proof {
            lemma_without_flow_wf(self@, flow_index as int);
        }
        self.flows.set(flow_index, None);
        assert(flows_view(self.flows@) =~= old(self)@.without_flow(flow_index as int).flows);
    }

    /// The transmitter has refused the flow: all channels which should have used it are shown as failed.
    pub fn flow_refused(&mut self, heads: &Vec<Option<usize>>, updates: &Vec<ChannelSourceUpdate>, flow_index: usize)
        requires
            old(self)@.wf(),
            heads@.len() == old(self)@.channels.len(),
            flow_index < old(self)@.flows.len(),
            old(self)@.flows[flow_index as int] is Some ==> !old(self)@.flows[flow_index as int]->0.is_used(),
        ensures
            final(self)@.wf(),
            final(self)@ == old(self)@.refused(heads@, updates@, flow_index as int),
    {
        let ghost v0 = self@;
        self.flow_dropped(flow_index);
        let ghost v1 = self@;
        let mut chi: usize = 0;
        while chi < heads.len()
            invariant
                v0 == old(self)@,
                v1 == v0.without_flow(flow_index as int),
                v1.wf(),
                heads@.len() == v0.channels.len(),
                chi <= heads@.len(),
                self@.infos.len() == v1.infos.len(),
                self@ == (SubscriberView { infos: self@.infos, ..v1 }),
                forall|i: int|
                    0 <= i < chi ==> #[trigger] self@.infos[i] == v0.refused(
                        heads@,
                        updates@,
                        flow_index as int,
                    ).infos[i],
                forall|i: int| chi <= i < v0.infos.len() ==> #[trigger] self@.infos[i] == v0.infos[i],
            decreases heads@.len() - chi,
        {
            let mut concerned: bool = false;
            let mut u: usize = 0;
            while u < updates.len()
                invariant
                    chi < heads@.len(),
                    u <= updates@.len(),
                    concerned == exists|k: int|
                        0 <= k < u && heads@[chi as int] == Some((#[trigger] updates@[k]).local_channel_index),
                decreases updates@.len() - u,
            {
                match heads[chi] {
                    Some(head) => {
                        if head == updates[u].local_channel_index {
                            concerned = true;
                        }
                    },
                    None => {},
                }
                u = u + 1;
            }
            assert(concerned == is_concerned(heads@, updates@, chi as int));
            let ghost infos0 = self.subscriptions_info@;
            assert(infos_view(infos0)[chi as int] == v0.infos[chi as int]);
            if concerned {
                match &mut self.subscriptions_info[chi] {
                    Some(info) => {
                        info.status = SubscriptionStatus::TxFail;
                    },
                    None => {},
                }
            }
            proof {
                let now = self@.infos;
                assert forall|i: int| 0 <= i < now.len() && i != chi implies now[i] == infos_view(infos0)[i] by {}
            }
            chi = chi + 1;
        }
        proof {
            let r = v0.refused(heads@, updates@, flow_index as int);
            assert(self@.infos =~= r.infos);
            lemma_infos_do_not_matter(v1, r.infos);
        }
    }
}

// ---------------------------------------------------------------------------------------------
// Watching flows
// ---------------------------------------------------------------------------------------------

/// Seconds without packets after which a flow is given up.
pub const MAX_SILENCE_SECONDS: usize = 2;

/// Seconds which a new flow has for its first packet.
pub const MAX_START_SECONDS: usize = 6;

/// Whether the channel is connected to a channel of the flow.
pub open spec fn is_on_flow(sub: Option<SubscriptionView>, f: int) -> bool {
    sub is Some && sub->0.remote is Some && sub->0.remote->0.local_flow_index == f
}

/// Whether no packet of the flow has come lately, at `now` seconds.
pub open spec fn is_silent(flow: FlowView, now: usize) -> bool {
    flow.last_packet_time < now.saturating_sub(MAX_SILENCE_SECONDS)
}

/// Whether the flow is in use but no packets come although they should.
pub open spec fn is_timed_out(flow: FlowView, now: usize) -> bool {
    &&& flow.is_used()
    &&& is_silent(flow, now)
    &&& flow.creation_time < now.saturating_sub(MAX_START_SECONDS)
}

/// What is shown of channels which receive the flow.
pub open spec fn receiving_status(flow: FlowView) -> SubscriptionStatus {
    match flow.source {
        FlowSourceView::Unicast { .. } => SubscriptionStatus::ReceivingUnicast,
        FlowSourceView::Multicast { .. } => SubscriptionStatus::ReceivingMulticast,
    }
}

/// Those of the first `n` channels which are connected to the flow.
pub open spec fn channels_on_flow(v: SubscriberView, f: int, n: int) -> Seq<usize>
    decreases n,
{
    if n <= 0 {
        Seq::empty()
    } else if is_on_flow(v.channels[n - 1], f) {
        channels_on_flow(v, f, n - 1).push((n - 1) as usize)
    } else {
        channels_on_flow(v, f, n - 1)
    }
}

/// Those of the first `n` channels connected to the flow which are shown with another status.
pub open spec fn shown_otherwise(v: SubscriberView, f: int, status: Option<SubscriptionStatus>, n: int) -> Seq<usize>
    decreases n,
{
    if n <= 0 {
        Seq::empty()
    } else if is_on_flow(v.channels[n - 1], f) && v.infos[n - 1] is Some && status != Some(
        v.infos[n - 1]->0.status,
    ) {
        shown_otherwise(v, f, status, n - 1).push((n - 1) as usize)
    } else {
        shown_otherwise(v, f, status, n - 1)
    }
}

/// What is shown after all channels connected to the flow are shown with the status.
pub open spec fn shown_with(v: SubscriberView, f: int, status: SubscriptionStatus) -> Seq<Option<InfoView>> {
    Seq::new(
        v.infos.len(),
        |i: int|
            if is_on_flow(v.channels[i], f) && v.infos[i] is Some {
                Some(InfoView { status, ..v.infos[i]->0 })
            } else {
                v.infos[i]
            },
    )
}

/// What happens to a flow.
pub enum FlowFate {
    /// it is left alone
    Kept,
    /// its packets come, so its channels are shown as receiving
    Receiving,
    /// nobody uses it, so it is removed
    Unused,
    /// its packets do not come, so it is removed and its channels need another source
    TimedOut,
}

pub open spec fn fate(flow: FlowView, now: usize) -> FlowFate {
    if !flow.is_used() {
        FlowFate::Unused
    } else if is_timed_out(flow, now) {
        FlowFate::TimedOut
    } else if !is_silent(flow, now) && flow.needs_subscription_info_update {
        FlowFate::Receiving
    } else {
        FlowFate::Kept
    }
}

impl SubscriberView {
    /// After all channels connected to the flow lost their source.
    pub open spec fn orphaned(self, f: int) -> SubscriberView {
        let any = channels_on_flow(self, f, self.channels.len() as int).len() > 0;
        SubscriberView {
            channels: Seq::new(
                self.channels.len(),
                |i: int|
                    if is_on_flow(self.channels[i], f) {
                        Some(SubscriptionView { remote: None, ..self.channels[i]->0 })
                    } else {
                        self.channels[i]
                    },
            ),
            infos: shown_with(self, f, SubscriptionStatus::Unresolved),
            flows: self.flows.update(f, None),
            needs_resolving: self.needs_resolving || any,
            resolve_now: self.resolve_now || any,
        }
    }

    /// After the flow was looked at.
    pub open spec fn scanned_flow(self, f: int, now: usize) -> SubscriberView {
        match self.flows[f] {
            None => self,
            Some(flow) => match fate(flow, now) {
                FlowFate::Kept => self,
                FlowFate::Receiving => SubscriberView {
                    infos: shown_with(self, f, receiving_status(flow)),
                    ..self
                },
                FlowFate::Unused => self.without_flow(f),
                FlowFate::TimedOut => self.orphaned(f),
            },
        }
    }

    /// The channels whose shown status changes when the flow is looked at.
    pub open spec fn changed_by_flow(self, f: int, now: usize) -> Seq<usize> {
        let n = self.channels.len() as int;
        match self.flows[f] {
            None => Seq::empty(),
            Some(flow) => match fate(flow, now) {
                FlowFate::Receiving => shown_otherwise(self, f, Some(receiving_status(flow)), n),
                FlowFate::TimedOut => shown_otherwise(self, f, None, n),
                _ => Seq::empty(),
            },
        }
    }

    /// The channels which lose their source when the flow is looked at.
    pub open spec fn orphaned_by_flow(self, f: int, now: usize) -> Seq<usize> {
        if self.flows[f] is Some && fate(self.flows[f]->0, now) is TimedOut {
            channels_on_flow(self, f, self.channels.len() as int)
        } else {
            Seq::empty()
        }
    }

    /// Whether the flow is removed when it is looked at.
    pub open spec fn is_flow_removed(self, f: int, now: usize) -> bool {
        self.flows[f] is Some && (fate(self.flows[f]->0, now) is TimedOut || fate(
            self.flows[f]->0,
            now,
        ) is Unused)
    }

    /// After the first `n` flows were looked at.
    pub open spec fn scanned(self, now: usize, n: int) -> SubscriberView
        decreases n,
    {
        if n <= 0 {
            self
        } else {
            self.scanned(now, n - 1).scanned_flow(n - 1, now)
        }
    }

    /// The channels whose shown status changes when the first `n` flows are looked at.
    pub open spec fn changed_by_scan(self, now: usize, n: int) -> Seq<usize>
        decreases n,
    {
        if n <= 0 {
            Seq::empty()
        } else {
            self.changed_by_scan(now, n - 1) + self.scanned(now, n - 1).changed_by_flow(n - 1, now)
        }
    }

    /// The channels which lose their source when the first `n` flows are looked at.
    pub open spec fn orphaned_by_scan(self, now: usize, n: int) -> Seq<usize>
        decreases n,
    {
        if n <= 0 {
            Seq::empty()
        } else {
            self.orphaned_by_scan(now, n - 1) + self.scanned(now, n - 1).orphaned_by_flow(n - 1, now)
        }
    }

    /// The flows which are removed when the first `n` flows are looked at.
    pub open spec fn removed_by_scan(self, now: usize, n: int) -> Seq<RemovedFlow>
        decreases n,
    {
        if n <= 0 {
            Seq::empty()
        } else {
            let before = self.removed_by_scan(now, n - 1);
            let v = self.scanned(now, n - 1);
            if v.is_flow_removed(n - 1, now) {
                before.push(removed_flow(v.flows[n - 1]->0, n - 1))
            } else {
                before
            }
        }
    }
}

/// A flow whose reception has to be stopped.
#[derive(Clone, Copy, Debug, PartialEq, Eq)]
pub struct RemovedFlow {
    pub flow_index: usize,
    /// the transmitter to be told; `None` for multicast
    pub stop: Option<StopRequest>,
}

/// A request to the transmitter that a flow be stopped.
#[derive(Clone, Copy, Debug, PartialEq, Eq)]
pub struct StopRequest {
    pub addr: SocketNumber,
    pub dbcp1: u16,
    pub handle: FlowHandle,
}

pub open spec fn removed_flow(flow: FlowView, f: int) -> RemovedFlow {
    RemovedFlow {
        flow_index: f as usize,
        stop: match flow.source {
            FlowSourceView::Unicast { control_remote_addr, dbcp1, handle } => Some(
                StopRequest { addr: control_remote_addr, dbcp1, handle: handle->0 },
            ),
            FlowSourceView::Multicast { .. } => None,
        },
    }
}

proof fn lemma_orphaned_wf(v: SubscriberView, f: int)
    requires
        v.wf(),
        0 <= f < v.flows.len(),
    ensures
        v.orphaned(f).wf(),
{
    let r = v.orphaned(f);
    let n = v.channels.len() as int;
    assert forall|g: int| 0 <= g < r.flows.len() && #[trigger] r.flows[g] is Some implies r.flows[g]->0.wf() by {
        assert(v.flows[g] is Some ==> v.flows[g]->0.wf());
    }
    assert forall|j: int|
        0 <= j < r.channels.len() && #[trigger] r.channels[j] is Some && r.channels[j]->0.remote is Some
        implies r.is_flow_channel(r.channels[j]->0.remote->0) by {
        assert(v.channels[j] == r.channels[j]);
        assert(v.is_flow_channel(v.channels[j]->0.remote->0));
    }
    assert forall|g: int, k: int|
        #![trigger r.flows[g]->0.channels_refcount[k]]
        0 <= g < r.flows.len() && r.flows[g] is Some && 0 <= k < r.flows[g]->0.channels_refcount.len()
        implies r.flows[g]->0.channels_refcount[k] == users(r.channels, g, k, r.channels.len() as int) by {
        assert(g != f);
        lemma_users_of_other_flow(v, f, g, k, n);
        assert(v.flows[g]->0.channels_refcount[k] == users(v.channels, g, k, n));
    }
}

proof fn lemma_users_of_other_flow(v: SubscriberView, f: int, g: int, k: int, n: int)
    requires
        0 <= n <= v.channels.len(),
        g != f,
    ensures
        users(v.orphaned(f).channels, g, k, n) == users(v.channels, g, k, n),
    decreases n,
{
    if n > 0 {
        lemma_users_of_other_flow(v, f, g, k, n - 1);
    }
}

proof fn lemma_scanned_keeps_sizes(v: SubscriberView, now: usize, n: int)
    requires
        0 <= n <= v.flows.len(),
    ensures
        v.scanned(now, n).channels.len() == v.channels.len(),
        v.scanned(now, n).infos.len() == v.infos.len(),
        v.scanned(now, n).flows.len() == v.flows.len(),
        forall|g: int| n <= g < v.flows.len() ==> #[trigger] v.scanned(now, n).flows[g] == v.flows[g],
        forall|g: int|
            0 <= g < n ==> #[trigger] v.scanned(now, n).flows[g] == v.flows[g] || v.scanned(now, n).flows[g] is None,
    decreases n,
{
    if n > 0 {
        lemma_scanned_keeps_sizes(v, now, n - 1);
    }
}

/// What is to be done about flows.
pub struct ScanResult {
    /// flows which have been removed, whose reception has to be stopped
    pub removed: Vec<RemovedFlow>,
    /// channels which lost their source, to be disconnected from their buffers
    pub orphaned: Vec<usize>,
    /// channels whose shown status has changed
    pub changed: Vec<usize>,
}

impl ChannelsSubscriber {
    /// Shows all channels connected to the flow with the status; returns those which have been
    /// shown with another one (all of them if `all`).
    fn show_channels(&mut self, f: usize, status: SubscriptionStatus, all: bool) -> (changed: Vec<usize>)
        requires
            old(self)@.wf(),
        ensures
            final(self)@ == (SubscriberView { infos: shown_with(old(self)@, f as int, status), ..old(self)@ }),
            final(self).channels == old(self).channels,
            final(self).flows == old(self).flows,
            changed@ == shown_otherwise(
                old(self)@,
                f as int,
                if all {
                    None
                } else {
                    Some(status)
                },
                old(self)@.channels.len() as int,
            ),
    {
        let ghost v0 = self@;
        let ghost compared: Option<SubscriptionStatus> = if all {
            None
        } else {
            Some(status)
        };
        let mut changed: Vec<usize> = Vec::new();
        let mut chi: usize = 0;
        while chi < self.channels.len()
            invariant
                v0 == old(self)@,
                v0.wf(),
                self.channels == old(self).channels,
                self.flows == old(self).flows,
                compared == (if all {
                    None
                } else {
                    Some(status)
                }),
                chi <= self.channels@.len(),
                self@.infos.len() == v0.infos.len(),
                self@ == (SubscriberView { infos: self@.infos, ..v0 }),
                forall|i: int|
                    0 <= i < chi ==> #[trigger] self@.infos[i] == shown_with(v0, f as int, status)[i],
                forall|i: int| chi <= i < v0.infos.len() ==> #[trigger] self@.infos[i] == v0.infos[i],
                changed@ == shown_otherwise(v0, f as int, compared, chi as int),
            decreases self.channels@.len() - chi,
        {
            let on_flow: bool = match &self.channels[chi] {
                Some(sub) => match sub.remote {
                    Some(remote) => remote.local_flow_index == f,
                    None => false,
                },
                None => false,
            };
            assert(on_flow == is_on_flow(v0.channels[chi as int], f as int));
            let ghost infos0 = self.subscriptions_info@;
            assert(infos_view(infos0)[chi as int] == v0.infos[chi as int]);
            if on_flow {
                match &mut self.subscriptions_info[chi] {
                    Some(info) => {
                        if all || info.status != status {
                            changed.push(chi);
                        }
                        info.status = status;
                    },
                    None => {},
                }
            }
            proof {
                let infos = self@.infos;
                assert forall|i: int| 0 <= i < infos.len() && i != chi implies infos[i] == infos_view(infos0)[i] by {}
            }
            chi = chi + 1;
        }
        assert(self@.infos =~= shown_with(v0, f as int, status));
        changed
    }

    /// Takes the source away from all channels connected to the flow; returns them.
    fn orphan_channels(&mut self, f: usize) -> (orphaned: Vec<usize>)
        ensures
            orphaned@ == channels_on_flow(old(self)@, f as int, old(self)@.channels.len() as int),
            final(self)@.channels == old(self)@.orphaned(f as int).channels,
            final(self).flows == old(self).flows,
            final(self).subscriptions_info == old(self).subscriptions_info,
            final(self).needs_resolving == (old(self).needs_resolving || orphaned@.len() > 0),
            final(self).resolve_now == (old(self).resolve_now || orphaned@.len() > 0),
    {
        let ghost v0 = self@;
        let mut orphaned: Vec<usize> = Vec::new();
        let mut chi: usize = 0;
        while chi < self.channels.len()
            invariant
                v0 == old(self)@,
                self.flows == old(self).flows,
                self.subscriptions_info == old(self).subscriptions_info,
                chi <= self.channels@.len(),
                self@.channels.len() == v0.channels.len(),
                forall|i: int|
                    0 <= i < chi ==> #[trigger] self@.channels[i] == v0.orphaned(f as int).channels[i],
                forall|i: int| chi <= i < v0.channels.len() ==> #[trigger] self@.channels[i] == v0.channels[i],
                orphaned@ == channels_on_flow(v0, f as int, chi as int),
                self.needs_resolving == (old(self).needs_resolving || orphaned@.len() > 0),
                self.resolve_now == (old(self).resolve_now || orphaned@.len() > 0),
            decreases self.channels@.len() - chi,
        {
            let ghost channels0 = self.channels@;
            assert(subscriptions_view(channels0)[chi as int] == v0.channels[chi as int]);
            let mut on_flow: bool = false;
            match &mut self.channels[chi] {
                Some(sub) => {
                    on_flow = match sub.remote {
                        Some(remote) => remote.local_flow_index == f,
                        None => false,
                    };
                    if on_flow {
                        sub.remote = None;
                    }
                },
                None => {},
            }
            assert(on_flow == is_on_flow(v0.channels[chi as int], f as int));
            if on_flow {
                self.needs_resolving = true;
                self.resolve_now = true;
                orphaned.push(chi);
            }
            proof {
                let now = self@.channels;
                assert forall|i: int| 0 <= i < now.len() && i != chi implies now[i] == subscriptions_view(channels0)[i] by {}
            }
            chi = chi + 1;
        }
        assert(self@.channels =~= v0.orphaned(f as int).channels);
        orphaned
    }

    /// Looks at one flow.
    fn scan_flow(&mut self, f: usize, now: usize, result: &mut ScanResult)
        requires
            old(self)@.wf(),
            f < old(self)@.flows.len(),
            old(self)@.flows[f as int] is Some && old(self)@.flows[f as int]->0.source is Unicast ==> is_granted(
                old(self)@.flows[f as int],
            ),
        ensures
            final(self)@.wf(),
            final(self)@ == old(self)@.scanned_flow(f as int, now),
            final(result).changed@ == old(result).changed@ + old(self)@.changed_by_flow(f as int, now),
            final(result).orphaned@ == old(result).orphaned@ + old(self)@.orphaned_by_flow(f as int, now),
            final(result).removed@ == if old(self)@.is_flow_removed(f as int, now) {
                old(result).removed@.push(removed_flow(old(self)@.flows[f as int]->0, f as int))
            } else {
                old(result).removed@
            },
    {
        let ghost v0 = self@;
        let min_last_packet_time: usize = now.saturating_sub(MAX_SILENCE_SECONDS);
        let min_flow_creation_time: usize = now.saturating_sub(MAX_START_SECONDS);
        let mut remove: bool = false;
        let mut unused: bool = false;
        let mut show_receiving: bool = false;
        let mut status: SubscriptionStatus = SubscriptionStatus::ReceivingUnicast;
        let mut stop: Option<StopRequest> = None;
        match &self.flows[f] {
            Some(flow) => {
                assert(v0.flows[f as int] == Some(flow@));
                if flow.is_used() {
                    if flow.last_packet_time < min_last_packet_time {
                        // but do this only if the flow is old enough
                        if flow.creation_time < min_flow_creation_time {
                            remove = true;
                        }
                    } else {
                        show_receiving = flow.needs_subscription_info_update;
                    }
                } else {
                    remove = true;
                    unused = true;
                }
                match &flow.source {
                    FlowSource::Unicast { control_remote_addr, dbcp1, handle } => {
                        match handle {
                            Some(handle) => {
                                stop = Some(
                                    StopRequest {
                                        addr: *control_remote_addr,
                                        dbcp1: *dbcp1,
                                        handle: *handle,
                                    },
                                );
                            },
                            None => {},
                        }
                    },
                    FlowSource::Multicast { .. } => {
                        status = SubscriptionStatus::ReceivingMulticast;
                    },
                }
            },
            None => {
                assert(v0.flows[f as int] is None);
                assert(result.changed@ + Seq::<usize>::empty() =~= result.changed@);
                assert(result.orphaned@ + Seq::<usize>::empty() =~= result.orphaned@);
                return;
            },
        }
        let ghost flow0 = v0.flows[f as int]->0;
        assert(remove && unused <==> fate(flow0, now) is Unused);
        assert(remove && !unused <==> fate(flow0, now) is TimedOut);
        assert(show_receiving <==> fate(flow0, now) is Receiving);
        if remove {
            if unused {
                self.flow_dropped(f);
                assert(result.changed@ + Seq::<usize>::empty() =~= result.changed@);
                assert(result.orphaned@ + Seq::<usize>::empty() =~= result.orphaned@);
            } else {
                let mut changed = self.show_channels(f, SubscriptionStatus::Unresolved, true);
                let ghost v1 = self@;
                proof {
                    lemma_orphaned_wf(v0, f as int);
                    lemma_same_channels_on_flow(v0, v1, f as int, v0.channels.len() as int);
                    assert(v1.orphaned(f as int).channels =~= v0.orphaned(f as int).channels);
                }
                let mut orphaned = self.orphan_channels(f);
                self.flows.set(f, None);
                assert(flows_view(self.flows@) =~= v0.orphaned(f as int).flows);
                result.changed.append(&mut changed);
                result.orphaned.append(&mut orphaned);
            }
            assert(stop == removed_flow(flow0, f as int).stop);
            result.removed.push(RemovedFlow { flow_index: f, stop });
        } else if show_receiving {
            let mut changed = self.show_channels(f, status, false);
            proof {
                lemma_infos_do_not_matter(v0, shown_with(v0, f as int, status));
                assert(result.orphaned@ + Seq::<usize>::empty() =~= result.orphaned@);
            }
            result.changed.append(&mut changed);
        } else {
            assert(result.changed@ + Seq::<usize>::empty() =~= result.changed@);
            assert(result.orphaned@ + Seq::<usize>::empty() =~= result.orphaned@);
        }
    }

    /// Looks at all flows at `now` seconds: removes those which are not in use or from which no
    /// packets come.
    pub fn scan_flows(&mut self, now: usize) -> (result: ScanResult)
        requires
            old(self)@.wf(),
            old(self)@.all_granted(),
        ensures
            final(self)@.wf(),
            final(self)@.all_granted(),
            final(self)@ == old(self)@.scanned(now, old(self)@.flows.len() as int),
            result.changed@ == old(self)@.changed_by_scan(now, old(self)@.flows.len() as int),
            result.orphaned@ == old(self)@.orphaned_by_scan(now, old(self)@.flows.len() as int),
            result.removed@ == old(self)@.removed_by_scan(now, old(self)@.flows.len() as int),
    {
        let ghost v0 = self@;
        let mut result = ScanResult { removed: Vec::new(), orphaned: Vec::new(), changed: Vec::new() };
        let n: usize = self.flows.len();
        let mut f: usize = 0;
        while f < n
            invariant
                v0 == old(self)@,
                v0.all_granted(),
                n == v0.flows.len(),
                f <= n,
                self@.wf(),
                self@ == v0.scanned(now, f as int),
                result.changed@ == v0.changed_by_scan(now, f as int),
                result.orphaned@ == v0.orphaned_by_scan(now, f as int),
                result.removed@ == v0.removed_by_scan(now, f as int),
            decreases n - f,
        {
            proof {
                lemma_scanned_keeps_sizes(v0, now, f as int);
                assert(self@.flows[f as int] == v0.flows[f as int]);
            }
            self.scan_flow(f, now, &mut result);
            f = f + 1;
        }
        proof {
            lemma_scanned_keeps_sizes(v0, now, n as int);
            assert forall|f: int|
                0 <= f < self@.flows.len() && #[trigger] self@.flows[f] is Some && self@.flows[f]->0.source is Unicast
                implies is_granted(self@.flows[f]) by {
                assert(self@.flows[f] == v0.flows[f]);
            }
        }
        result
    }
}

proof fn lemma_same_channels_on_flow(v: SubscriberView, w: SubscriberView, f: int, n: int)
    requires
        v.channels == w.channels,
    ensures
        channels_on_flow(v, f, n) == channels_on_flow(w, f, n),
    decreases n,
{
    if n > 0 {
        lemma_same_channels_on_flow(v, w, f, n - 1);
    }
}

// ---------------------------------------------------------------------------------------------
// Commands and saved state
// ---------------------------------------------------------------------------------------------

pub enum Command {
    Shutdown,
    Subscribe { local_channel_index: usize, tx_channel_name: String, tx_hostname: String },
    Unsubscribe { local_channel_index: usize },
    ForceRefresh,
}

/// The subscription of a channel as it is kept between runs.
pub struct SavedChannelState {
    pub local_channel_id: u16,
    pub local_channel_name: String,
    pub tx_channel_name: String,
    pub tx_hostname: String,
}

pub struct SavedChannelView {
    pub local_channel_id: u16,
    pub local_channel_name: Seq<char>,
    pub tx_channel_name: Seq<char>,
    pub tx_hostname: Seq<char>,
}

impl View for SavedChannelState {
    type V = SavedChannelView;

    open spec fn view(&self) -> SavedChannelView {
        SavedChannelView {
            local_channel_id: self.local_channel_id,
            local_channel_name: self.local_channel_name@,
            tx_channel_name: self.tx_channel_name@,
            tx_hostname: self.tx_hostname@,
        }
    }
}

pub open spec fn saved_view(saved: Seq<SavedChannelState>) -> Seq<SavedChannelView> {
    Seq::new(saved.len(), |i: int| saved[i]@)
}

/// What is kept of the first `n` channels.
pub open spec fn saved_channels(
    channels: Seq<Option<SubscriptionView>>,
    names: Seq<String>,
    n: int,
) -> Seq<SavedChannelView>
    decreases n,
{
    if n <= 0 {
        Seq::empty()
    } else {
        let before = saved_channels(channels, names, n - 1);
        match channels[n - 1] {
            Some(sub) => before.push(
                SavedChannelView {
                    local_channel_id: (n % 0x1_0000) as u16,
                    local_channel_name: names[n - 1]@,
                    tx_channel_name: sub.tx_channel_name,
                    tx_hostname: sub.tx_hostname,
                },
            ),
            None => before,
        }
    }
}

impl SubscriberView {
    /// After the first `n` kept subscriptions were restored.
    pub open spec fn restored(self, saved: Seq<SavedChannelView>, n: int) -> SubscriberView
        decreases n,
    {
        if n <= 0 {
            self
        } else {
            let before = self.restored(saved, n - 1);
            let i = saved[n - 1].local_channel_id - 1;
            if i < before.channels.len() {
                before.announced(i, saved[n - 1].tx_channel_name, saved[n - 1].tx_hostname).subscribed(
                    i,
                    saved[n - 1].tx_channel_name,
                    saved[n - 1].tx_hostname,
                )
            } else {
                before
            }
        }
    }

    /// The channels of which it is announced that they changed when the first `n` kept
    /// subscriptions are restored, in turn: those which are subscribed to something at that time.
    pub open spec fn announced_when_restored(self, saved: Seq<SavedChannelView>, n: int) -> Seq<usize>
        decreases n,
    {
        if n <= 0 {
            Seq::empty()
        } else {
            let before = self.restored(saved, n - 1);
            let announced = self.announced_when_restored(saved, n - 1);
            let i = saved[n - 1].local_channel_id - 1;
            if i < before.channels.len() && before.channels[i] is Some {
                announced.push(i as usize)
            } else {
                announced
            }
        }
    }

    /// Whether a command is about a channel which exists.
    pub open spec fn is_valid_command(self, command: Command) -> bool {
        match command {
            Command::Subscribe { local_channel_index, .. } => local_channel_index < self.channels.len(),
            Command::Unsubscribe { local_channel_index } => local_channel_index < self.channels.len(),
            _ => true,
        }
    }

    /// After a command was executed.
    pub open spec fn commanded(self, command: Command) -> SubscriberView {
        match command {
            Command::Subscribe { local_channel_index, tx_channel_name, tx_hostname } => self.subscribed(
                local_channel_index as int,
                tx_channel_name@,
                tx_hostname@,
            ),
            Command::Unsubscribe { local_channel_index } => self.unsubscribed(
                local_channel_index as int,
                true,
            ),
            _ => self,
        }
    }
}

/// Whether the message announces that a channel changed.
pub open spec fn announces_change(message: MulticastMessage, local_channel_index: usize) -> bool {
    &&& message.start_code == 0xffff
    &&& message.opcode@ == seq![0x07u8, 0x2a, 1, 2, 0, 0, 0, 0]
    &&& message.content@ == seq![0u8, 1, channels_mask(seq![local_channel_index]) as u8]
}

/// Seconds between two attempts to find the sources which could not be found.
pub const RESOLVE_INTERVAL_SECONDS: u64 = 9;

impl ChannelsSubscriber {
    /// Executes a command. Returns whether to go on, and what is to be announced.
    pub fn handle_command(&mut self, command: Command) -> (r: (bool, Option<MulticastMessage>))
        requires
            old(self)@.wf(),
            old(self)@.is_valid_command(command),
        ensures
            final(self)@.wf(),
            final(self)@ == old(self)@.commanded(command),
            r.0 == !(command is Shutdown),
            r.1 is Some <==> match command {
                Command::Subscribe { local_channel_index, .. } => old(self)@.channels[local_channel_index as int] is Some,
                Command::Unsubscribe { local_channel_index } => old(self)@.channels[local_channel_index as int] is Some,
                _ => false,
            },
            match command {
                Command::Subscribe { local_channel_index, .. } => r.1 is Some ==> r.1->0.content@ == seq![
                    0u8,
                    1,
                    channels_mask(seq![local_channel_index]) as u8,
                ],
                Command::Unsubscribe { local_channel_index } => r.1 is Some ==> r.1->0.content@ == seq![
                    0u8,
                    1,
                    channels_mask(seq![local_channel_index]) as u8,
                ],
                _ => true,
            },
            r.1 is Some ==> r.1->0.start_code == 0xffff && r.1->0.opcode@ == seq![
                0x07u8,
                0x2a,
                1,
                2,
                0,
                0,
                0,
                0,
            ],
    {
        match command {
            Command::Shutdown => (false, None),
            Command::Subscribe { local_channel_index, tx_channel_name, tx_hostname } => {
                let message = self.subscribe(
                    local_channel_index,
                    tx_channel_name.as_str(),
                    tx_hostname.as_str(),
                );
                (true, message)
            },
            Command::Unsubscribe { local_channel_index } => {
                let message = self.unsubscribe(local_channel_index, true);
                (true, message)
            },
            Command::ForceRefresh => (true, None),
        }
    }

    /// Whether sources have to be looked for, `elapsed_seconds` after this was done last.
    pub fn should_resolve(&self, elapsed_seconds: u64) -> (should: bool)
        ensures
            should == (self.needs_resolving && elapsed_seconds >= RESOLVE_INTERVAL_SECONDS
                || self.resolve_now),
    {
        (self.needs_resolving && elapsed_seconds >= RESOLVE_INTERVAL_SECONDS) || self.resolve_now
    }

    /// What is to be kept between runs.
    pub fn save_state(&self, channel_names: &Vec<String>) -> (saved: Vec<SavedChannelState>)
        requires
            channel_names@.len() >= self.channels@.len(),
        ensures
            saved_view(saved@) == saved_channels(
                self@.channels,
                channel_names@,
                self@.channels.len() as int,
            ),
    {
        let mut saved: Vec<SavedChannelState> = Vec::new();
        let mut i: usize = 0;
        assert(saved_view(saved@) =~= Seq::empty());
        while i < self.channels.len()
            invariant
                channel_names@.len() >= self.channels@.len(),
                i <= self.channels@.len(),
                saved_view(saved@) == saved_channels(self@.channels, channel_names@, i as int),
            decreases self.channels@.len() - i,
        {
            let ghost before = saved_view(saved@);
            match &self.channels[i] {
                Some(sub) => {
                    let entry = SavedChannelState {
                        local_channel_id: ((i % 0x1_0000 + 1) % 0x1_0000) as u16,
                        local_channel_name: channel_names[i].clone(),
                        tx_channel_name: sub.tx_channel_name.clone(),
                        tx_hostname: sub.tx_hostname.clone(),
                    };
                    let ghost view = entry@;
                    saved.push(entry);
                    assert(saved_view(saved@) =~= before.push(view));
                },
                None => {},
            }
            i = i + 1;
        }
        saved
    }

    /// Restores subscriptions; those of channels which no longer exist are lost. Returns what is to
    /// be announced.
    pub fn load_state(&mut self, saved: &Vec<SavedChannelState>) -> (messages: Vec<MulticastMessage>)
        requires
            old(self)@.wf(),
            forall|i: int| 0 <= i < saved@.len() ==> (#[trigger] saved@[i]).local_channel_id > 0,
        ensures
            final(self)@.wf(),
            final(self)@ == old(self)@.restored(saved_view(saved@), saved@.len() as int),
            messages@.len() == old(self)@.announced_when_restored(saved_view(saved@), saved@.len() as int).len(),
            forall|k: int|
                0 <= k < messages@.len() ==> announces_change(
                    #[trigger] messages@[k],
                    old(self)@.announced_when_restored(saved_view(saved@), saved@.len() as int)[k],
                ),
            (forall|i: int|
                0 <= i < old(self)@.channels.len() ==> #[trigger] old(self)@.channels[i] is None) && (
            forall|i: int, j: int|
                0 <= i < j < saved@.len() ==> (#[trigger] saved@[i]).local_channel_id != (
                #[trigger] saved@[j]).local_channel_id) ==> messages@.len() == 0,
    {
        let ghost v0 = self@;
        let ghost views = saved_view(saved@);
        let mut messages: Vec<MulticastMessage> = Vec::new();
        let mut i: usize = 0;
        let ghost fresh = (forall|i: int|
            0 <= i < v0.channels.len() ==> #[trigger] v0.channels[i] is None) && (forall|i: int, j: int|
            0 <= i < j < saved@.len() ==> (#[trigger] saved@[i]).local_channel_id != (#[trigger] saved@[j]).local_channel_id);
        while i < saved.len()
            invariant
                v0 == old(self)@,
                views == saved_view(saved@),
                forall|i: int| 0 <= i < saved@.len() ==> (#[trigger] saved@[i]).local_channel_id > 0,
                i <= saved@.len(),
                self@.wf(),
                self@.channels.len() == v0.channels.len(),
                self@ == v0.restored(views, i as int),
                fresh == ((forall|i: int|
                    0 <= i < v0.channels.len() ==> #[trigger] v0.channels[i] is None) && (forall|i: int, j: int|
                    0 <= i < j < saved@.len() ==> (#[trigger] saved@[i]).local_channel_id != (#[trigger] saved@[j]).local_channel_id)),
                messages@.len() == v0.announced_when_restored(views, i as int).len(),
                forall|k: int|
                    0 <= k < messages@.len() ==> announces_change(
                        #[trigger] messages@[k],
                        v0.announced_when_restored(views, i as int)[k],
                    ),
                fresh ==> messages@.len() == 0,
                fresh ==> forall|c: int|
                    0 <= c < v0.channels.len() && #[trigger] self@.channels[c] is Some ==> exists|k: int|
                        0 <= k < i && (#[trigger] saved@[k]).local_channel_id == c + 1,
            decreases saved@.len() - i,
        {
            let chst = &saved[i];
            let lci: usize = chst.local_channel_id as usize - 1;
            assert(views[i as int] == saved@[i as int]@);
            if lci < self.channels.len() {
                let ghost channels0 = self@.channels;
                self.announce(lci, chst.tx_channel_name.as_str(), chst.tx_hostname.as_str());
                match self.subscribe(lci, chst.tx_channel_name.as_str(), chst.tx_hostname.as_str()) {
                    Some(message) => {
                        proof {
                            if fresh {
                                assert(channels0[lci as int] is Some);
                                let k = choose|k: int| 0 <= k < i && (#[trigger] saved@[k]).local_channel_id == lci + 1;
                                assert(saved@[k].local_channel_id != saved@[i as int].local_channel_id);
                            }
                        }
                        messages.push(message);
                    },
                    None => {},
                }
                proof {
                    if fresh {
                        assert forall|c: int|
                            0 <= c < v0.channels.len() && #[trigger] self@.channels[c] is Some implies exists|k: int|
                                0 <= k < i + 1 && (#[trigger] saved@[k]).local_channel_id == c + 1 by {
                            if c == lci {
                                assert(saved@[i as int].local_channel_id == c + 1);
                            } else {
                                assert(channels0[c] is Some);
                                let k = choose|k: int| 0 <= k < i && (#[trigger] saved@[k]).local_channel_id == c + 1;
                                assert(saved@[k].local_channel_id == c + 1);
                            }
                        }
                    }
                }
            }
            i = i + 1;
        }
        messages
    }
}

/// A flow in use from which packets come is never removed, nor are its channels disconnected.
pub proof fn receiving_flow_is_kept(v: SubscriberView, f: int, now: usize)
    requires
        0 <= f < v.flows.len(),
        v.flows[f] is Some,
        v.flows[f]->0.is_used(),
        !is_silent(v.flows[f]->0, now),
    ensures
        v.scanned_flow(f, now).flows == v.flows,
        v.scanned_flow(f, now).channels == v.channels,
{
}

/// Looking at flows never changes what a channel is subscribed to.
pub proof fn subscriptions_survive_scan(v: SubscriberView, now: usize, n: int, i: int)
    requires
        0 <= n <= v.flows.len(),
        0 <= i < v.channels.len(),
    ensures
        ({
            let after = v.scanned(now, n).channels[i];
            &&& after is Some <==> v.channels[i] is Some
            &&& after is Some ==> after->0.tx_channel_name == v.channels[i]->0.tx_channel_name
                && after->0.tx_hostname == v.channels[i]->0.tx_hostname
        }),
    decreases n,
{
    if n > 0 {
        subscriptions_survive_scan(v, now, n - 1, i);
        lemma_scanned_keeps_sizes(v, now, n - 1);
    }
}

/// A channel which loses its source because packets do not come is looked for again at once.
pub proof fn orphaned_channel_is_resolved_again(v: SubscriberView, f: int, now: usize, i: int)
    requires
        0 <= f < v.flows.len(),
        v.flows[f] is Some,
        is_timed_out(v.flows[f]->0, now),
        0 <= i < v.channels.len(),
        is_on_flow(v.channels[i], f),
    ensures
        v.scanned_flow(f, now).resolve_now,
        v.scanned_flow(f, now).channels[i] is Some,
        v.scanned_flow(f, now).channels[i]->0.remote is None,
{
    lemma_some_channel_on_flow(v, f, i, v.channels.len() as int);
}

proof fn lemma_some_channel_on_flow(v: SubscriberView, f: int, i: int, n: int)
    requires
        0 <= i < n <= v.channels.len(),
        is_on_flow(v.channels[i], f),
    ensures
        channels_on_flow(v, f, n).len() > 0,
    decreases n,
{
    if i < n - 1 {
        lemma_some_channel_on_flow(v, f, i, n - 1);
    }
}

proof fn lemma_restored_prefix(v: SubscriberView, saved: Seq<SavedChannelView>, x: SavedChannelView, n: int)
    requires
        0 <= n <= saved.len(),
    ensures
        v.restored(saved.push(x), n) == v.restored(saved, n),
    decreases n,
{
    if n > 0 {
        lemma_restored_prefix(v, saved, x, n - 1);
    }
}

/// What a channel is subscribed to, without what it is connected to.
pub open spec fn unconnected(sub: Option<SubscriptionView>) -> Option<SubscriptionView> {
    match sub {
        Some(sub) => Some(SubscriptionView { remote: None, ..sub }),
        None => None,
    }
}

/// Subscriptions which were kept are the same after they have been restored: each of the first `n`
/// channels is subscribed to what it was subscribed to, and no other channel is subscribed.
pub proof fn saved_subscriptions_are_restored(
    channels: Seq<Option<SubscriptionView>>,
    names: Seq<String>,
    fresh: SubscriberView,
    n: int,
)
    requires
        fresh.channels.len() == channels.len(),
        fresh.infos.len() == channels.len(),
        forall|i: int| 0 <= i < fresh.channels.len() ==> #[trigger] fresh.channels[i] is None,
        0 <= n <= channels.len() < 0x1_0000,
    ensures
        ({
            let saved = saved_channels(channels, names, n);
            let r = fresh.restored(saved, saved.len() as int);
            &&& r.channels.len() == channels.len()
            &&& r.infos.len() == channels.len()
            &&& forall|i: int| 0 <= i < n ==> #[trigger] r.channels[i] == unconnected(channels[i])
            &&& forall|i: int| n <= i < channels.len() ==> #[trigger] r.channels[i] is None
        }),
    decreases n,
{
    if n > 0 {
        saved_subscriptions_are_restored(channels, names, fresh, n - 1);
        let saved = saved_channels(channels, names, n - 1);
        let before = fresh.restored(saved, saved.len() as int);
        match channels[n - 1] {
            Some(sub) => {
                let x = saved_channels(channels, names, n).last();
                assert(saved_channels(channels, names, n) =~= saved.push(x));
                lemma_restored_prefix(fresh, saved, x, saved.len() as int);
                assert(before.channels[n - 1] is None);
                let r = fresh.restored(saved.push(x), saved.len() as int + 1);
                assert(r == before.announced(n - 1, x.tx_channel_name, x.tx_hostname).subscribed(
                    n - 1,
                    x.tx_channel_name,
                    x.tx_hostname,
                ));
            },
            None => {},
        }
    }
}

} // verus!

//! Connects receive channels to remote transmitters.
//!
//! The worker of the subscriber alternates between network requests and decisions. Everything
//! here is a decision: it takes what the network has answered and says what to do next.

use crate::mdns_client::{AdvertisedBundle, AdvertisedChannel, SocketNumber};
use crate::text::{decimal, decimal_string, has_text, insert_sorted, is_sorted};
use vstd::prelude::*;
use vstd::string::StringExecFns;

verus! {

#[derive(Copy, Clone, Debug, PartialEq, Eq, Structural)]
pub enum SubscriptionStatus {
    Unresolved,
    InProgress,
    TooManyTxFlows,
    TxFail,
    ReceivingUnicast,
    ReceivingMulticast,
}

impl SubscriptionStatus {
    /// The number which stands for the status in packets.
    pub open spec fn spec_code(self) -> u32 {
        match self {
            SubscriptionStatus::Unresolved => 1,
            SubscriptionStatus::InProgress => 8,
            SubscriptionStatus::TooManyTxFlows => 0x14,
            SubscriptionStatus::TxFail => 0x15,
            SubscriptionStatus::ReceivingUnicast => 0x01010009,
            SubscriptionStatus::ReceivingMulticast => 0x0101000a,
        }
    }

    pub fn code(&self) -> (code: u32)
        ensures
            code == self.spec_code(),
    {
        match self {
            SubscriptionStatus::Unresolved => 1,
            SubscriptionStatus::InProgress => 8,
            SubscriptionStatus::TooManyTxFlows => 0x14,
            SubscriptionStatus::TxFail => 0x15,
            SubscriptionStatus::ReceivingUnicast => 0x01010009,
            SubscriptionStatus::ReceivingMulticast => 0x0101000a,
        }
    }

    pub fn is_receiving(&self) -> (receiving: bool)
        ensures
            receiving == (*self == SubscriptionStatus::ReceivingUnicast || *self
                == SubscriptionStatus::ReceivingMulticast),
    {
        *self == SubscriptionStatus::ReceivingUnicast || *self
            == SubscriptionStatus::ReceivingMulticast
    }
}

/// What is shown of the subscription of a channel.
#[derive(Clone, Debug)]
pub struct SubscriptionInfo {
    pub tx_channel_name: String,
    pub tx_hostname: String,
    pub status: SubscriptionStatus,
}

/// Which channel of which flow a local channel is connected to.
#[derive(Clone, Copy, Debug, PartialEq, Eq, Structural)]
pub struct ChannelOtherEnd {
    pub local_flow_index: usize,
    pub channel_in_flow: usize,
    pub tx_channel_id: u16,
}

/// What a local channel is to be connected to, and what it is connected to.
#[derive(Clone, Debug)]
pub struct ChannelSubscription {
    pub tx_channel_name: String,
    pub tx_hostname: String,
    pub remote: Option<ChannelOtherEnd>,
}

/// The local channel (and all its aliases) gets its samples from `remote`.
#[derive(Clone, Copy, Debug, PartialEq, Eq, Structural)]
pub struct ChannelSourceUpdate {
    pub local_channel_index: usize,
    pub remote: ChannelOtherEnd,
}

// ---------------------------------------------------------------------------------------------
// Which channels need a source
// ---------------------------------------------------------------------------------------------

/// Whether the channel is subscribed but not connected to anything.
pub open spec fn needs_source(channels: Seq<Option<ChannelSubscription>>, i: int) -> bool {
    0 <= i < channels.len() && channels[i] is Some && channels[i]->0.remote is None
}

/// Whether the two channels are subscribed to the same channel of the same transmitter.
pub open spec fn same_source(channels: Seq<Option<ChannelSubscription>>, i: int, j: int) -> bool {
    &&& channels[i] is Some
    &&& channels[j] is Some
    &&& channels[i]->0.tx_hostname@ == channels[j]->0.tx_hostname@
    &&& channels[i]->0.tx_channel_name@ == channels[j]->0.tx_channel_name@
}

/// Whether `head` is the channel which stands for channel `i` in requests: the first one among
/// those that need the same source.
pub open spec fn is_head_of(channels: Seq<Option<ChannelSubscription>>, head: int, i: int) -> bool {
    &&& 0 <= head <= i
    &&& needs_source(channels, head)
    &&& same_source(channels, head, i)
    &&& forall|k: int|
        0 <= k < head && #[trigger] needs_source(channels, k) ==> !same_source(channels, k, i)
}

/// Whether `heads` tells of each channel which channel stands for it, `None` if it does not need
/// a source.
pub open spec fn is_heads_of(
    heads: Seq<Option<usize>>,
    channels: Seq<Option<ChannelSubscription>>,
) -> bool {
    &&& heads.len() == channels.len()
    &&& forall|i: int|
        0 <= i < channels.len() ==> match #[trigger] heads[i] {
            Some(head) => needs_source(channels, i) && is_head_of(channels, head as int, i),
            None => !needs_source(channels, i),
        }
}

fn is_same_source(a: &ChannelSubscription, b: &ChannelSubscription) -> (same: bool)
    ensures
        same == (a.tx_hostname@ == b.tx_hostname@ && a.tx_channel_name@ == b.tx_channel_name@),
{
    a.tx_hostname == b.tx_hostname && a.tx_channel_name == b.tx_channel_name
}

/// Finds channels which need a source, and among them those connected to the same tx channels
/// (aliases).
pub fn find_needed_channels(channels: &Vec<Option<ChannelSubscription>>) -> (heads: Vec<Option<usize>>)
    ensures
        is_heads_of(heads@, channels@),
{
    let mut heads: Vec<Option<usize>> = Vec::new();
    let mut i: usize = 0;
    while i < channels.len()
        invariant
            i <= channels@.len(),
            heads@.len() == i,
            forall|k: int|
                0 <= k < i ==> match #[trigger] heads@[k] {
                    Some(head) => needs_source(channels@, k) && is_head_of(channels@, head as int, k),
                    None => !needs_source(channels@, k),
                },
        decreases channels@.len() - i,
    {
        match &channels[i] {
            Some(sub) => {
                if sub.remote.is_none() {
                    let mut head: usize = 0;
                    let mut found: bool = false;
                    while !found
                        invariant
                            i < channels@.len(),
                            head <= i,
                            heads@.len() == i,
                            channels@[i as int] == Some(*sub),
                            needs_source(channels@, i as int),
                            forall|k: int|
                                0 <= k < head && #[trigger] needs_source(channels@, k) ==> !same_source(
                                    channels@,
                                    k,
                                    i as int,
                                ),
                            found ==> is_head_of(channels@, head as int, i as int),
                        decreases i - head + (if found {
                            0int
                        } else {
                            1int
                        }),
                    {
                        match &channels[head] {
                            Some(other) => {
                                if other.remote.is_none() && is_same_source(other, sub) {
                                    found = true;
                                }
                            },
                            None => {},
                        }
                        if !found {
                            head = head + 1;
                        }
                    }
                    heads.push(Some(head));
                } else {
                    heads.push(None);
                }
            },
            None => {
                heads.push(None);
            },
        }
        i = i + 1;
    }
    heads
}

/// Whether channel `j` is connected to what channel `i` is subscribed to.
pub open spec fn is_connected_alike(channels: Seq<Option<ChannelSubscription>>, j: int, i: int) -> bool {
    &&& channels[j] is Some
    &&& channels[j]->0.remote is Some
    &&& same_source(channels, j, i)
}

/// The first channel from `j` on which is connected to what channel `i` is subscribed to; the
/// number of channels if there is none.
pub open spec fn first_connected_alike(
    channels: Seq<Option<ChannelSubscription>>,
    i: int,
    j: int,
) -> int
    decreases channels.len() - j,
{
    if j >= channels.len() || is_connected_alike(channels, j, i) {
        j
    } else {
        first_connected_alike(channels, i, j + 1)
    }
}

/// What the source of channel `i` is connected to already.
pub open spec fn known_source(channels: Seq<Option<ChannelSubscription>>, i: int) -> Option<ChannelOtherEnd> {
    let j = first_connected_alike(channels, i, 0);
    if j < channels.len() {
        channels[j]->0.remote
    } else {
        None
    }
}

/// The updates for those of the first `n` channels whose source is connected already.
pub open spec fn known_sources(
    channels: Seq<Option<ChannelSubscription>>,
    heads: Seq<Option<usize>>,
    n: int,
) -> Seq<ChannelSourceUpdate>
    decreases n,
{
    if n <= 0 {
        Seq::empty()
    } else {
        let before = known_sources(channels, heads, n - 1);
        if heads[n - 1] == Some((n - 1) as usize) && known_source(channels, n - 1) is Some {
            before.push(
                ChannelSourceUpdate {
                    local_channel_index: (n - 1) as usize,
                    remote: known_source(channels, n - 1)->0,
                },
            )
        } else {
            before
        }
    }
}

/// Those of the first `n` channels which have to be asked for.
pub open spec fn unknown_sources(
    channels: Seq<Option<ChannelSubscription>>,
    heads: Seq<Option<usize>>,
    n: int,
) -> Seq<usize>
    decreases n,
{
    if n <= 0 {
        Seq::empty()
    } else {
        let before = unknown_sources(channels, heads, n - 1);
        if heads[n - 1] == Some((n - 1) as usize) && known_source(channels, n - 1) is None {
            before.push((n - 1) as usize)
        } else {
            before
        }
    }
}

fn find_known_source(channels: &Vec<Option<ChannelSubscription>>, sub: &ChannelSubscription, Ghost(i): Ghost<int>) -> (source:
    Option<ChannelOtherEnd>)
    requires
        0 <= i < channels@.len(),
        channels@[i] == Some(*sub),
    ensures
        source == known_source(channels@, i),
{
    let mut j: usize = 0;
    while j < channels.len()
        invariant
            0 <= i < channels@.len(),
            channels@[i] == Some(*sub),
            j <= channels@.len(),
            first_connected_alike(channels@, i, 0) == first_connected_alike(channels@, i, j as int),
        decreases channels@.len() - j,
    {
        match &channels[j] {
            Some(other) => {
                if other.remote.is_some() && is_same_source(other, sub) {
                    assert(is_connected_alike(channels@, j as int, i));
                    return other.remote;
                }
            },
            None => {},
        }
        assert(!is_connected_alike(channels@, j as int, i));
        j = j + 1;
    }
    None
}

/// Finds channels we already have successfully subscribed and uses them (no requests needed);
/// the second result lists the channels which remain.
pub fn reuse_known_sources(channels: &Vec<Option<ChannelSubscription>>, heads: &Vec<Option<usize>>) -> (r: (
    Vec<ChannelSourceUpdate>,
    Vec<usize>,
))
    requires
        is_heads_of(heads@, channels@),
    ensures
        r.0@ == known_sources(channels@, heads@, channels@.len() as int),
        r.1@ == unknown_sources(channels@, heads@, channels@.len() as int),
{
    let mut resolved: Vec<ChannelSourceUpdate> = Vec::new();
    let mut remaining: Vec<usize> = Vec::new();
    let mut i: usize = 0;
    while i < channels.len()
        invariant
            is_heads_of(heads@, channels@),
            i <= channels@.len(),
            resolved@ == known_sources(channels@, heads@, i as int),
            remaining@ == unknown_sources(channels@, heads@, i as int),
        decreases channels@.len() - i,
    {
        let is_head: bool = match heads[i] {
            Some(head) => head == i,
            None => false,
        };
        if is_head {
            match &channels[i] {
                Some(sub) => {
                    match find_known_source(channels, sub, Ghost(i as int)) {
                        Some(remote) => {
                            resolved.push(ChannelSourceUpdate { local_channel_index: i, remote });
                        },
                        None => {
                            remaining.push(i);
                        },
                    }
                },
                None => {},
            }
        }
        i = i + 1;
    }
    (resolved, remaining)
}

// ---------------------------------------------------------------------------------------------
// What transmitters have answered
// ---------------------------------------------------------------------------------------------

/// A channel for which a flow has to be asked from the transmitter.
#[derive(Clone, Copy, Debug, PartialEq, Eq, Structural)]
pub struct WantedChannel {
    pub local_channel_index: usize,
    pub adv: AdvertisedChannel,
}

/// A channel which is available in a multicast flow.
#[derive(Clone, Debug)]
pub struct WantedBundleChannel {
    pub local_channel_index: usize,
    pub bundle_full_name: String,
    pub channel_in_bundle: usize,
    pub tx_channel_id: u16,
}

/// The name under which a multicast flow is advertised.
pub open spec fn bundle_name(bundle_id: nat, tx_hostname: Seq<char>) -> Seq<char> {
    decimal(bundle_id).push('@') + tx_hostname
}

pub fn make_bundle_name(bundle_id: usize, tx_hostname: &String) -> (name: String)
    ensures
        name@ == bundle_name(bundle_id as nat, tx_hostname@),
{
    let mut name = decimal_string(bundle_id as u64);
    proof {
        reveal_strlit("@");
    }
    name.append("@");
    name.append(tx_hostname.as_str());
    assert("@"@ =~= seq!['@']);
    assert(name@ =~= bundle_name(bundle_id as nat, tx_hostname@));
    name
}

/// An answer of a transmitter to the query for a channel; `None` if there was none.
pub struct ChannelAnswer {
    pub local_channel_index: usize,
    pub adv: Option<AdvertisedChannel>,
}

/// The channels to be asked for, out of the first `n` answers.
pub open spec fn wanted_channels(answers: Seq<ChannelAnswer>, n: int) -> Seq<WantedChannel>
    decreases n,
{
    if n <= 0 {
        Seq::empty()
    } else {
        let before = wanted_channels(answers, n - 1);
        let a = answers[n - 1];
        if a.adv is Some && a.adv->0.multicast is None {
            before.push(WantedChannel { local_channel_index: a.local_channel_index, adv: a.adv->0 })
        } else {
            before
        }
    }
}

/// Whether `wanted` lists those of the first `n` answers which tell of a multicast flow.
pub open spec fn is_wanted_in_multicast(
    wanted: Seq<WantedBundleChannel>,
    channels: Seq<Option<ChannelSubscription>>,
    answers: Seq<ChannelAnswer>,
    n: int,
) -> bool
    decreases n,
{
    if n <= 0 {
        wanted.len() == 0
    } else {
        let a = answers[n - 1];
        if a.adv is Some && a.adv->0.multicast is Some {
            &&& wanted.len() > 0
            &&& wanted.last().local_channel_index == a.local_channel_index
            &&& wanted.last().bundle_full_name@ == bundle_name(
                a.adv->0.multicast->0.bundle_id as nat,
                channels[a.local_channel_index as int]->0.tx_hostname@,
            )
            &&& wanted.last().channel_in_bundle == a.adv->0.multicast->0.channel_in_bundle
            &&& wanted.last().tx_channel_id == a.adv->0.tx_channel_id
            &&& is_wanted_in_multicast(wanted.drop_last(), channels, answers, n - 1)
        } else {
            is_wanted_in_multicast(wanted, channels, answers, n - 1)
        }
    }
}

/// Parts the channels which have to be asked for from those which are readily available in
/// multicast.
pub fn sort_answers(channels: &Vec<Option<ChannelSubscription>>, answers: &Vec<ChannelAnswer>) -> (r: (
    Vec<WantedChannel>,
    Vec<WantedBundleChannel>,
))
    requires
        forall|i: int|
            0 <= i < answers@.len() ==> (#[trigger] answers@[i]).local_channel_index < channels@.len()
                && channels@[answers@[i].local_channel_index as int] is Some,
    ensures
        r.0@ == wanted_channels(answers@, answers@.len() as int),
        is_wanted_in_multicast(r.1@, channels@, answers@, answers@.len() as int),
{
    let mut unicast: Vec<WantedChannel> = Vec::new();
    let mut multicast: Vec<WantedBundleChannel> = Vec::new();
    let mut i: usize = 0;
    while i < answers.len()
        invariant
            forall|i: int|
                0 <= i < answers@.len() ==> (#[trigger] answers@[i]).local_channel_index < channels@.len()
                    && channels@[answers@[i].local_channel_index as int] is Some,
            i <= answers@.len(),
            unicast@ == wanted_channels(answers@, i as int),
            is_wanted_in_multicast(multicast@, channels@, answers@, i as int),
        decreases answers@.len() - i,
    {
        let a = &answers[i];
        let lci: usize = a.local_channel_index;
        match a.adv {
            Some(adv) => {
                match adv.multicast {
                    None => {
                        unicast.push(WantedChannel { local_channel_index: lci, adv });
                    },
                    Some(pointer) => {
                        let ghost before = multicast@;
                        match &channels[lci] {
                            Some(sub) => {
                                let bundle_full_name = make_bundle_name(
                                    pointer.bundle_id,
                                    &sub.tx_hostname,
                                );
                                multicast.push(
                                    WantedBundleChannel {
                                        local_channel_index: lci,
                                        bundle_full_name,
                                        channel_in_bundle: pointer.channel_in_bundle,
                                        tx_channel_id: adv.tx_channel_id,
                                    },
                                );
                                assert(multicast@.drop_last() =~= before);
                            },
                            None => {},
                        }
                    },
                }
            },
            None => {},
        }
        i = i + 1;
    }
    (unicast, multicast)
}

/// Whether all that a transmitter has answered agrees in what has to be the same for all channels
/// of a flow.
pub open spec fn is_consistent_server(wanted: Seq<WantedChannel>, addr: SocketNumber) -> bool {
    forall|i: int, j: int|
        #![trigger wanted[i], wanted[j]]
        0 <= i < wanted.len() && 0 <= j < wanted.len() && wanted[i].adv.addr == addr && wanted[j].adv.addr
            == addr ==> agree(wanted[i].adv, wanted[j].adv)
}

pub open spec fn agree(a: AdvertisedChannel, b: AdvertisedChannel) -> bool {
    &&& a.tx_channels_per_flow == b.tx_channels_per_flow
    &&& a.bits_per_sample == b.bits_per_sample
    &&& a.dbcp1 == b.dbcp1
}

/// Those of the first `n` channels whose transmitters have answered consistently.
pub open spec fn from_consistent_servers(wanted: Seq<WantedChannel>, n: int) -> Seq<WantedChannel>
    decreases n,
{
    if n <= 0 {
        Seq::empty()
    } else if is_consistent_server(wanted, wanted[n - 1].adv.addr) {
        from_consistent_servers(wanted, n - 1).push(wanted[n - 1])
    } else {
        from_consistent_servers(wanted, n - 1)
    }
}

/// Drops the channels of transmitters which have different values of nchan, bits per sample or
/// dbcp1. This is unsupported.
pub fn drop_bad_servers(wanted: &Vec<WantedChannel>) -> (good: Vec<WantedChannel>)
    ensures
        good@ == from_consistent_servers(wanted@, wanted@.len() as int),
{
    let mut good: Vec<WantedChannel> = Vec::new();
    let mut i: usize = 0;
    while i < wanted.len()
        invariant
            i <= wanted@.len(),
            good@ == from_consistent_servers(wanted@, i as int),
        decreases wanted@.len() - i,
    {
        let w: WantedChannel = wanted[i];
        let mut consistent: bool = true;
        let mut j: usize = 0;
        while j < wanted.len()
            invariant
                i < wanted@.len(),
                w == wanted@[i as int],
                j <= wanted@.len(),
                consistent == forall|k: int|
                    0 <= k < j && (#[trigger] wanted@[k]).adv.addr == w.adv.addr ==> agree(
                        wanted@[k].adv,
                        w.adv,
                    ),
            decreases wanted@.len() - j,
        {
            let other: WantedChannel = wanted[j];
            let agrees: bool = other.adv.tx_channels_per_flow == w.adv.tx_channels_per_flow
                && other.adv.bits_per_sample == w.adv.bits_per_sample && other.adv.dbcp1 == w.adv.dbcp1;
            assert(agrees == agree(wanted@[j as int].adv, w.adv));
            if other.adv.addr == w.adv.addr && !agrees {
                consistent = false;
            }
            j = j + 1;
        }
        proof {
            if consistent {
                assert(is_consistent_server(wanted@, w.adv.addr));
            } else {
                let k = choose|k: int|
                    0 <= k < wanted@.len() && (#[trigger] wanted@[k]).adv.addr == w.adv.addr && !agree(
                        wanted@[k].adv,
                        w.adv,
                    );
                assert(!agree(wanted@[k].adv, wanted@[i as int].adv));
                assert(!is_consistent_server(wanted@, w.adv.addr));
            }
        }
        if consistent {
            good.push(w);
        }
        i = i + 1;
    }
    good
}

/// Whether a channel of the multicast flow is wanted.
pub open spec fn is_bundle_wanted(wanted: Seq<WantedBundleChannel>, name: Seq<char>) -> bool {
    exists|i: int| 0 <= i < wanted.len() && (#[trigger] wanted[i]).bundle_full_name@ == name
}

/// The names of the multicast flows which have to be looked up, in order.
pub fn bundle_names(wanted: &Vec<WantedBundleChannel>) -> (names: Vec<String>)
    ensures
        is_sorted(names@),
        forall|name: Seq<char>| #[trigger] has_text(names@, name) <==> is_bundle_wanted(wanted@, name),
{
    let mut names: Vec<String> = Vec::new();
    let mut i: usize = 0;
    while i < wanted.len()
        invariant
            i <= wanted@.len(),
            is_sorted(names@),
            forall|name: Seq<char>| #[trigger]
                has_text(names@, name) <==> is_bundle_wanted(wanted@.take(i as int), name),
        decreases wanted@.len() - i,
    {
        insert_sorted(&mut names, &wanted[i].bundle_full_name);
        proof {
            let before = wanted@.take(i as int);
            let after = wanted@.take(i as int + 1);
            assert forall|name: Seq<char>| is_bundle_wanted(after, name) <==> is_bundle_wanted(before, name)
                || name == wanted@[i as int].bundle_full_name@ by {
                if is_bundle_wanted(before, name) {
                    let k = choose|k: int| 0 <= k < before.len() && (#[trigger] before[k]).bundle_full_name@ == name;
                    assert(after[k] == before[k]);
                }
                if name == wanted@[i as int].bundle_full_name@ {
                    assert(after[i as int].bundle_full_name@ == name);
                }
                if is_bundle_wanted(after, name) {
                    let k = choose|k: int| 0 <= k < after.len() && (#[trigger] after[k]).bundle_full_name@ == name;
                    if k < i {
                        assert(before[k] == after[k]);
                    }
                }
            }
        }
        i = i + 1;
    }
    assert(wanted@.take(i as int) =~= wanted@);
    names
}

// ---------------------------------------------------------------------------------------------
// Flows
// ---------------------------------------------------------------------------------------------

/// What the transmitter knows a flow by.
pub type FlowHandle = [u8; 6];

pub enum FlowSource {
    Unicast { control_remote_addr: SocketNumber, dbcp1: u16, handle: Option<FlowHandle> },
    Multicast { bundle_full_name: String },
}

/// A stream of packets which carries several channels.
pub struct Flow {
    pub local_id: usize,
    pub source: FlowSource,
    /// how many local channels use the channel of the flow
    pub channels_refcount: Vec<isize>,
    /// whether there is a ring buffer into which the channel of the flow is received
    pub channels_rb_outputs: Vec<bool>,
    pub tx_channels: Vec<Option<u16>>,
    pub latency_samples: usize,
    pub last_packet_time: usize,
    pub needs_subscription_info_update: bool,
    pub creation_time: usize,
}

pub enum FlowSourceView {
    Unicast { control_remote_addr: SocketNumber, dbcp1: u16, handle: Option<FlowHandle> },
    Multicast { bundle_full_name: Seq<char> },
}

pub struct FlowView {
    pub local_id: usize,
    pub source: FlowSourceView,
    pub channels_refcount: Seq<isize>,
    pub channels_rb_outputs: Seq<bool>,
    pub tx_channels: Seq<Option<u16>>,
    pub latency_samples: usize,
    pub last_packet_time: usize,
    pub needs_subscription_info_update: bool,
    pub creation_time: usize,
}

impl View for FlowSource {
    type V = FlowSourceView;

    open spec fn view(&self) -> FlowSourceView {
        match self {
            FlowSource::Unicast { control_remote_addr, dbcp1, handle } => FlowSourceView::Unicast {
                control_remote_addr: *control_remote_addr,
                dbcp1: *dbcp1,
                handle: *handle,
            },
            FlowSource::Multicast { bundle_full_name } => FlowSourceView::Multicast {
                bundle_full_name: bundle_full_name@,
            },
        }
    }
}

impl View for Flow {
    type V = FlowView;

    open spec fn view(&self) -> FlowView {
        FlowView {
            local_id: self.local_id,
            source: self.source@,
            channels_refcount: self.channels_refcount@,
            channels_rb_outputs: self.channels_rb_outputs@,
            tx_channels: self.tx_channels@,
            latency_samples: self.latency_samples,
            last_packet_time: self.last_packet_time,
            needs_subscription_info_update: self.needs_subscription_info_update,
            creation_time: self.creation_time,
        }
    }
}

/// The contents of the table of flows.
pub open spec fn flows_view(flows: Seq<Option<Flow>>) -> Seq<Option<FlowView>> {
    Seq::new(
        flows.len(),
        |i: int|
            match flows[i] {
                Some(flow) => Some(flow@),
                None => None,
            },
    )
}

/// A flow with no channel in use.
pub open spec fn new_flow(
    local_id: usize,
    source: FlowSourceView,
    total_channels: int,
    tx_channels: Seq<u16>,
    latency_samples: usize,
    now: usize,
) -> FlowView {
    FlowView {
        local_id,
        source,
        channels_refcount: Seq::new(total_channels as nat, |i: int| 0isize),
        channels_rb_outputs: Seq::new(total_channels as nat, |i: int| false),
        tx_channels: Seq::new(
            total_channels as nat,
            |i: int|
                if i < tx_channels.len() {
                    Some(tx_channels[i])
                } else {
                    None
                },
        ),
        latency_samples,
        last_packet_time: 0,
        needs_subscription_info_update: true,
        creation_time: now,
    }
}

impl FlowView {
    /// Whether any local channel uses the flow.
    pub open spec fn is_used(self) -> bool {
        exists|i: int| 0 <= i < self.channels_refcount.len() && #[trigger] self.channels_refcount[i] > 0
    }

    /// Whether the lists of channels have the same length.
    pub open spec fn wf(self) -> bool {
        &&& self.channels_refcount.len() == self.tx_channels.len()
        &&& self.channels_rb_outputs.len() == self.tx_channels.len()
    }
}

impl Flow {
    pub fn new(
        local_id: usize,
        source: FlowSource,
        total_channels: usize,
        tx_channels: &[u16],
        latency_samples: usize,
        now: usize,
    ) -> (flow: Self)
        ensures
            flow@ == new_flow(
                local_id,
                source@,
                total_channels as int,
                tx_channels@,
                latency_samples,
                now,
            ),
            flow@.wf(),
    {
        let mut chs: Vec<isize> = Vec::new();
        let mut outputs: Vec<bool> = Vec::new();
        let mut txs: Vec<Option<u16>> = Vec::new();
        let mut i: usize = 0;
        while i < total_channels
            invariant
                i <= total_channels,
                chs@ == Seq::new(i as nat, |i: int| 0isize),
                outputs@ == Seq::new(i as nat, |i: int| false),
                txs@ == Seq::new(
                    i as nat,
                    |i: int|
                        if i < tx_channels@.len() {
                            Some(tx_channels@[i])
                        } else {
                            None
                        },
                ),
            decreases total_channels - i,
        {
            chs.push(0);
            outputs.push(false);
            let tx: Option<u16> = if i < tx_channels.len() {
                Some(tx_channels[i])
            } else {
                None
            };
            txs.push(tx);
            i = i + 1;
        }
        Self {
            local_id,
            source,
            channels_refcount: chs,
            channels_rb_outputs: outputs,
            tx_channels: txs,
            latency_samples,
            last_packet_time: 0,
            needs_subscription_info_update: true,
            creation_time: now,
        }
    }

    pub fn is_used(&self) -> (used: bool)
        ensures
            used == self@.is_used(),
    {
        let mut i: usize = 0;
        while i < self.channels_refcount.len()
            invariant
                i <= self.channels_refcount@.len(),
                forall|k: int| 0 <= k < i ==> #[trigger] self.channels_refcount@[k] <= 0,
            decreases self.channels_refcount@.len() - i,
        {
            if self.channels_refcount[i] > 0 {
                assert(self@.channels_refcount[i as int] > 0);
                return true;
            }
            i = i + 1;
        }
        false
    }
}

// ---------------------------------------------------------------------------------------------
// Flows which exist already
// ---------------------------------------------------------------------------------------------

/// The first place where the transmitter's channel is in the list; the length of the list if it is
/// not there.
pub open spec fn position_of(tx_channels: Seq<Option<u16>>, id: u16, from: int) -> int
    decreases tx_channels.len() - from,
{
    if from >= tx_channels.len() || tx_channels[from] == Some(id) {
        from
    } else {
        position_of(tx_channels, id, from + 1)
    }
}

/// Whether the flow carries the wanted channel.
pub open spec fn carries(flow: FlowView, w: WantedChannel) -> bool {
    &&& flow.source matches FlowSourceView::Unicast { control_remote_addr, .. }
    &&& control_remote_addr == w.adv.addr
    &&& position_of(flow.tx_channels, w.adv.tx_channel_id, 0) < flow.tx_channels.len()
}

/// The updates for those of the wanted channels which the flow carries.
pub open spec fn carried_updates(flow: FlowView, flow_index: int, wanted: Seq<WantedChannel>) -> Seq<
    ChannelSourceUpdate,
>
    decreases wanted.len(),
{
    if wanted.len() == 0 {
        Seq::empty()
    } else {
        let before = carried_updates(flow, flow_index, wanted.drop_last());
        let w = wanted.last();
        if carries(flow, w) {
            before.push(
                ChannelSourceUpdate {
                    local_channel_index: w.local_channel_index,
                    remote: ChannelOtherEnd {
                        local_flow_index: flow_index as usize,
                        channel_in_flow: position_of(flow.tx_channels, w.adv.tx_channel_id, 0) as usize,
                        tx_channel_id: w.adv.tx_channel_id,
                    },
                },
            )
        } else {
            before
        }
    }
}

/// The wanted channels which the flow does not carry.
pub open spec fn not_carried(flow: FlowView, wanted: Seq<WantedChannel>) -> Seq<WantedChannel>
    decreases wanted.len(),
{
    if wanted.len() == 0 {
        Seq::empty()
    } else {
        let before = not_carried(flow, wanted.drop_last());
        if carries(flow, wanted.last()) {
            before
        } else {
            before.push(wanted.last())
        }
    }
}

/// A channel of a flow which can be used for another channel of the transmitter.
#[derive(Clone, Copy, Debug, PartialEq, Eq, Structural)]
pub struct FreeSlot {
    pub addr: SocketNumber,
    pub flow_index: usize,
    pub channel_in_flow: usize,
}

/// Whether one of the updates connects to the channel of the flow.
pub open spec fn is_slot_taken(updates: Seq<ChannelSourceUpdate>, channel_in_flow: int) -> bool {
    exists|i: int|
        0 <= i < updates.len() && (#[trigger] updates[i]).remote.channel_in_flow == channel_in_flow
}

/// Those of the first `n` channels of the flow which are not used and will not be because of the updates.
pub open spec fn free_slots(
    flow: FlowView,
    addr: SocketNumber,
    flow_index: int,
    updates: Seq<ChannelSourceUpdate>,
    n: int,
) -> Seq<FreeSlot>
    decreases n,
{
    if n <= 0 {
        Seq::empty()
    } else {
        let before = free_slots(flow, addr, flow_index, updates, n - 1);
        if flow.channels_refcount[n - 1] <= 0 && !is_slot_taken(updates, n - 1) {
            before.push(
                FreeSlot {
                    addr,
                    flow_index: flow_index as usize,
                    channel_in_flow: (n - 1) as usize,
                },
            )
        } else {
            before
        }
    }
}

/// The updates for those of the wanted channels which are in the multicast flow.
pub open spec fn bundle_updates(
    name: Seq<char>,
    flow_index: int,
    wanted: Seq<WantedBundleChannel>,
) -> Seq<ChannelSourceUpdate>
    decreases wanted.len(),
{
    if wanted.len() == 0 {
        Seq::empty()
    } else {
        let before = bundle_updates(name, flow_index, wanted.drop_last());
        let w = wanted.last();
        if w.bundle_full_name@ == name {
            before.push(
                ChannelSourceUpdate {
                    local_channel_index: w.local_channel_index,
                    remote: ChannelOtherEnd {
                        local_flow_index: flow_index as usize,
                        channel_in_flow: w.channel_in_bundle,
                        tx_channel_id: w.tx_channel_id,
                    },
                },
            )
        } else {
            before
        }
    }
}

/// What is found in flows which exist already.
pub struct ExistingSources {
    pub resolved: Seq<ChannelSourceUpdate>,
    pub remaining: Seq<WantedChannel>,
    pub free: Seq<FreeSlot>,
}

/// What is found in the first `n` flows.
pub open spec fn existing_sources(
    flows: Seq<Option<FlowView>>,
    wanted: Seq<WantedChannel>,
    in_multicast: Seq<WantedBundleChannel>,
    n: int,
) -> ExistingSources
    decreases n,
{
    if n <= 0 {
        ExistingSources { resolved: Seq::empty(), remaining: wanted, free: Seq::empty() }
    } else {
        let before = existing_sources(flows, wanted, in_multicast, n - 1);
        match flows[n - 1] {
            None => before,
            Some(flow) => match flow.source {
                FlowSourceView::Unicast { control_remote_addr, .. } => {
                    let updates = carried_updates(flow, n - 1, before.remaining);
                    ExistingSources {
                        resolved: before.resolved + updates,
                        remaining: not_carried(flow, before.remaining),
                        free: before.free + free_slots(
                            flow,
                            control_remote_addr,
                            n - 1,
                            updates,
                            flow.channels_refcount.len() as int,
                        ),
                    }
                },
                FlowSourceView::Multicast { bundle_full_name } => ExistingSources {
                    resolved: before.resolved + bundle_updates(
                        bundle_full_name,
                        n - 1,
                        in_multicast,
                    ),
                    ..before
                },
            },
        }
    }
}

fn find_position(tx_channels: &Vec<Option<u16>>, id: u16) -> (position: usize)
    ensures
        position == position_of(tx_channels@, id, 0),
        position <= tx_channels@.len(),
{
    let mut i: usize = 0;
    while i < tx_channels.len()
        invariant
            i <= tx_channels@.len(),
            position_of(tx_channels@, id, 0) == position_of(tx_channels@, id, i as int),
        decreases tx_channels@.len() - i,
    {
        match tx_channels[i] {
            Some(tx) => {
                if tx == id {
                    return i;
                }
            },
            None => {},
        }
        i = i + 1;
    }
    i
}

/// Finds which of the wanted channels a unicast flow carries; the second result lists the others.
fn find_in_flow(flow: &Flow, addr: SocketNumber, flow_index: usize, wanted: &Vec<WantedChannel>) -> (r: (
    Vec<ChannelSourceUpdate>,
    Vec<WantedChannel>,
))
    requires
        flow@.source matches FlowSourceView::Unicast { control_remote_addr, .. } && control_remote_addr == addr,
    ensures
        r.0@ == carried_updates(flow@, flow_index as int, wanted@),
        r.1@ == not_carried(flow@, wanted@),
{
    let mut updates: Vec<ChannelSourceUpdate> = Vec::new();
    let mut others: Vec<WantedChannel> = Vec::new();
    let mut i: usize = 0;
    while i < wanted.len()
        invariant
            flow@.source matches FlowSourceView::Unicast { control_remote_addr, .. } && control_remote_addr == addr,
            i <= wanted@.len(),
            updates@ == carried_updates(flow@, flow_index as int, wanted@.take(i as int)),
            others@ == not_carried(flow@, wanted@.take(i as int)),
        decreases wanted@.len() - i,
    {
        let w: WantedChannel = wanted[i];
        let position: usize = find_position(&flow.tx_channels, w.adv.tx_channel_id);
        if w.adv.addr == addr && position < flow.tx_channels.len() {
            updates.push(
                ChannelSourceUpdate {
                    local_channel_index: w.local_channel_index,
                    remote: ChannelOtherEnd {
                        local_flow_index: flow_index,
                        channel_in_flow: position,
                        tx_channel_id: w.adv.tx_channel_id,
                    },
                },
            );
        } else {
            others.push(w);
        }
        assert(wanted@.take(i as int + 1).drop_last() =~= wanted@.take(i as int));
        i = i + 1;
    }
    assert(wanted@.take(i as int) =~= wanted@);
    (updates, others)
}

fn slot_is_taken(updates: &Vec<ChannelSourceUpdate>, channel_in_flow: usize) -> (taken: bool)
    ensures
        taken == is_slot_taken(updates@, channel_in_flow as int),
{
    let mut i: usize = 0;
    while i < updates.len()
        invariant
            i <= updates@.len(),
            forall|k: int| 0 <= k < i ==> (#[trigger] updates@[k]).remote.channel_in_flow != channel_in_flow,
        decreases updates@.len() - i,
    {
        if updates[i].remote.channel_in_flow == channel_in_flow {
            return true;
        }
        i = i + 1;
    }
    false
}

fn find_free_slots(
    flow: &Flow,
    addr: SocketNumber,
    flow_index: usize,
    updates: &Vec<ChannelSourceUpdate>,
) -> (free: Vec<FreeSlot>)
    ensures
        free@ == free_slots(
            flow@,
            addr,
            flow_index as int,
            updates@,
            flow@.channels_refcount.len() as int,
        ),
{
    let mut free: Vec<FreeSlot> = Vec::new();
    let mut i: usize = 0;
    while i < flow.channels_refcount.len()
        invariant
            i <= flow.channels_refcount@.len(),
            free@ == free_slots(flow@, addr, flow_index as int, updates@, i as int),
        decreases flow.channels_refcount@.len() - i,
    {
        if flow.channels_refcount[i] <= 0 && !slot_is_taken(updates, i) {
            free.push(FreeSlot { addr, flow_index, channel_in_flow: i });
        }
        i = i + 1;
    }
    free
}

/// The updates for those of the wanted channels which are in the multicast flow.
pub fn find_in_bundle(name: &String, flow_index: usize, wanted: &Vec<WantedBundleChannel>) -> (updates: Vec<
    ChannelSourceUpdate,
>)
    ensures
        updates@ == bundle_updates(name@, flow_index as int, wanted@),
{
    let mut updates: Vec<ChannelSourceUpdate> = Vec::new();
    let mut i: usize = 0;
    while i < wanted.len()
        invariant
            i <= wanted@.len(),
            updates@ == bundle_updates(name@, flow_index as int, wanted@.take(i as int)),
        decreases wanted@.len() - i,
    {
        let w = &wanted[i];
        if w.bundle_full_name == *name {
            updates.push(
                ChannelSourceUpdate {
                    local_channel_index: w.local_channel_index,
                    remote: ChannelOtherEnd {
                        local_flow_index: flow_index,
                        channel_in_flow: w.channel_in_bundle,
                        tx_channel_id: w.tx_channel_id,
                    },
                },
            );
        }
        assert(wanted@.take(i as int + 1).drop_last() =~= wanted@.take(i as int));
        i = i + 1;
    }
    assert(wanted@.take(i as int) =~= wanted@);
    updates
}

/// Finds if we already have needed tx channels in any flows (no requests needed), which channels
/// remain and which channels of the flows are free.
/// (this is needed because user may have disconnected a channel
///  but audio is still flowing in a flow serving different channel(s))
pub fn use_existing_flows(
    flows: &Vec<Option<Flow>>,
    wanted: Vec<WantedChannel>,
    in_multicast: &Vec<WantedBundleChannel>,
) -> (r: (Vec<ChannelSourceUpdate>, Vec<WantedChannel>, Vec<FreeSlot>))
    ensures
        ({
            let found = existing_sources(
                flows_view(flows@),
                wanted@,
                in_multicast@,
                flows@.len() as int,
            );
            &&& r.0@ == found.resolved
            &&& r.1@ == found.remaining
            &&& r.2@ == found.free
        }),
{
    let ghost wanted0 = wanted@;
    let mut resolved: Vec<ChannelSourceUpdate> = Vec::new();
    let mut remaining: Vec<WantedChannel> = wanted;
    let mut free: Vec<FreeSlot> = Vec::new();
    let mut i: usize = 0;
    while i < flows.len()
        invariant
            i <= flows@.len(),
            ({
                let found = existing_sources(flows_view(flows@), wanted0, in_multicast@, i as int);
                &&& resolved@ == found.resolved
                &&& remaining@ == found.remaining
                &&& free@ == found.free
            }),
        decreases flows@.len() - i,
    {
        match &flows[i] {
            Some(flow) => {
                assert(flows_view(flows@)[i as int] == Some(flow@));
                match &flow.source {
                    FlowSource::Unicast { control_remote_addr, .. } => {
                        let (mut updates, others) = find_in_flow(flow, *control_remote_addr, i, &remaining);
                        let mut slots = find_free_slots(flow, *control_remote_addr, i, &updates);
                        resolved.append(&mut updates);
                        free.append(&mut slots);
                        remaining = others;
                    },
                    FlowSource::Multicast { bundle_full_name } => {
                        let mut updates = find_in_bundle(bundle_full_name, i, in_multicast);
                        resolved.append(&mut updates);
                    },
                }
            },
            None => {
                assert(flows_view(flows@)[i as int] is None);
            },
        }
        i = i + 1;
    }
    (resolved, remaining, free)
}

/// Whether a multicast flow is received already.
pub open spec fn is_bundle_received(flows: Seq<Option<FlowView>>, name: Seq<char>) -> bool {
    exists|i: int|
        0 <= i < flows.len() && #[trigger] flows[i] is Some && flows[i]->0.source
            == (FlowSourceView::Multicast { bundle_full_name: name })
}

pub fn bundle_is_received(flows: &Vec<Option<Flow>>, name: &String) -> (received: bool)
    ensures
        received == is_bundle_received(flows_view(flows@), name@),
{
    let ghost views = flows_view(flows@);
    let mut i: usize = 0;
    while i < flows.len()
        invariant
            views == flows_view(flows@),
            i <= flows@.len(),
            forall|k: int|
                0 <= k < i ==> !(#[trigger] views[k] is Some && views[k]->0.source
                    == (FlowSourceView::Multicast { bundle_full_name: name@ })),
        decreases flows@.len() - i,
    {
        match &flows[i] {
            Some(flow) => {
                assert(views[i as int] == Some(flow@));
                match &flow.source {
                    FlowSource::Multicast { bundle_full_name } => {
                        if *bundle_full_name == *name {
                            return true;
                        }
                    },
                    _ => {},
                }
            },
            None => {},
        }
        i = i + 1;
    }
    false
}

// ---------------------------------------------------------------------------------------------
// Free channels of flows
// ---------------------------------------------------------------------------------------------

/// How many of the first `n` wanted channels are offered at `addr`.
pub open spec fn count_at(wanted: Seq<WantedChannel>, addr: SocketNumber, n: int) -> int
    decreases n,
{
    if n <= 0 {
        0
    } else {
        count_at(wanted, addr, n - 1) + if wanted[n - 1].adv.addr == addr {
            1int
        } else {
            0int
        }
    }
}

/// The index of the free slot, among those from `from` on, which has `rank` free slots of the
/// same transmitter before it; the number of free slots if there is none.
pub open spec fn nth_slot(free: Seq<FreeSlot>, addr: SocketNumber, rank: int, from: int) -> int
    decreases free.len() - from,
{
    if from >= free.len() {
        from
    } else if free[from].addr != addr {
        nth_slot(free, addr, rank, from + 1)
    } else if rank <= 0 {
        from
    } else {
        nth_slot(free, addr, rank - 1, from + 1)
    }
}

/// The free slot that the wanted channel `i` gets: the first channel of a transmitter gets its first
/// free slot, and so on.
pub open spec fn slot_for(wanted: Seq<WantedChannel>, free: Seq<FreeSlot>, i: int) -> int {
    nth_slot(free, wanted[i].adv.addr, count_at(wanted, wanted[i].adv.addr, i), 0)
}

/// The updates for those of the first `n` wanted channels for which there are free slots.
pub open spec fn slot_updates(wanted: Seq<WantedChannel>, free: Seq<FreeSlot>, n: int) -> Seq<
    ChannelSourceUpdate,
>
    decreases n,
{
    if n <= 0 {
        Seq::empty()
    } else {
        let before = slot_updates(wanted, free, n - 1);
        let slot = slot_for(wanted, free, n - 1);
        if slot < free.len() {
            before.push(
                ChannelSourceUpdate {
                    local_channel_index: wanted[n - 1].local_channel_index,
                    remote: ChannelOtherEnd {
                        local_flow_index: free[slot].flow_index,
                        channel_in_flow: free[slot].channel_in_flow,
                        tx_channel_id: wanted[n - 1].adv.tx_channel_id,
                    },
                },
            )
        } else {
            before
        }
    }
}

/// Those of the first `n` wanted channels for which there are no free slots.
pub open spec fn without_slots(wanted: Seq<WantedChannel>, free: Seq<FreeSlot>, n: int) -> Seq<WantedChannel>
    decreases n,
{
    if n <= 0 {
        Seq::empty()
    } else if slot_for(wanted, free, n - 1) < free.len() {
        without_slots(wanted, free, n - 1)
    } else {
        without_slots(wanted, free, n - 1).push(wanted[n - 1])
    }
}

fn count_before(wanted: &Vec<WantedChannel>, addr: SocketNumber, n: usize) -> (count: usize)
    requires
        n <= wanted@.len(),
    ensures
        count == count_at(wanted@, addr, n as int),
{
    let mut count: usize = 0;
    let mut i: usize = 0;
    while i < n
        invariant
            i <= n <= wanted@.len(),
            count <= i,
            count == count_at(wanted@, addr, i as int),
        decreases n - i,
    {
        if wanted[i].adv.addr == addr {
            count = count + 1;
        }
        i = i + 1;
    }
    count
}

fn find_slot(free: &Vec<FreeSlot>, addr: SocketNumber, rank: usize) -> (slot: usize)
    ensures
        slot == nth_slot(free@, addr, rank as int, 0),
        slot <= free@.len(),
{
    let mut left: usize = rank;
    let mut i: usize = 0;
    while i < free.len()
        invariant
            i <= free@.len(),
            nth_slot(free@, addr, rank as int, 0) == nth_slot(free@, addr, left as int, i as int),
        decreases free@.len() - i,
    {
        if free[i].addr == addr {
            if left == 0 {
                return i;
            }
            left = left - 1;
        }
        i = i + 1;
    }
    i
}

/// Uses free slots: the wanted channels are put into unused channels of flows which come from the
/// same transmitter. The second result lists the channels which remain.
pub fn use_free_slots(wanted: &Vec<WantedChannel>, free: &Vec<FreeSlot>) -> (r: (
    Vec<ChannelSourceUpdate>,
    Vec<WantedChannel>,
))
    ensures
        r.0@ == slot_updates(wanted@, free@, wanted@.len() as int),
        r.1@ == without_slots(wanted@, free@, wanted@.len() as int),
{
    let mut updates: Vec<ChannelSourceUpdate> = Vec::new();
    let mut others: Vec<WantedChannel> = Vec::new();
    let mut i: usize = 0;
    while i < wanted.len()
        invariant
            i <= wanted@.len(),
            updates@ == slot_updates(wanted@, free@, i as int),
            others@ == without_slots(wanted@, free@, i as int),
        decreases wanted@.len() - i,
    {
        let w: WantedChannel = wanted[i];
        let rank: usize = count_before(wanted, w.adv.addr, i);
        let slot: usize = find_slot(free, w.adv.addr, rank);
        if slot < free.len() {
            updates.push(
                ChannelSourceUpdate {
                    local_channel_index: w.local_channel_index,
                    remote: ChannelOtherEnd {
                        local_flow_index: free[slot].flow_index,
                        channel_in_flow: free[slot].channel_in_flow,
                        tx_channel_id: w.adv.tx_channel_id,
                    },
                },
            );
        } else {
            others.push(w);
        }
        i = i + 1;
    }
    (updates, others)
}

/// The channels of the transmitter which a flow is to carry after the first `n` updates.
pub open spec fn tx_channels_after(
    tx_channels: Seq<Option<u16>>,
    flow_index: int,
    updates: Seq<ChannelSourceUpdate>,
    n: int,
) -> Seq<Option<u16>>
    decreases n,
{
    if n <= 0 {
        tx_channels
    } else {
        let before = tx_channels_after(tx_channels, flow_index, updates, n - 1);
        let remote = updates[n - 1].remote;
        if remote.local_flow_index == flow_index {
            before.update(remote.channel_in_flow as int, Some(remote.tx_channel_id))
        } else {
            before
        }
    }
}

/// Those of the first `n` updates which concern the flow.
pub open spec fn updates_of_flow(flow_index: int, updates: Seq<ChannelSourceUpdate>, n: int) -> Seq<
    ChannelSourceUpdate,
>
    decreases n,
{
    if n <= 0 {
        Seq::empty()
    } else if updates[n - 1].remote.local_flow_index == flow_index {
        updates_of_flow(flow_index, updates, n - 1).push(updates[n - 1])
    } else {
        updates_of_flow(flow_index, updates, n - 1)
    }
}

/// A request to the transmitter that a flow carry other channels.
pub struct FlowUpdateRequest {
    pub flow_index: usize,
    pub addr: SocketNumber,
    pub dbcp1: u16,
    pub handle: FlowHandle,
    pub tx_channels: Vec<Option<u16>>,
    /// what is to be done if the request is granted
    pub updates: Vec<ChannelSourceUpdate>,
}

pub struct FlowUpdateRequestView {
    pub flow_index: int,
    pub addr: SocketNumber,
    pub dbcp1: u16,
    pub handle: FlowHandle,
    pub tx_channels: Seq<Option<u16>>,
    pub updates: Seq<ChannelSourceUpdate>,
}

impl View for FlowUpdateRequest {
    type V = FlowUpdateRequestView;

    open spec fn view(&self) -> FlowUpdateRequestView {
        FlowUpdateRequestView {
            flow_index: self.flow_index as int,
            addr: self.addr,
            dbcp1: self.dbcp1,
            handle: self.handle,
            tx_channels: self.tx_channels@,
            updates: self.updates@,
        }
    }
}

/// Whether the flow is one which the transmitter has granted.
pub open spec fn is_granted(flow: Option<FlowView>) -> bool {
    &&& flow is Some
    &&& flow->0.source matches FlowSourceView::Unicast { handle, .. }
    &&& handle is Some
}

/// Whether the update can be made: it concerns a granted flow and one of its channels.
pub open spec fn is_possible_update(flows: Seq<Option<FlowView>>, update: ChannelSourceUpdate) -> bool {
    let f = update.remote.local_flow_index as int;
    &&& 0 <= f < flows.len()
    &&& is_granted(flows[f])
    &&& update.remote.channel_in_flow < flows[f]->0.tx_channels.len()
}

/// The request which makes the flow carry what the updates need.
pub open spec fn flow_update_request(
    flows: Seq<Option<FlowView>>,
    flow_index: int,
    updates: Seq<ChannelSourceUpdate>,
) -> FlowUpdateRequestView {
    let flow = flows[flow_index]->0;
    FlowUpdateRequestView {
        flow_index,
        addr: flow.source->Unicast_control_remote_addr,
        dbcp1: flow.source->Unicast_dbcp1,
        handle: flow.source->Unicast_handle->0,
        tx_channels: tx_channels_after(flow.tx_channels, flow_index, updates, updates.len() as int),
        updates: updates_of_flow(flow_index, updates, updates.len() as int),
    }
}

/// Whether `requests` are those for the first `n` flows: one for each flow which any update concerns.
pub open spec fn are_flow_update_requests(
    requests: Seq<FlowUpdateRequest>,
    flows: Seq<Option<FlowView>>,
    updates: Seq<ChannelSourceUpdate>,
    n: int,
) -> bool
    decreases n,
{
    if n <= 0 {
        requests.len() == 0
    } else if updates_of_flow(n - 1, updates, updates.len() as int).len() > 0 {
        &&& requests.len() > 0
        &&& requests.last()@ == flow_update_request(flows, n - 1, updates)
        &&& are_flow_update_requests(requests.drop_last(), flows, updates, n - 1)
    } else {
        are_flow_update_requests(requests, flows, updates, n - 1)
    }
}

proof fn lemma_updates_of_flow_member(flow_index: int, updates: Seq<ChannelSourceUpdate>, n: int)
    requires
        0 <= n <= updates.len(),
        updates_of_flow(flow_index, updates, n).len() > 0,
    ensures
        exists|k: int| 0 <= k < n && (#[trigger] updates[k]).remote.local_flow_index == flow_index,
    decreases n,
{
    if n > 0 && updates[n - 1].remote.local_flow_index != flow_index {
        lemma_updates_of_flow_member(flow_index, updates, n - 1);
    }
}

/// Makes the requests to transmitters which the updates need, one for each flow concerned.
pub fn plan_flow_updates(flows: &Vec<Option<Flow>>, updates: &Vec<ChannelSourceUpdate>) -> (requests: Vec<
    FlowUpdateRequest,
>)
    requires
        forall|i: int|
            0 <= i < updates@.len() ==> is_possible_update(flows_view(flows@), #[trigger] updates@[i]),
    ensures
        are_flow_update_requests(requests@, flows_view(flows@), updates@, flows@.len() as int),
{
    let ghost views = flows_view(flows@);
    let mut requests: Vec<FlowUpdateRequest> = Vec::new();
    let mut f: usize = 0;
    while f < flows.len()
        invariant
            views == flows_view(flows@),
            forall|i: int| 0 <= i < updates@.len() ==> is_possible_update(views, #[trigger] updates@[i]),
            f <= flows@.len(),
            are_flow_update_requests(requests@, views, updates@, f as int),
        decreases flows@.len() - f,
    {
        let mut concerned: Vec<ChannelSourceUpdate> = Vec::new();
        let mut k: usize = 0;
        while k < updates.len()
            invariant
                k <= updates@.len(),
                concerned@ == updates_of_flow(f as int, updates@, k as int),
            decreases updates@.len() - k,
        {
            if updates[k].remote.local_flow_index == f {
                concerned.push(updates[k]);
            }
            k = k + 1;
        }
        if concerned.len() > 0 {
            proof {
                lemma_updates_of_flow_member(f as int, updates@, updates@.len() as int);
                let k = choose|k: int|
                    0 <= k < updates@.len() && (#[trigger] updates@[k]).remote.local_flow_index == f;
                assert(is_possible_update(views, updates@[k]));
                assert(is_granted(views[f as int]));
            }
            match &flows[f] {
                Some(flow) => {
                    assert(views[f as int] == Some(flow@));
                    match &flow.source {
                        FlowSource::Unicast { control_remote_addr, dbcp1, handle: Some(handle) } => {
                            let mut tx_channels: Vec<Option<u16>> = flow.tx_channels.clone();
                            assert(tx_channels@ =~= flow@.tx_channels);
                            let mut k: usize = 0;
                            while k < updates.len()
                                invariant
                                    views[f as int] == Some(flow@),
                                    forall|i: int|
                                        0 <= i < updates@.len() ==> is_possible_update(
                                            views,
                                            #[trigger] updates@[i],
                                        ),
                                    k <= updates@.len(),
                                    tx_channels@ == tx_channels_after(
                                        flow@.tx_channels,
                                        f as int,
                                        updates@,
                                        k as int,
                                    ),
                                    tx_channels@.len() == flow@.tx_channels.len(),
                                decreases updates@.len() - k,
                            {
                                let remote: ChannelOtherEnd = updates[k].remote;
                                assert(is_possible_update(views, updates@[k as int]));
                                if remote.local_flow_index == f {
                                    tx_channels.set(remote.channel_in_flow, Some(remote.tx_channel_id));
                                }
                                k = k + 1;
                            }
                            let ghost before = requests@;
                            requests.push(
                                FlowUpdateRequest {
                                    flow_index: f,
                                    addr: *control_remote_addr,
                                    dbcp1: *dbcp1,
                                    handle: *handle,
                                    tx_channels,
                                    updates: concerned,
                                },
                            );
                            assert(requests@.drop_last() =~= before);
                        },
                        _ => {
                            assert(false);
                        },
                    }
                },
                None => {
                    assert(false);
                },
            }
        }
        f = f + 1;
    }
    requests
}

// ---------------------------------------------------------------------------------------------
// New flows
// ---------------------------------------------------------------------------------------------

/// What flows have to be adapted to.
#[derive(Clone, Copy, Debug, PartialEq, Eq, Structural)]
pub struct ReceiverParameters {
    /// the number of local channels
    pub rx_channels: usize,
    pub min_latency_ns: usize,
    pub sample_rate: u32,
}

/// The larger one of two latencies, in nanoseconds.
pub open spec fn needed_latency_ns(min_rx_latency_ns: usize, par: ReceiverParameters) -> int {
    if min_rx_latency_ns < par.min_latency_ns {
        par.min_latency_ns as int
    } else {
        min_rx_latency_ns as int
    }
}

/// The latency of a flow in samples.
pub open spec fn latency_samples(min_rx_latency_ns: usize, par: ReceiverParameters) -> int {
    needed_latency_ns(min_rx_latency_ns, par) * par.sample_rate / 1_000_000_000
}

/// Whether the latency can be computed with 64-bit numbers and held in an index.
pub open spec fn is_latency_computable(min_rx_latency_ns: usize, par: ReceiverParameters) -> bool {
    &&& needed_latency_ns(min_rx_latency_ns, par) * par.sample_rate <= u64::MAX
    &&& latency_samples(min_rx_latency_ns, par) <= usize::MAX
}

pub fn compute_latency_samples(min_rx_latency_ns: usize, par: ReceiverParameters) -> (latency: usize)
    requires
        is_latency_computable(min_rx_latency_ns, par),
    ensures
        latency == latency_samples(min_rx_latency_ns, par),
{
    let ns: u64 = if min_rx_latency_ns < par.min_latency_ns {
        par.min_latency_ns as u64
    } else {
        min_rx_latency_ns as u64
    };
    (ns * par.sample_rate as u64 / 1_000_000_000) as usize
}

/// Whether `compute_latency_samples` may be called.
pub fn latency_is_computable(min_rx_latency_ns: usize, par: ReceiverParameters) -> (computable: bool)
    ensures
        computable == is_latency_computable(min_rx_latency_ns, par),
{
    let ns: u128 = if min_rx_latency_ns < par.min_latency_ns {
        par.min_latency_ns as u128
    } else {
        min_rx_latency_ns as u128
    };
    assert(ns * par.sample_rate <= 0xffff_ffff_ffff_ffffu128 * 0xffff_ffffu128) by (nonlinear_arith)
        requires
            ns <= 0xffff_ffff_ffff_ffffu128,
            par.sample_rate <= 0xffff_ffffu128,
    ;
    let product: u128 = ns * par.sample_rate as u128;
    product <= u64::MAX as u128 && product / 1_000_000_000 <= usize::MAX as u128
}

/// The first unused place in the table of flows from `from` on; the length of the table if there
/// is none.
pub open spec fn first_unused(flows: Seq<Option<FlowView>>, from: int) -> int
    decreases flows.len() - from,
{
    if from >= flows.len() || flows[from] is None {
        from
    } else {
        first_unused(flows, from + 1)
    }
}

/// The table of flows with a flow added in the first unused place.
pub open spec fn with_new_flow(flows: Seq<Option<FlowView>>, flow: FlowView) -> Seq<Option<FlowView>> {
    let index = first_unused(flows, 0);
    if index < flows.len() {
        flows.update(index, Some(flow))
    } else {
        flows.push(Some(flow))
    }
}

fn find_unused(flows: &Vec<Option<Flow>>) -> (index: usize)
    ensures
        index == first_unused(flows_view(flows@), 0),
        index <= flows@.len(),
{
    let ghost views = flows_view(flows@);
    let mut i: usize = 0;
    while i < flows.len()
        invariant
            views == flows_view(flows@),
            i <= flows@.len(),
            first_unused(views, 0) == first_unused(views, i as int),
        decreases flows@.len() - i,
    {
        if flows[i].is_none() {
            assert(views[i as int] is None);
            return i;
        }
        assert(views[i as int] is Some);
        i = i + 1;
    }
    i
}

fn put_flow(flows: &mut Vec<Option<Flow>>, index: usize, flow: Flow)
    requires
        index == first_unused(flows_view(old(flows)@), 0),
        index <= old(flows)@.len(),
    ensures
        flows_view(final(flows)@) == with_new_flow(flows_view(old(flows)@), flow@),
{
    let ghost before = flows@;
    let ghost view = flow@;
    if index < flows.len() {
        flows.set(index, Some(flow));
    } else {
        flows.push(Some(flow));
    }
    assert(flows_view(flows@) =~= with_new_flow(flows_view(before), view));
}

/// Adds a flow for a multicast transmission; returns its place and what is to be done when it is
/// received.
pub fn create_multicast_flow(
    flows: &mut Vec<Option<Flow>>,
    bundle_full_name: &String,
    bundle: AdvertisedBundle,
    wanted: &Vec<WantedBundleChannel>,
    par: ReceiverParameters,
    now: usize,
) -> (r: (usize, Vec<ChannelSourceUpdate>))
    requires
        old(flows)@.len() < usize::MAX,
        is_latency_computable(bundle.min_rx_latency_ns, par),
    ensures
        r.0 == first_unused(flows_view(old(flows)@), 0),
        flows_view(final(flows)@) == with_new_flow(
            flows_view(old(flows)@),
            new_flow(
                (r.0 + 1) as usize,
                FlowSourceView::Multicast { bundle_full_name: bundle_full_name@ },
                bundle.tx_channels_per_flow as int,
                Seq::empty(),
                latency_samples(bundle.min_rx_latency_ns, par) as usize,
                now,
            ),
        ),
        r.1@ == bundle_updates(bundle_full_name@, r.0 as int, wanted@),
{
    let flow_index: usize = find_unused(flows);
    let none: [u16; 0] = [];
    let flow = Flow::new(
        flow_index + 1,
        FlowSource::Multicast { bundle_full_name: bundle_full_name.clone() },
        bundle.tx_channels_per_flow,
        // tx_channels aren't read in case of multicast flows, so no need to initialize
        none.as_slice(),
        compute_latency_samples(bundle.min_rx_latency_ns, par),
        now,
    );
    assert(none@ =~= Seq::empty());
    put_flow(flows, flow_index, flow);
    (flow_index, find_in_bundle(bundle_full_name, flow_index, wanted))
}

/// The number of channels in a flow; 8 at most.
pub open spec fn channels_in_flow(tx_channels_per_flow: usize, rx_channels: usize) -> int {
    let n = if tx_channels_per_flow < rx_channels {
        tx_channels_per_flow as int
    } else {
        rx_channels as int
    };
    if n < 8 {
        n
    } else {
        8
    }
}

/// The identifiers which the transmitter gave to the channels.
pub open spec fn tx_channel_ids(chunk: Seq<WantedChannel>) -> Seq<u16> {
    Seq::new(chunk.len(), |i: int| chunk[i].adv.tx_channel_id)
}

/// The updates which connect the channels to a flow, each to the channel of the flow at its place.
pub open spec fn chunk_updates(chunk: Seq<WantedChannel>, flow_index: int) -> Seq<ChannelSourceUpdate> {
    Seq::new(
        chunk.len(),
        |i: int|
            ChannelSourceUpdate {
                local_channel_index: chunk[i].local_channel_index,
                remote: ChannelOtherEnd {
                    local_flow_index: flow_index as usize,
                    channel_in_flow: i as usize,
                    tx_channel_id: chunk[i].adv.tx_channel_id,
                },
            },
    )
}

/// A flow which has to be requested from a transmitter.
pub struct NewFlow {
    pub flow_index: usize,
    /// the first channel of the transmitter; all channels agree with it
    pub first: AdvertisedChannel,
    /// what is to be done when the flow is granted
    pub updates: Vec<ChannelSourceUpdate>,
}

pub struct NewFlowView {
    pub flow_index: int,
    pub first: AdvertisedChannel,
    pub updates: Seq<ChannelSourceUpdate>,
}

impl View for NewFlow {
    type V = NewFlowView;

    open spec fn view(&self) -> NewFlowView {
        NewFlowView {
            flow_index: self.flow_index as int,
            first: self.first,
            updates: self.updates@,
        }
    }
}

pub open spec fn new_flows_view(new_flows: Seq<NewFlow>) -> Seq<NewFlowView> {
    Seq::new(new_flows.len(), |i: int| new_flows[i]@)
}

/// The flow which is to carry a chunk of channels.
pub open spec fn flow_for_chunk(
    flow_index: int,
    first: AdvertisedChannel,
    chunk: Seq<WantedChannel>,
    par: ReceiverParameters,
    now: usize,
) -> FlowView {
    new_flow(
        (flow_index + 1) as usize,
        FlowSourceView::Unicast { control_remote_addr: first.addr, dbcp1: first.dbcp1, handle: None },
        channels_in_flow(first.tx_channels_per_flow, par.rx_channels),
        tx_channel_ids(chunk),
        latency_samples(first.min_rx_latency_ns, par) as usize,
        now,
    )
}

/// The chunk of channels which starts at `start`.
pub open spec fn chunk_at(wanted: Seq<WantedChannel>, start: int, size: int) -> Seq<WantedChannel> {
    wanted.subrange(
        start,
        if start + size < wanted.len() {
            start + size
        } else {
            wanted.len() as int
        },
    )
}

/// The table of flows, and the new flows in it, after the channels `wanted` of one transmitter from
/// `start` on were given new flows, as many channels to each as the transmitter supports.
pub open spec fn flows_for_server(
    flows: Seq<Option<FlowView>>,
    wanted: Seq<WantedChannel>,
    start: int,
    par: ReceiverParameters,
    now: usize,
) -> (Seq<Option<FlowView>>, Seq<NewFlowView>)
    decreases
            if start < wanted.len() {
                wanted.len() - start
            } else {
                0int
            },
{
    let size = wanted[0].adv.tx_channels_per_flow as int;
    if start >= wanted.len() || size <= 0 {
        (flows, Seq::empty())
    } else {
        let first = wanted[0].adv;
        let chunk = chunk_at(wanted, start, size);
        let index = first_unused(flows, 0);
        let flow = flow_for_chunk(index, first, chunk, par, now);
        let rest = flows_for_server(
            with_new_flow(flows, flow),
            wanted,
            start + size,
            par,
            now,
        );
        (
            rest.0,
            seq![
                NewFlowView {
                    flow_index: index,
                    first,
                    updates: chunk_updates(chunk, index),
                },
            ] + rest.1,
        )
    }
}

fn create_flow_for_chunk(
    flows: &mut Vec<Option<Flow>>,
    first: AdvertisedChannel,
    chunk: &[WantedChannel],
    par: ReceiverParameters,
    now: usize,
) -> (new_flow: NewFlow)
    requires
        old(flows)@.len() < usize::MAX,
        is_latency_computable(first.min_rx_latency_ns, par),
    ensures
        new_flow@ == (NewFlowView {
            flow_index: first_unused(flows_view(old(flows)@), 0),
            first,
            updates: chunk_updates(chunk@, first_unused(flows_view(old(flows)@), 0)),
        }),
        flows_view(final(flows)@) == with_new_flow(
            flows_view(old(flows)@),
            flow_for_chunk(first_unused(flows_view(old(flows)@), 0), first, chunk@, par, now),
        ),
        final(flows)@.len() <= old(flows)@.len() + 1,
{
    let flow_index: usize = find_unused(flows);
    let mut ids: Vec<u16> = Vec::new();
    let mut updates: Vec<ChannelSourceUpdate> = Vec::new();
    let mut i: usize = 0;
    while i < chunk.len()
        invariant
            i <= chunk@.len(),
            ids@ == tx_channel_ids(chunk@).take(i as int),
            updates@ == chunk_updates(chunk@, flow_index as int).take(i as int),
        decreases chunk@.len() - i,
    {
        let w: WantedChannel = chunk[i];
        ids.push(w.adv.tx_channel_id);
        updates.push(
            ChannelSourceUpdate {
                local_channel_index: w.local_channel_index,
                remote: ChannelOtherEnd {
                    local_flow_index: flow_index,
                    channel_in_flow: i,
                    tx_channel_id: w.adv.tx_channel_id,
                },
            },
        );
        i = i + 1;
        assert(ids@ =~= tx_channel_ids(chunk@).take(i as int));
        assert(updates@ =~= chunk_updates(chunk@, flow_index as int).take(i as int));
    }
    assert(ids@ =~= tx_channel_ids(chunk@));
    assert(updates@ =~= chunk_updates(chunk@, flow_index as int));
    let mut total: usize = if first.tx_channels_per_flow < par.rx_channels {
        first.tx_channels_per_flow
    } else {
        par.rx_channels
    };
    if total >= 8 {
        total = 8;
    }
    let flow = Flow::new(
        flow_index + 1,
        FlowSource::Unicast { control_remote_addr: first.addr, dbcp1: first.dbcp1, handle: None },
        total,
        ids.as_slice(),
        compute_latency_samples(first.min_rx_latency_ns, par),
        now,
    );
    put_flow(flows, flow_index, flow);
    proof {
        let after = flows_view(flows@);
        assert(after.len() == flows@.len());
    }
    NewFlow { flow_index, first, updates }
}

/// Creates new flows for the channels of one transmitter.
pub fn create_flows_for_server(
    flows: &mut Vec<Option<Flow>>,
    wanted: &Vec<WantedChannel>,
    par: ReceiverParameters,
    now: usize,
) -> (new_flows: Vec<NewFlow>)
    requires
        wanted@.len() > 0,
        wanted@[0].adv.tx_channels_per_flow > 0,
        is_latency_computable(wanted@[0].adv.min_rx_latency_ns, par),
        old(flows)@.len() + wanted@.len() < usize::MAX,
    ensures
        (flows_view(final(flows)@), new_flows_view(new_flows@)) == flows_for_server(
            flows_view(old(flows)@),
            wanted@,
            0,
            par,
            now,
        ),
        final(flows)@.len() <= old(flows)@.len() + wanted@.len(),
{
    let first: AdvertisedChannel = wanted[0].adv;
    let size: usize = first.tx_channels_per_flow;
    let ghost expected = flows_for_server(flows_view(flows@), wanted@, 0, par, now);
    let mut new_flows: Vec<NewFlow> = Vec::new();
    let mut start: usize = 0;
    while start < wanted.len()
        invariant
            wanted@.len() > 0,
            first == wanted@[0].adv,
            size == first.tx_channels_per_flow,
            size > 0,
            is_latency_computable(first.min_rx_latency_ns, par),
            start <= wanted@.len(),
            flows@.len() <= old(flows)@.len() + start,
            old(flows)@.len() + wanted@.len() < usize::MAX,
            expected == flows_for_server(flows_view(old(flows)@), wanted@, 0, par, now),
            ({
                let rest = flows_for_server(flows_view(flows@), wanted@, start as int, par, now);
                &&& expected.0 == rest.0
                &&& expected.1 == new_flows_view(new_flows@) + rest.1
            }),
        decreases wanted@.len() - start,
    {
        let end: usize = if size < wanted.len() - start {
            start + size
        } else {
            wanted.len()
        };
        let ghost before = new_flows_view(new_flows@);
        let chunk = &wanted.as_slice()[start..end];
        assert(chunk@ =~= chunk_at(wanted@, start as int, size as int));
        let new_flow = create_flow_for_chunk(flows, first, chunk, par, now);
        let ghost view = new_flow@;
        new_flows.push(new_flow);
        proof {
            assert(new_flows_view(new_flows@) =~= before.push(view));
            let rest = flows_for_server(flows_view(flows@), wanted@, start + size, par, now);
            assert(before + (seq![view] + rest.1) =~= before.push(view) + rest.1);
            if start + size >= wanted@.len() {
                assert(rest == flows_for_server(flows_view(flows@), wanted@, end as int, par, now));
            }
        }
        start = end;
    }
    assert(new_flows_view(new_flows@) + Seq::empty() =~= new_flows_view(new_flows@));
    new_flows
}

/// Whether `servers` lists the transmitters of the wanted channels in order.
pub open spec fn are_servers_of(servers: Seq<SocketNumber>, wanted: Seq<WantedChannel>) -> bool {
    &&& forall|i: int, j: int| 0 <= i < j < servers.len() ==> #[trigger] servers[i] < #[trigger] servers[j]
    &&& forall|addr: SocketNumber| #[trigger]
        servers.contains(addr) <==> is_addr_wanted(wanted, addr)
}

pub open spec fn is_addr_wanted(wanted: Seq<WantedChannel>, addr: SocketNumber) -> bool {
    exists|i: int| 0 <= i < wanted.len() && (#[trigger] wanted[i]).adv.addr == addr
}

/// Lists the transmitters of the wanted channels in order.
pub fn servers_of(wanted: &Vec<WantedChannel>) -> (servers: Vec<SocketNumber>)
    ensures
        are_servers_of(servers@, wanted@),
{
    let mut servers: Vec<SocketNumber> = Vec::new();
    let mut i: usize = 0;
    while i < wanted.len()
        invariant
            i <= wanted@.len(),
            are_servers_of(servers@, wanted@.take(i as int)),
        decreases wanted@.len() - i,
    {
        let addr: SocketNumber = wanted[i].adv.addr;
        let ghost before = servers@;
        let mut at: usize = 0;
        while at < servers.len() && servers[at] < addr
            invariant
                servers@ == before,
                at <= servers@.len(),
                forall|k: int| 0 <= k < at ==> #[trigger] servers@[k] < addr,
            decreases servers@.len() - at,
        {
            at = at + 1;
        }
        if at < servers.len() && servers[at] == addr {
        } else {
            servers.insert(at, addr);
        }
        proof {
            let prefix = wanted@.take(i as int);
            let longer = wanted@.take(i as int + 1);
            assert forall|a: SocketNumber| is_addr_wanted(longer, a) <==> is_addr_wanted(prefix, a) || a == addr by {
                if is_addr_wanted(prefix, a) {
                    let k = choose|k: int| 0 <= k < prefix.len() && (#[trigger] prefix[k]).adv.addr == a;
                    assert(longer[k] == prefix[k]);
                }
                if a == addr {
                    assert(longer[i as int].adv.addr == a);
                }
                if is_addr_wanted(longer, a) {
                    let k = choose|k: int| 0 <= k < longer.len() && (#[trigger] longer[k]).adv.addr == a;
                    if k < i {
                        assert(prefix[k] == longer[k]);
                    }
                }
            }
            assert forall|a: SocketNumber| #[trigger] servers@.contains(a) <==> before.contains(a) || a == addr by {
                if before.contains(a) {
                    let k = choose|k: int| 0 <= k < before.len() && before[k] == a;
                    if servers@.len() > before.len() {
                        let k1 = if k < at { k } else { k + 1 };
                        assert(servers@[k1] == a);
                    }
                }
                if a == addr {
                    assert(servers@[at as int] == a);
                }
                if servers@.contains(a) && a != addr && servers@.len() > before.len() {
                    let k = choose|k: int| 0 <= k < servers@.len() && servers@[k] == a;
                    let k1 = if k < at { k } else { k - 1 };
                    assert(before[k1] == a);
                }
            }
            assert forall|x: int, y: int| 0 <= x < y < servers@.len() implies #[trigger] servers@[x]
                < #[trigger] servers@[y] by {
                if servers@.len() > before.len() {
                    let x0 = if x <= at { x } else { x - 1 };
                    let y0 = if y < at { y } else { y - 1 };
                    if x != at {
                        assert(servers@[x] == before[if x < at { x } else { x - 1 }]);
                    }
                    if y != at {
                        assert(servers@[y] == before[y0]);
                    }
                    if x == at && y0 > at {
                        assert(before[at as int] < before[y0]);
                    }
                }
            }
        }
        i = i + 1;
    }
    assert(wanted@.take(i as int) =~= wanted@);
    servers
}

/// Those of the first `n` wanted channels which the transmitter at `addr` offers.
pub open spec fn channels_at(wanted: Seq<WantedChannel>, addr: SocketNumber, n: int) -> Seq<WantedChannel>
    decreases n,
{
    if n <= 0 {
        Seq::empty()
    } else if wanted[n - 1].adv.addr == addr {
        channels_at(wanted, addr, n - 1).push(wanted[n - 1])
    } else {
        channels_at(wanted, addr, n - 1)
    }
}

fn select_channels_at(wanted: &Vec<WantedChannel>, addr: SocketNumber) -> (selected: Vec<WantedChannel>)
    ensures
        selected@ == channels_at(wanted@, addr, wanted@.len() as int),
{
    let mut selected: Vec<WantedChannel> = Vec::new();
    let mut i: usize = 0;
    while i < wanted.len()
        invariant
            i <= wanted@.len(),
            selected@ == channels_at(wanted@, addr, i as int),
        decreases wanted@.len() - i,
    {
        if wanted[i].adv.addr == addr {
            selected.push(wanted[i]);
        }
        i = i + 1;
    }
    selected
}

/// The table of flows, and the new flows in it, after the channels of the first `n` transmitters
/// were given new flows.
pub open spec fn flows_for_servers(
    flows: Seq<Option<FlowView>>,
    wanted: Seq<WantedChannel>,
    servers: Seq<SocketNumber>,
    n: int,
    par: ReceiverParameters,
    now: usize,
) -> (Seq<Option<FlowView>>, Seq<NewFlowView>)
    decreases n,
{
    if n <= 0 {
        (flows, Seq::empty())
    } else {
        let before = flows_for_servers(flows, wanted, servers, n - 1, par, now);
        let next = flows_for_server(
            before.0,
            channels_at(wanted, servers[n - 1], wanted.len() as int),
            0,
            par,
            now,
        );
        (next.0, before.1 + next.1)
    }
}

proof fn lemma_channels_at(wanted: Seq<WantedChannel>, addr: SocketNumber, n: int)
    requires
        0 <= n <= wanted.len(),
    ensures
        channels_at(wanted, addr, n).len() <= n,
        is_addr_wanted(wanted.take(n), addr) ==> channels_at(wanted, addr, n).len() > 0,
        forall|i: int|
            0 <= i < channels_at(wanted, addr, n).len() ==> wanted.contains(
                #[trigger] channels_at(wanted, addr, n)[i],
            ),
    decreases n,
{
    if n > 0 {
        lemma_channels_at(wanted, addr, n - 1);
        assert(wanted.contains(wanted[n - 1]));
        if is_addr_wanted(wanted.take(n), addr) && wanted[n - 1].adv.addr != addr {
            let k = choose|k: int| 0 <= k < n && (#[trigger] wanted.take(n)[k]).adv.addr == addr;
            assert(wanted.take(n - 1)[k].adv.addr == addr);
        }
    }
}

/// The wanted channels which have index below `m` and are offered by one of the first `n`
/// transmitters.
spec fn count_prefix_at_servers(wanted: Seq<WantedChannel>, servers: Seq<SocketNumber>, n: int, m: int) -> int
    decreases n,
{
    if n <= 0 {
        0
    } else {
        count_prefix_at_servers(wanted, servers, n - 1, m) + channels_at(wanted, servers[n - 1], m).len()
    }
}

proof fn lemma_count_step(wanted: Seq<WantedChannel>, servers: Seq<SocketNumber>, n: int, m: int)
    requires
        0 <= n <= servers.len(),
        0 < m <= wanted.len(),
        forall|i: int, j: int| 0 <= i < j < servers.len() ==> #[trigger] servers[i] < #[trigger] servers[j],
    ensures
        count_prefix_at_servers(wanted, servers, n, m) <= count_prefix_at_servers(
            wanted,
            servers,
            n,
            m - 1,
        ) + 1,
        (forall|i: int| 0 <= i < n ==> #[trigger] servers[i] != wanted[m - 1].adv.addr)
            ==> count_prefix_at_servers(wanted, servers, n, m) == count_prefix_at_servers(
            wanted,
            servers,
            n,
            m - 1,
        ),
    decreases n,
{
    if n > 0 {
        lemma_count_step(wanted, servers, n - 1, m);
        if servers[n - 1] == wanted[m - 1].adv.addr {
            assert forall|i: int| 0 <= i < n - 1 implies #[trigger] servers[i] != wanted[m - 1].adv.addr by {
                assert(servers[i] < servers[n - 1]);
            }
        }
    }
}

proof fn lemma_count_prefix(wanted: Seq<WantedChannel>, servers: Seq<SocketNumber>, n: int, m: int)
    requires
        0 <= n <= servers.len(),
        0 <= m <= wanted.len(),
        forall|i: int, j: int| 0 <= i < j < servers.len() ==> #[trigger] servers[i] < #[trigger] servers[j],
    ensures
        count_prefix_at_servers(wanted, servers, n, m) <= m,
    decreases m,
{
    if m > 0 {
        lemma_count_prefix(wanted, servers, n, m - 1);
        lemma_count_step(wanted, servers, n, m);
    } else {
        lemma_count_nothing(wanted, servers, n);
    }
}

proof fn lemma_count_nothing(wanted: Seq<WantedChannel>, servers: Seq<SocketNumber>, n: int)
    ensures
        count_prefix_at_servers(wanted, servers, n, 0) == 0,
    decreases n,
{
    if n > 0 {
        lemma_count_nothing(wanted, servers, n - 1);
    }
}

/// Creates new flows for the remaining channels, transmitter by transmitter.
pub fn create_unicast_flows(
    flows: &mut Vec<Option<Flow>>,
    wanted: &Vec<WantedChannel>,
    par: ReceiverParameters,
    now: usize,
) -> (new_flows: Vec<NewFlow>)
    requires
        forall|i: int|
            0 <= i < wanted@.len() ==> (#[trigger] wanted@[i]).adv.tx_channels_per_flow > 0
                && is_latency_computable(wanted@[i].adv.min_rx_latency_ns, par),
        old(flows)@.len() + wanted@.len() < usize::MAX,
    ensures
        exists|servers: Seq<SocketNumber>|
            are_servers_of(servers, wanted@) && (
            flows_view(final(flows)@),
            new_flows_view(new_flows@),
        ) == #[trigger] flows_for_servers(
            flows_view(old(flows)@),
            wanted@,
            servers,
            servers.len() as int,
            par,
            now,
        ),
{
    let servers: Vec<SocketNumber> = servers_of(wanted);
    let mut new_flows: Vec<NewFlow> = Vec::new();
    let mut i: usize = 0;
    while i < servers.len()
        invariant
            forall|i: int|
                0 <= i < wanted@.len() ==> (#[trigger] wanted@[i]).adv.tx_channels_per_flow > 0
                    && is_latency_computable(wanted@[i].adv.min_rx_latency_ns, par),
            old(flows)@.len() + wanted@.len() < usize::MAX,
            are_servers_of(servers@, wanted@),
            i <= servers@.len(),
            flows@.len() <= old(flows)@.len() + count_prefix_at_servers(
                wanted@,
                servers@,
                i as int,
                wanted@.len() as int,
            ),
            (flows_view(flows@), new_flows_view(new_flows@)) == flows_for_servers(
                flows_view(old(flows)@),
                wanted@,
                servers@,
                i as int,
                par,
                now,
            ),
        decreases servers@.len() - i,
    {
        let ghost before = new_flows_view(new_flows@);
        let selected: Vec<WantedChannel> = select_channels_at(wanted, servers[i]);
        proof {
            lemma_channels_at(wanted@, servers@[i as int], wanted@.len() as int);
            assert(servers@.contains(servers@[i as int]));
            assert(wanted@.take(wanted@.len() as int) =~= wanted@);
            assert(wanted@.contains(selected@[0]));
            lemma_count_prefix(wanted@, servers@, i as int + 1, wanted@.len() as int);
        }
        let mut created: Vec<NewFlow> = create_flows_for_server(flows, &selected, par, now);
        let ghost added = new_flows_view(created@);
        new_flows.append(&mut created);
        assert(new_flows_view(new_flows@) =~= before + added);
        i = i + 1;
    }
    assert(are_servers_of(servers@, wanted@));
    new_flows
}

/// The number of frames in a packet: as many as the transmitter supports and as fit.
pub open spec fn frames_per_packet(
    fpp_max: u16,
    max_payload_bytes: int,
    channels: int,
    bits_per_sample: int,
) -> int {
    let limit = max_payload_bytes / (channels * bits_per_sample / 8);
    if fpp_max < limit {
        fpp_max as int
    } else {
        limit
    }
}

pub fn choose_frames_per_packet(
    fpp_max: u16,
    max_payload_bytes: usize,
    channels: usize,
    bits_per_sample: u32,
) -> (fpp: u16)
    requires
        channels * bits_per_sample <= usize::MAX,
        channels * bits_per_sample >= 8,
    ensures
        fpp == frames_per_packet(
            fpp_max,
            max_payload_bytes as int,
            channels as int,
            bits_per_sample as int,
        ),
{
    let limit: usize = max_payload_bytes / (channels * (bits_per_sample as usize) / 8);
    if (fpp_max as usize) < limit {
        fpp_max
    } else {
        limit as u16
    }
}

/// The name which a flow is given by the receiver.
pub open spec fn flow_name(process_id: nat, flow_id: nat) -> Seq<char> {
    decimal(process_id).push('_') + decimal(flow_id)
}

pub fn make_flow_name(process_id: u16, flow_id: usize) -> (name: String)
    ensures
        name@ == flow_name(process_id as nat, flow_id as nat),
{
    let mut name = decimal_string(process_id as u64);
    proof {
        reveal_strlit("_");
    }
    name.append("_");
    name.append(decimal_string(flow_id as u64).as_str());
    assert("_"@ =~= seq!['_']);
    assert(name@ =~= flow_name(process_id as nat, flow_id as nat));
    name
}

// ---------------------------------------------------------------------------------------------
// Free channels are given out once
// ---------------------------------------------------------------------------------------------

/// Whether the slot is a channel of a flow from the transmitter which nobody uses.
pub open spec fn is_free_slot(flows: Seq<Option<FlowView>>, slot: FreeSlot) -> bool {
    let f = slot.flow_index as int;
    &&& 0 <= f < flows.len()
    &&& flows[f] is Some
    &&& flows[f]->0.source matches FlowSourceView::Unicast { control_remote_addr, .. }
    &&& control_remote_addr == slot.addr
    &&& slot.channel_in_flow < flows[f]->0.channels_refcount.len()
    &&& flows[f]->0.channels_refcount[slot.channel_in_flow as int] <= 0
}

/// Whether the slots come one after another in the table of flows.
pub open spec fn is_slot_before(a: FreeSlot, b: FreeSlot) -> bool {
    a.flow_index < b.flow_index || (a.flow_index == b.flow_index && a.channel_in_flow < b.channel_in_flow)
}

pub open spec fn are_slots_ordered(free: Seq<FreeSlot>) -> bool {
    forall|i: int, j: int|
        0 <= i < j < free.len() ==> is_slot_before(#[trigger] free[i], #[trigger] free[j])
}

proof fn lemma_free_slots_of_flow(
    flows: Seq<Option<FlowView>>,
    f: int,
    addr: SocketNumber,
    updates: Seq<ChannelSourceUpdate>,
    n: int,
)
    requires
        0 <= f < flows.len() <= usize::MAX,
        flows[f] is Some,
        flows[f]->0.source matches FlowSourceView::Unicast { control_remote_addr, .. } && control_remote_addr
            == addr,
        0 <= n <= flows[f]->0.channels_refcount.len() <= usize::MAX,
    ensures
        ({
            let free = free_slots(flows[f]->0, addr, f, updates, n);
            &&& are_slots_ordered(free)
            &&& forall|i: int|
                0 <= i < free.len() ==> is_free_slot(flows, #[trigger] free[i]) && free[i].flow_index == f
                    && free[i].channel_in_flow < n
        }),
    decreases n,
{
    if n > 0 {
        lemma_free_slots_of_flow(flows, f, addr, updates, n - 1);
    }
}

proof fn lemma_free_slots(
    flows: Seq<Option<FlowView>>,
    wanted: Seq<WantedChannel>,
    in_multicast: Seq<WantedBundleChannel>,
    n: int,
)
    requires
        0 <= n <= flows.len() <= usize::MAX,
        forall|f: int|
            0 <= f < flows.len() && #[trigger] flows[f] is Some ==> flows[f]->0.channels_refcount.len()
                <= usize::MAX,
    ensures
        ({
            let free = existing_sources(flows, wanted, in_multicast, n).free;
            &&& are_slots_ordered(free)
            &&& forall|i: int|
                0 <= i < free.len() ==> is_free_slot(flows, #[trigger] free[i]) && free[i].flow_index < n
        }),
    decreases n,
{
    if n > 0 {
        lemma_free_slots(flows, wanted, in_multicast, n - 1);
        let before = existing_sources(flows, wanted, in_multicast, n - 1);
        if flows[n - 1] is Some {
            let flow = flows[n - 1]->0;
            match flow.source {
                FlowSourceView::Unicast { control_remote_addr, .. } => {
                    let updates = carried_updates(flow, n - 1, before.remaining);
                    lemma_free_slots_of_flow(
                        flows,
                        n - 1,
                        control_remote_addr,
                        updates,
                        flow.channels_refcount.len() as int,
                    );
                    let added = free_slots(
                        flow,
                        control_remote_addr,
                        n - 1,
                        updates,
                        flow.channels_refcount.len() as int,
                    );
                    let all = before.free + added;
                    assert forall|i: int, j: int| 0 <= i < j < all.len() implies is_slot_before(
                        #[trigger] all[i],
                        #[trigger] all[j],
                    ) by {
                        let m = before.free.len() as int;
                        if j < m {
                            assert(is_slot_before(before.free[i], before.free[j]));
                        } else if i >= m {
                            assert(is_slot_before(added[i - m], added[j - m]));
                        } else {
                            assert(before.free[i].flow_index < n - 1);
                            assert(added[j - m].flow_index == n - 1);
                        }
                    }
                    assert forall|i: int| 0 <= i < all.len() implies is_free_slot(flows, #[trigger] all[i])
                        && all[i].flow_index < n by {
                        let m = before.free.len() as int;
                        if i < m {
                            assert(all[i] == before.free[i]);
                        } else {
                            assert(all[i] == added[i - m]);
                        }
                    }
                },
                FlowSourceView::Multicast { .. } => {},
            }
        }
    }
}

proof fn lemma_nth_slot(free: Seq<FreeSlot>, addr: SocketNumber, rank: int, from: int)
    requires
        0 <= from <= free.len(),
        0 <= rank,
    ensures
        from <= nth_slot(free, addr, rank, from) <= free.len(),
        nth_slot(free, addr, rank, from) < free.len() ==> free[nth_slot(free, addr, rank, from)].addr == addr,
        nth_slot(free, addr, rank, from) < free.len() ==> nth_slot(free, addr, rank, from) < nth_slot(
            free,
            addr,
            rank + 1,
            from,
        ),
        nth_slot(free, addr, rank, from) == free.len() ==> nth_slot(free, addr, rank + 1, from) == free.len(),
    decreases free.len() - from,
{
    if from < free.len() {
        if free[from].addr != addr {
            lemma_nth_slot(free, addr, rank, from + 1);
        } else if rank > 0 {
            lemma_nth_slot(free, addr, rank - 1, from + 1);
        } else {
            lemma_nth_slot(free, addr, 0, from + 1);
        }
    }
}

proof fn lemma_nth_slot_grows(free: Seq<FreeSlot>, addr: SocketNumber, low: int, high: int)
    requires
        0 <= low < high,
        nth_slot(free, addr, low, 0) < free.len(),
    ensures
        nth_slot(free, addr, low, 0) < nth_slot(free, addr, high, 0),
    decreases high - low,
{
    lemma_nth_slot(free, addr, low, 0);
    lemma_nth_slot(free, addr, high - 1, 0);
    if low < high - 1 {
        lemma_nth_slot_grows(free, addr, low, high - 1);
        if nth_slot(free, addr, high - 1, 0) == free.len() {
            assert(nth_slot(free, addr, high, 0) == free.len());
        }
    }
}

proof fn lemma_count_at_grows(wanted: Seq<WantedChannel>, addr: SocketNumber, i: int, j: int)
    requires
        0 <= i <= j <= wanted.len(),
    ensures
        0 <= count_at(wanted, addr, i) <= count_at(wanted, addr, j),
        i < j && wanted[i].adv.addr == addr ==> count_at(wanted, addr, i) < count_at(wanted, addr, j),
    decreases j,
{
    if j > 0 {
        if i < j {
            lemma_count_at_grows(wanted, addr, i, j - 1);
        } else {
            lemma_count_at_grows(wanted, addr, i - 1, j - 1);
        }
    }
}

/// Two wanted channels never get the same free slot.
pub proof fn slots_are_given_once(wanted: Seq<WantedChannel>, free: Seq<FreeSlot>, i: int, j: int)
    requires
        0 <= i < j < wanted.len(),
        slot_for(wanted, free, i) < free.len(),
        slot_for(wanted, free, j) < free.len(),
    ensures
        slot_for(wanted, free, i) != slot_for(wanted, free, j),
        free[slot_for(wanted, free, i)].addr == wanted[i].adv.addr,
{
    let a = wanted[i].adv.addr;
    let b = wanted[j].adv.addr;
    lemma_count_at_grows(wanted, a, i, j);
    lemma_count_at_grows(wanted, b, j, j);
    lemma_nth_slot(free, a, count_at(wanted, a, i), 0);
    lemma_nth_slot(free, b, count_at(wanted, b, j), 0);
    if a == b {
        lemma_nth_slot_grows(free, a, count_at(wanted, a, i), count_at(wanted, a, j));
    }
}

/// Every update which uses a free slot connects to a channel of a flow that nobody uses.
pub proof fn slot_updates_use_free_slots(
    flows: Seq<Option<FlowView>>,
    wanted: Seq<WantedChannel>,
    free: Seq<FreeSlot>,
    n: int,
)
    requires
        0 <= n <= wanted.len(),
        forall|i: int| 0 <= i < free.len() ==> is_free_slot(flows, #[trigger] free[i]),
    ensures
        forall|u: int|
            0 <= u < slot_updates(wanted, free, n).len() ==> {
                let remote = (#[trigger] slot_updates(wanted, free, n)[u]).remote;
                exists|s: int|
                    0 <= s < free.len() && (#[trigger] free[s]).flow_index == remote.local_flow_index
                        && free[s].channel_in_flow == remote.channel_in_flow
            },
    decreases n,
{
    if n > 0 {
        slot_updates_use_free_slots(flows, wanted, free, n - 1);
        let before = slot_updates(wanted, free, n - 1);
        let all = slot_updates(wanted, free, n);
        lemma_count_at_grows(wanted, wanted[n - 1].adv.addr, n - 1, n - 1);
        lemma_nth_slot(free, wanted[n - 1].adv.addr, count_at(wanted, wanted[n - 1].adv.addr, n - 1), 0);
        assert forall|u: int| 0 <= u < all.len() implies {
            let remote = (#[trigger] all[u]).remote;
            exists|s: int|
                0 <= s < free.len() && (#[trigger] free[s]).flow_index == remote.local_flow_index
                    && free[s].channel_in_flow == remote.channel_in_flow
        } by {
            if u < before.len() {
                assert(all[u] == before[u]);
            } else {
                let s = slot_for(wanted, free, n - 1);
                assert(free[s].flow_index == all[u].remote.local_flow_index);
            }
        }
    }
}

// ---------------------------------------------------------------------------------------------
// The plan for the answers
// ---------------------------------------------------------------------------------------------

/// What is to be done about the answers of transmitters.
pub struct AnswerPlan {
    /// updates which can be made at once
    pub resolved: Vec<ChannelSourceUpdate>,
    /// requests that flows carry other channels
    pub requests: Vec<FlowUpdateRequest>,
    /// channels which need new flows
    pub remaining: Vec<WantedChannel>,
    /// channels which are available in multicast
    pub in_multicast: Vec<WantedBundleChannel>,
}

/// Decides about the answers of transmitters: which channels are received already, which can be
/// put into flows that exist, and which need new flows.
pub fn plan_answers(
    channels: &Vec<Option<ChannelSubscription>>,
    flows: &Vec<Option<Flow>>,
    answers: &Vec<ChannelAnswer>,
) -> (plan: AnswerPlan)
    requires
        forall|i: int|
            0 <= i < answers@.len() ==> (#[trigger] answers@[i]).local_channel_index < channels@.len()
                && channels@[answers@[i].local_channel_index as int] is Some,
        forall|f: int|
            0 <= f < flows@.len() && #[trigger] flows_view(flows@)[f] is Some ==> flows_view(
                flows@,
            )[f]->0.wf(),
        forall|f: int|
            0 <= f < flows@.len() && #[trigger] flows_view(flows@)[f] is Some && flows_view(
                flows@,
            )[f]->0.source is Unicast ==> is_granted(flows_view(flows@)[f]),
    ensures
        is_wanted_in_multicast(plan.in_multicast@, channels@, answers@, answers@.len() as int),
        ({
            let asked = wanted_channels(answers@, answers@.len() as int);
            let wanted = from_consistent_servers(asked, asked.len() as int);
            let found = existing_sources(
                flows_view(flows@),
                wanted,
                plan.in_multicast@,
                flows@.len() as int,
            );
            let updates = slot_updates(found.remaining, found.free, found.remaining.len() as int);
            &&& plan.resolved@ == found.resolved
            &&& are_flow_update_requests(
                plan.requests@,
                flows_view(flows@),
                updates,
                flows@.len() as int,
            )
            &&& plan.remaining@ == without_slots(
                found.remaining,
                found.free,
                found.remaining.len() as int,
            )
        }),
{
    let (asked, in_multicast) = sort_answers(channels, answers);
    let wanted = drop_bad_servers(&asked);
    let ghost views = flows_view(flows@);
    let ghost wanted0 = wanted@;
    let (resolved, others, free) = use_existing_flows(flows, wanted, &in_multicast);
    let (updates, remaining) = use_free_slots(&others, &free);
    let n: usize = flows.len();
    proof {
        assert forall|f: int| 0 <= f < views.len() && #[trigger] views[f] is Some implies views[f]->0.channels_refcount.len()
            <= usize::MAX by {
            assert(views[f] == Some(flows@[f]->0@));
            let v = flows@[f]->0.channels_refcount;
            assert(v@.len() == v.len());
        }
        lemma_free_slots(views, wanted0, in_multicast@, flows@.len() as int);
        slot_updates_use_free_slots(views, others@, free@, others@.len() as int);
        assert forall|i: int| 0 <= i < updates@.len() implies is_possible_update(views, #[trigger] updates@[i]) by {
            let remote = updates@[i].remote;
            let s = choose|s: int|
                0 <= s < free@.len() && (#[trigger] free@[s]).flow_index == remote.local_flow_index
                    && free@[s].channel_in_flow == remote.channel_in_flow;
            assert(is_free_slot(views, free@[s]));
        }
    }
    let requests = plan_flow_updates(flows, &updates);
    AnswerPlan { resolved, requests, remaining, in_multicast }
}

} // verus!

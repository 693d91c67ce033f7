//! What the decisions about subscriptions are for: every channel gets its samples from the channel and
//! the transmitter which it is subscribed to, and from nothing else.

use crate::channels_subscriber::{
    are_flow_update_requests, bundle_name, bundle_updates, carried_updates, channels_at, chunk_at, chunk_updates, count_at,
    existing_sources, first_connected_alike, first_unused, flow_for_chunk, flow_name, flow_update_request, flows_for_server,
    frames_per_packet, free_slots, from_consistent_servers, is_bundle_received, is_bundle_wanted, is_heads_of, is_wanted_in_multicast, known_source,
    known_sources, latency_samples, not_carried, nth_slot, position_of, slot_for, slot_updates, tx_channels_after,
    unknown_sources, updates_of_flow, wanted_channels, with_new_flow, without_slots, ChannelAnswer,
    ChannelSourceUpdate, ChannelSubscription, FlowSourceView, FlowUpdateRequest, FlowView, FreeSlot, NewFlowView, ReceiverParameters,
    WantedBundleChannel, WantedChannel,
};
use crate::text::{decimal, decimal_is_read_back, lemma_decimal_digits};
use vstd::prelude::*;

verus! {

// ---------------------------------------------------------------------------------------------
// Channels which need a source
// ---------------------------------------------------------------------------------------------

/// A channel stands for another one, or for itself, exactly if both are subscribed but not connected,
/// and to the same channel of the same transmitter; it is the first such channel.
pub proof fn heads_stand_for_the_same_source(
    channels: Seq<Option<ChannelSubscription>>,
    heads: Seq<Option<usize>>,
    i: int,
)
    requires
        is_heads_of(heads, channels),
        0 <= i < channels.len(),
    ensures
        heads.len() == channels.len(),
        heads[i] is Some <==> channels[i] is Some && channels[i]->0.remote is None,
        heads[i] matches Some(h) ==> {
            &&& h <= i
            &&& channels[h as int] is Some
            &&& channels[h as int]->0.remote is None
            &&& channels[h as int]->0.tx_hostname@ == channels[i]->0.tx_hostname@
            &&& channels[h as int]->0.tx_channel_name@ == channels[i]->0.tx_channel_name@
            &&& forall|k: int|
                0 <= k < h && #[trigger] channels[k] is Some && channels[k]->0.remote is None
                    ==> channels[k]->0.tx_hostname@ != channels[i]->0.tx_hostname@
                    || channels[k]->0.tx_channel_name@ != channels[i]->0.tx_channel_name@
        },
{
    assert(match heads[i] {
        Some(h) => crate::channels_subscriber::is_head_of(channels, h as int, i),
        None => true,
    });
    if let Some(h) = heads[i] {
        assert forall|k: int| 0 <= k < h && #[trigger] channels[k] is Some && channels[k]->0.remote is None implies
            channels[k]->0.tx_hostname@ != channels[i]->0.tx_hostname@ || channels[k]->0.tx_channel_name@
                != channels[i]->0.tx_channel_name@ by {
            assert(crate::channels_subscriber::needs_source(channels, k));
        }
    }
}

proof fn lemma_first_connected_alike(channels: Seq<Option<ChannelSubscription>>, i: int, j: int)
    requires
        0 <= j <= channels.len(),
    ensures
        ({
            let f = first_connected_alike(channels, i, j);
            &&& j <= f <= channels.len()
            &&& f < channels.len() ==> crate::channels_subscriber::is_connected_alike(channels, f, i)
            &&& forall|k: int| j <= k < f ==> !#[trigger] crate::channels_subscriber::is_connected_alike(channels, k, i)
        }),
    decreases channels.len() - j,
{
    if j < channels.len() && !crate::channels_subscriber::is_connected_alike(channels, j, i) {
        lemma_first_connected_alike(channels, i, j + 1);
    }
}

proof fn lemma_known_source(channels: Seq<Option<ChannelSubscription>>, i: int)
    requires
        0 <= i < channels.len(),
        channels[i] is Some,
    ensures
        known_source(channels, i) is Some ==> exists|j: int|
            0 <= j < channels.len() && #[trigger] channels[j] is Some && channels[j]->0.remote == known_source(
                channels,
                i,
            ) && channels[j]->0.tx_hostname@ == channels[i]->0.tx_hostname@ && channels[j]->0.tx_channel_name@
                == channels[i]->0.tx_channel_name@,
        known_source(channels, i) is None ==> forall|j: int|
            0 <= j < channels.len() && #[trigger] channels[j] is Some && channels[j]->0.remote is Some
                ==> channels[j]->0.tx_hostname@ != channels[i]->0.tx_hostname@ || channels[j]->0.tx_channel_name@
                != channels[i]->0.tx_channel_name@,
{
    lemma_first_connected_alike(channels, i, 0);
    let f = first_connected_alike(channels, i, 0);
    if known_source(channels, i) is Some {
        assert(channels[f] is Some);
    } else {
        assert forall|j: int| 0 <= j < channels.len() && #[trigger] channels[j] is Some && channels[j]->0.remote is Some
            implies channels[j]->0.tx_hostname@ != channels[i]->0.tx_hostname@ || channels[j]->0.tx_channel_name@
            != channels[i]->0.tx_channel_name@ by {
            assert(!crate::channels_subscriber::is_connected_alike(channels, j, i));
        }
    }
}

/// A source which is known already is used for a channel only if a channel is connected to it which
/// is subscribed to the same channel of the same transmitter.
pub proof fn reused_source_is_the_subscribed_one(
    channels: Seq<Option<ChannelSubscription>>,
    heads: Seq<Option<usize>>,
    n: int,
)
    requires
        is_heads_of(heads, channels),
        0 <= n <= channels.len(),
    ensures
        forall|u: int|
            0 <= u < known_sources(channels, heads, n).len() ==> {
                let update = #[trigger] known_sources(channels, heads, n)[u];
                let i = update.local_channel_index as int;
                &&& i < n
                &&& channels[i] is Some
                &&& channels[i]->0.remote is None
                &&& exists|j: int|
                    0 <= j < channels.len() && #[trigger] channels[j] is Some && channels[j]->0.remote == Some(
                        update.remote,
                    ) && channels[j]->0.tx_hostname@ == channels[i]->0.tx_hostname@
                        && channels[j]->0.tx_channel_name@ == channels[i]->0.tx_channel_name@
            },
    decreases n,
{
    if n > 0 {
        reused_source_is_the_subscribed_one(channels, heads, n - 1);
        let before = known_sources(channels, heads, n - 1);
        let all = known_sources(channels, heads, n);
        if heads[n - 1] == Some((n - 1) as usize) {
            heads_stand_for_the_same_source(channels, heads, n - 1);
            lemma_known_source(channels, n - 1);
        }
        assert forall|u: int| 0 <= u < all.len() implies {
            let update = #[trigger] all[u];
            let i = update.local_channel_index as int;
            &&& i < n
            &&& channels[i] is Some
            &&& channels[i]->0.remote is None
            &&& exists|j: int|
                0 <= j < channels.len() && #[trigger] channels[j] is Some && channels[j]->0.remote == Some(
                    update.remote,
                ) && channels[j]->0.tx_hostname@ == channels[i]->0.tx_hostname@
                    && channels[j]->0.tx_channel_name@ == channels[i]->0.tx_channel_name@
        } by {
            if u < before.len() {
                assert(all[u] == before[u]);
            }
        }
    }
}

/// A transmitter is asked for a channel only if no channel is connected which is subscribed to the same
/// channel of the same transmitter.
pub proof fn only_unknown_sources_are_asked_for(
    channels: Seq<Option<ChannelSubscription>>,
    heads: Seq<Option<usize>>,
    n: int,
)
    requires
        is_heads_of(heads, channels),
        0 <= n <= channels.len(),
    ensures
        forall|u: int|
            0 <= u < unknown_sources(channels, heads, n).len() ==> {
                let i = #[trigger] unknown_sources(channels, heads, n)[u] as int;
                &&& i < n
                &&& channels[i] is Some
                &&& channels[i]->0.remote is None
                &&& forall|j: int|
                    0 <= j < channels.len() && #[trigger] channels[j] is Some && channels[j]->0.remote is Some
                        ==> channels[j]->0.tx_hostname@ != channels[i]->0.tx_hostname@
                        || channels[j]->0.tx_channel_name@ != channels[i]->0.tx_channel_name@
            },
    decreases n,
{
    if n > 0 {
        only_unknown_sources_are_asked_for(channels, heads, n - 1);
        let before = unknown_sources(channels, heads, n - 1);
        let all = unknown_sources(channels, heads, n);
        if heads[n - 1] == Some((n - 1) as usize) {
            heads_stand_for_the_same_source(channels, heads, n - 1);
            lemma_known_source(channels, n - 1);
        }
        assert forall|u: int| 0 <= u < all.len() implies {
            let i = #[trigger] all[u] as int;
            &&& i < n
            &&& channels[i] is Some
            &&& channels[i]->0.remote is None
            &&& forall|j: int|
                0 <= j < channels.len() && #[trigger] channels[j] is Some && channels[j]->0.remote is Some
                    ==> channels[j]->0.tx_hostname@ != channels[i]->0.tx_hostname@
                    || channels[j]->0.tx_channel_name@ != channels[i]->0.tx_channel_name@
        } by {
            if u < before.len() {
                assert(all[u] == before[u]);
            }
        }
    }
}

/// Every channel which stands for itself either gets a known source or is asked for.
pub proof fn no_channel_is_forgotten(
    channels: Seq<Option<ChannelSubscription>>,
    heads: Seq<Option<usize>>,
    n: int,
    i: int,
)
    requires
        0 <= i < n <= channels.len() <= usize::MAX,
        heads[i] == Some(i as usize),
    ensures
        unknown_sources(channels, heads, n).contains(i as usize) || exists|u: int|
            0 <= u < known_sources(channels, heads, n).len() && (#[trigger] known_sources(channels, heads, n)[u]).local_channel_index
                == i,
    decreases n,
{
    let known = known_sources(channels, heads, n);
    let unknown = unknown_sources(channels, heads, n);
    if i == n - 1 {
        if known_source(channels, i) is Some {
            assert(known[known.len() - 1].local_channel_index == i);
        } else {
            assert(unknown[unknown.len() - 1] == i as usize);
        }
    } else {
        no_channel_is_forgotten(channels, heads, n - 1, i);
        let known0 = known_sources(channels, heads, n - 1);
        let unknown0 = unknown_sources(channels, heads, n - 1);
        if unknown0.contains(i as usize) {
            let u = choose|u: int| 0 <= u < unknown0.len() && unknown0[u] == i as usize;
            assert(unknown[u] == i as usize);
        } else {
            let u = choose|u: int| 0 <= u < known0.len() && (#[trigger] known0[u]).local_channel_index == i;
            assert(known[u] == known0[u]);
        }
    }
}

// ---------------------------------------------------------------------------------------------
// Answers of transmitters
// ---------------------------------------------------------------------------------------------

/// A channel is wanted from a transmitter exactly if the transmitter has answered and does not offer it
/// in multicast; what it has answered is kept.
pub proof fn wanted_channels_are_answered(answers: Seq<ChannelAnswer>, n: int)
    requires
        0 <= n <= answers.len(),
    ensures
        forall|u: int|
            0 <= u < wanted_channels(answers, n).len() ==> {
                let w = #[trigger] wanted_channels(answers, n)[u];
                exists|a: int|
                    0 <= a < n && (#[trigger] answers[a]).local_channel_index == w.local_channel_index
                        && answers[a].adv == Some(w.adv) && w.adv.multicast is None
            },
        forall|a: int|
            0 <= a < n && (#[trigger] answers[a]).adv is Some && answers[a].adv->0.multicast is None
                ==> wanted_channels(answers, n).contains(
                WantedChannel {
                    local_channel_index: answers[a].local_channel_index,
                    adv: answers[a].adv->0,
                },
            ),
    decreases n,
{
    if n > 0 {
        wanted_channels_are_answered(answers, n - 1);
        let before = wanted_channels(answers, n - 1);
        let all = wanted_channels(answers, n);
        let a0 = answers[n - 1];
        assert forall|u: int| 0 <= u < all.len() implies {
            let w = #[trigger] all[u];
            exists|a: int|
                0 <= a < n && (#[trigger] answers[a]).local_channel_index == w.local_channel_index
                    && answers[a].adv == Some(w.adv) && w.adv.multicast is None
        } by {
            if u < before.len() {
                assert(all[u] == before[u]);
            } else {
                assert(answers[n - 1].local_channel_index == all[u].local_channel_index);
            }
        }
        assert forall|a: int| 0 <= a < n && (#[trigger] answers[a]).adv is Some && answers[a].adv->0.multicast is None implies all.contains(
            WantedChannel { local_channel_index: answers[a].local_channel_index, adv: answers[a].adv->0 },
        ) by {
            let w = WantedChannel { local_channel_index: answers[a].local_channel_index, adv: answers[a].adv->0 };
            if a == n - 1 {
                assert(all[all.len() - 1] == w);
            } else {
                let u = choose|u: int| 0 <= u < before.len() && before[u] == w;
                assert(all[u] == w);
            }
        }
    }
}

/// A channel which is offered in multicast is looked for in the multicast flow of the transmitter which
/// the local channel is subscribed to, with the number, the place and the identifier that were answered.
pub proof fn channels_in_multicast_are_answered(
    wanted: Seq<WantedBundleChannel>,
    channels: Seq<Option<ChannelSubscription>>,
    answers: Seq<ChannelAnswer>,
    n: int,
)
    requires
        is_wanted_in_multicast(wanted, channels, answers, n),
        0 <= n <= answers.len(),
    ensures
        forall|u: int|
            0 <= u < wanted.len() ==> {
                let w = #[trigger] wanted[u];
                exists|a: int|
                    0 <= a < n && (#[trigger] answers[a]).local_channel_index == w.local_channel_index
                        && answers[a].adv is Some && answers[a].adv->0.multicast is Some && w.tx_channel_id
                        == answers[a].adv->0.tx_channel_id && w.channel_in_bundle
                        == answers[a].adv->0.multicast->0.channel_in_bundle && w.bundle_full_name@ == decimal(
                        answers[a].adv->0.multicast->0.bundle_id as nat,
                    ) + seq!['@'] + channels[w.local_channel_index as int]->0.tx_hostname@
            },
    decreases n,
{
    if n > 0 {
        let a0 = answers[n - 1];
        if a0.adv is Some && a0.adv->0.multicast is Some {
            let before = wanted.drop_last();
            channels_in_multicast_are_answered(before, channels, answers, n - 1);
            assert forall|u: int| 0 <= u < wanted.len() implies {
                let w = #[trigger] wanted[u];
                exists|a: int|
                    0 <= a < n && (#[trigger] answers[a]).local_channel_index == w.local_channel_index
                        && answers[a].adv is Some && answers[a].adv->0.multicast is Some && w.tx_channel_id
                        == answers[a].adv->0.tx_channel_id && w.channel_in_bundle
                        == answers[a].adv->0.multicast->0.channel_in_bundle && w.bundle_full_name@ == decimal(
                        answers[a].adv->0.multicast->0.bundle_id as nat,
                    ) + seq!['@'] + channels[w.local_channel_index as int]->0.tx_hostname@
            } by {
                if u < before.len() {
                    assert(wanted[u] == before[u]);
                } else {
                    let d = decimal(a0.adv->0.multicast->0.bundle_id as nat);
                    assert(d.push('@') =~= d + seq!['@']);
                    assert(answers[n - 1].local_channel_index == wanted[u].local_channel_index);
                }
            }
        } else {
            channels_in_multicast_are_answered(wanted, channels, answers, n - 1);
        }
    }
}

/// The channels which are kept are wanted ones, and those of one transmitter agree in the size of its
/// flows, in the bits of a sample and in the number which it is asked with. None is dropped from a
/// transmitter whose answers agree.
pub proof fn kept_channels_agree(wanted: Seq<WantedChannel>, n: int)
    requires
        0 <= n <= wanted.len(),
    ensures
        forall|u: int|
            0 <= u < from_consistent_servers(wanted, n).len() ==> {
                let w = #[trigger] from_consistent_servers(wanted, n)[u];
                &&& wanted.contains(w)
                &&& forall|i: int|
                    0 <= i < wanted.len() && (#[trigger] wanted[i]).adv.addr == w.adv.addr
                        ==> wanted[i].adv.tx_channels_per_flow == w.adv.tx_channels_per_flow
                        && wanted[i].adv.bits_per_sample == w.adv.bits_per_sample && wanted[i].adv.dbcp1
                        == w.adv.dbcp1
            },
        forall|i: int|
            0 <= i < n && (forall|a: int, b: int|
                #![trigger wanted[a], wanted[b]]
                0 <= a < wanted.len() && 0 <= b < wanted.len() && wanted[a].adv.addr == wanted[i].adv.addr
                    && wanted[b].adv.addr == wanted[i].adv.addr ==> wanted[a].adv.tx_channels_per_flow
                    == wanted[b].adv.tx_channels_per_flow && wanted[a].adv.bits_per_sample
                    == wanted[b].adv.bits_per_sample && wanted[a].adv.dbcp1 == wanted[b].adv.dbcp1)
                ==> from_consistent_servers(wanted, n).contains(#[trigger] wanted[i]),
    decreases n,
{
    if n > 0 {
        kept_channels_agree(wanted, n - 1);
        let before = from_consistent_servers(wanted, n - 1);
        let all = from_consistent_servers(wanted, n);
        let w0 = wanted[n - 1];
        assert forall|u: int| 0 <= u < all.len() implies {
            let w = #[trigger] all[u];
            &&& wanted.contains(w)
            &&& forall|i: int|
                0 <= i < wanted.len() && (#[trigger] wanted[i]).adv.addr == w.adv.addr
                    ==> wanted[i].adv.tx_channels_per_flow == w.adv.tx_channels_per_flow
                    && wanted[i].adv.bits_per_sample == w.adv.bits_per_sample && wanted[i].adv.dbcp1 == w.adv.dbcp1
        } by {
            if u < before.len() {
                assert(all[u] == before[u]);
            } else {
                assert(all[u] == wanted[n - 1]);
                assert forall|i: int| 0 <= i < wanted.len() && (#[trigger] wanted[i]).adv.addr == w0.adv.addr implies
                    wanted[i].adv.tx_channels_per_flow == w0.adv.tx_channels_per_flow
                    && wanted[i].adv.bits_per_sample == w0.adv.bits_per_sample && wanted[i].adv.dbcp1 == w0.adv.dbcp1 by {
                    assert(crate::channels_subscriber::agree(wanted[i].adv, wanted[n - 1].adv));
                }
            }
        }
        assert forall|i: int|
            0 <= i < n && (forall|a: int, b: int|
                #![trigger wanted[a], wanted[b]]
                0 <= a < wanted.len() && 0 <= b < wanted.len() && wanted[a].adv.addr == wanted[i].adv.addr
                    && wanted[b].adv.addr == wanted[i].adv.addr ==> wanted[a].adv.tx_channels_per_flow
                    == wanted[b].adv.tx_channels_per_flow && wanted[a].adv.bits_per_sample
                    == wanted[b].adv.bits_per_sample && wanted[a].adv.dbcp1 == wanted[b].adv.dbcp1) implies all.contains(
            #[trigger] wanted[i],
        ) by {
            if i == n - 1 {
                assert(crate::channels_subscriber::is_consistent_server(wanted, w0.adv.addr));
                assert(all[all.len() - 1] == wanted[i]);
            } else {
                assert(before.contains(wanted[i]));
                let u = choose|u: int| 0 <= u < before.len() && before[u] == wanted[i];
                assert(all[u] == wanted[i]);
            }
        }
    }
}

// ---------------------------------------------------------------------------------------------
// Flows which exist already
// ---------------------------------------------------------------------------------------------

/// Whether the update connects a wanted channel to the place of a flow where its transmitter sends it.
pub open spec fn is_received_already(
    flows: Seq<Option<FlowView>>,
    wanted: Seq<WantedChannel>,
    update: ChannelSourceUpdate,
) -> bool {
    let f = update.remote.local_flow_index as int;
    &&& 0 <= f < flows.len()
    &&& flows[f] is Some
    &&& flows[f]->0.source is Unicast
    &&& update.remote.channel_in_flow < flows[f]->0.tx_channels.len()
    &&& flows[f]->0.tx_channels[update.remote.channel_in_flow as int] == Some(update.remote.tx_channel_id)
    &&& exists|i: int|
        0 <= i < wanted.len() && (#[trigger] wanted[i]).local_channel_index == update.local_channel_index
            && wanted[i].adv.tx_channel_id == update.remote.tx_channel_id && wanted[i].adv.addr
            == flows[f]->0.source->Unicast_control_remote_addr
}

/// Whether the update connects a channel to the place in the multicast flow where it was offered.
pub open spec fn is_received_in_multicast(
    flows: Seq<Option<FlowView>>,
    in_multicast: Seq<WantedBundleChannel>,
    update: ChannelSourceUpdate,
) -> bool {
    let f = update.remote.local_flow_index as int;
    &&& 0 <= f < flows.len()
    &&& flows[f] is Some
    &&& flows[f]->0.source is Multicast
    &&& exists|i: int|
        0 <= i < in_multicast.len() && (#[trigger] in_multicast[i]).local_channel_index
            == update.local_channel_index && in_multicast[i].tx_channel_id == update.remote.tx_channel_id
            && in_multicast[i].channel_in_bundle == update.remote.channel_in_flow
            && in_multicast[i].bundle_full_name@ == flows[f]->0.source->Multicast_bundle_full_name
}

proof fn lemma_position_of(tx_channels: Seq<Option<u16>>, id: u16, from: int)
    requires
        0 <= from <= tx_channels.len(),
    ensures
        from <= position_of(tx_channels, id, from) <= tx_channels.len(),
        position_of(tx_channels, id, from) < tx_channels.len() ==> tx_channels[position_of(tx_channels, id, from)]
            == Some(id),
        position_of(tx_channels, id, from) == tx_channels.len() ==> forall|k: int|
            from <= k < tx_channels.len() ==> #[trigger] tx_channels[k] != Some(id),
    decreases tx_channels.len() - from,
{
    if from < tx_channels.len() && tx_channels[from] != Some(id) {
        lemma_position_of(tx_channels, id, from + 1);
    }
}

proof fn lemma_carried_updates(
    flows: Seq<Option<FlowView>>,
    f: int,
    remaining: Seq<WantedChannel>,
    wanted: Seq<WantedChannel>,
)
    requires
        0 <= f < flows.len() <= usize::MAX,
        flows[f] is Some,
        flows[f]->0.source is Unicast,
        flows[f]->0.tx_channels.len() <= usize::MAX,
        forall|i: int| 0 <= i < remaining.len() ==> wanted.contains(#[trigger] remaining[i]),
    ensures
        forall|u: int|
            0 <= u < carried_updates(flows[f]->0, f, remaining).len() ==> {
                let update = #[trigger] carried_updates(flows[f]->0, f, remaining)[u];
                is_received_already(flows, wanted, update) && update.remote.local_flow_index == f
            },
        forall|i: int| 0 <= i < not_carried(flows[f]->0, remaining).len() ==> {
            let w = #[trigger] not_carried(flows[f]->0, remaining)[i];
            remaining.contains(w) && !(w.adv.addr == flows[f]->0.source->Unicast_control_remote_addr && exists|k: int|
                0 <= k < flows[f]->0.tx_channels.len() && #[trigger] flows[f]->0.tx_channels[k] == Some(
                    w.adv.tx_channel_id,
                ))
        },
        forall|i: int|
            0 <= i < remaining.len() ==> not_carried(flows[f]->0, remaining).contains(#[trigger] remaining[i])
                || exists|u: int|
                0 <= u < carried_updates(flows[f]->0, f, remaining).len() && (#[trigger] carried_updates(
                    flows[f]->0,
                    f,
                    remaining,
                )[u]).local_channel_index == remaining[i].local_channel_index,
    decreases remaining.len(),
{
    let flow = flows[f]->0;
    if remaining.len() > 0 {
        let rest = remaining.drop_last();
        assert forall|i: int| 0 <= i < rest.len() implies wanted.contains(#[trigger] rest[i]) by {
            assert(rest[i] == remaining[i]);
        }
        lemma_carried_updates(flows, f, rest, wanted);
        let w0 = remaining.last();
        assert(wanted.contains(remaining[remaining.len() - 1]));
        lemma_position_of(flow.tx_channels, w0.adv.tx_channel_id, 0);
        let updates0 = carried_updates(flow, f, rest);
        let updates = carried_updates(flow, f, remaining);
        let others0 = not_carried(flow, rest);
        let others = not_carried(flow, remaining);
        assert forall|u: int| 0 <= u < updates.len() implies {
            let update = #[trigger] updates[u];
            is_received_already(flows, wanted, update) && update.remote.local_flow_index == f
        } by {
            if u < updates0.len() {
                assert(updates[u] == updates0[u]);
            } else {
                let i = choose|i: int| 0 <= i < wanted.len() && wanted[i] == w0;
                assert(wanted[i].local_channel_index == updates[u].local_channel_index);
            }
        }
        assert forall|i: int| 0 <= i < others.len() implies {
            let w = #[trigger] others[i];
            remaining.contains(w) && !(w.adv.addr == flow.source->Unicast_control_remote_addr && exists|k: int|
                0 <= k < flow.tx_channels.len() && #[trigger] flow.tx_channels[k] == Some(w.adv.tx_channel_id))
        } by {
            if i < others0.len() {
                assert(others[i] == others0[i]);
                let k = choose|k: int| 0 <= k < rest.len() && rest[k] == others0[i];
                assert(remaining[k] == others0[i]);
            } else {
                assert(remaining[remaining.len() - 1] == others[i]);
            }
        }
        assert forall|i: int| 0 <= i < remaining.len() implies others.contains(#[trigger] remaining[i]) || exists|u: int|
            0 <= u < updates.len() && (#[trigger] updates[u]).local_channel_index == remaining[i].local_channel_index by {
            if i == remaining.len() - 1 {
                if crate::channels_subscriber::carries(flow, w0) {
                    assert(updates[updates.len() - 1].local_channel_index == remaining[i].local_channel_index);
                } else {
                    assert(others[others.len() - 1] == remaining[i]);
                }
            } else {
                assert(rest[i] == remaining[i]);
                if others0.contains(rest[i]) {
                    let k = choose|k: int| 0 <= k < others0.len() && others0[k] == rest[i];
                    assert(others[k] == rest[i]);
                } else {
                    let u = choose|u: int|
                        0 <= u < updates0.len() && (#[trigger] updates0[u]).local_channel_index == rest[i].local_channel_index;
                    assert(updates[u] == updates0[u]);
                }
            }
        }
    }
}

proof fn lemma_bundle_updates(
    flows: Seq<Option<FlowView>>,
    f: int,
    wanted: Seq<WantedBundleChannel>,
    all: Seq<WantedBundleChannel>,
)
    requires
        0 <= f < flows.len() <= usize::MAX,
        flows[f] is Some,
        flows[f]->0.source is Multicast,
        forall|i: int| 0 <= i < wanted.len() ==> all.contains(#[trigger] wanted[i]),
    ensures
        forall|u: int|
            0 <= u < bundle_updates(flows[f]->0.source->Multicast_bundle_full_name, f, wanted).len()
                ==> is_received_in_multicast(
                flows,
                all,
                #[trigger] bundle_updates(flows[f]->0.source->Multicast_bundle_full_name, f, wanted)[u],
            ),
    decreases wanted.len(),
{
    let name = flows[f]->0.source->Multicast_bundle_full_name;
    if wanted.len() > 0 {
        let rest = wanted.drop_last();
        assert forall|i: int| 0 <= i < rest.len() implies all.contains(#[trigger] rest[i]) by {
            assert(rest[i] == wanted[i]);
        }
        lemma_bundle_updates(flows, f, rest, all);
        assert(all.contains(wanted[wanted.len() - 1]));
        let before = bundle_updates(name, f, rest);
        let updates = bundle_updates(name, f, wanted);
        assert forall|u: int| 0 <= u < updates.len() implies is_received_in_multicast(flows, all, #[trigger] updates[u]) by {
            if u < before.len() {
                assert(updates[u] == before[u]);
            } else {
                let i = choose|i: int| 0 <= i < all.len() && all[i] == wanted.last();
                assert(all[i].local_channel_index == updates[u].local_channel_index);
            }
        }
    }
}

proof fn lemma_free_slots_of_flow(flow: FlowView, addr: u64, f: int, updates: Seq<ChannelSourceUpdate>, n: int)
    requires
        0 <= n <= flow.channels_refcount.len() <= usize::MAX,
        0 <= f <= usize::MAX,
    ensures
        forall|s: int|
            0 <= s < free_slots(flow, addr, f, updates, n).len() ==> {
                let slot = #[trigger] free_slots(flow, addr, f, updates, n)[s];
                &&& slot.addr == addr
                &&& slot.flow_index == f
                &&& slot.channel_in_flow < n
                &&& flow.channels_refcount[slot.channel_in_flow as int] <= 0
            },
    decreases n,
{
    if n > 0 {
        lemma_free_slots_of_flow(flow, addr, f, updates, n - 1);
        let before = free_slots(flow, addr, f, updates, n - 1);
        let all = free_slots(flow, addr, f, updates, n);
        assert forall|s: int| 0 <= s < all.len() implies {
            let slot = #[trigger] all[s];
            &&& slot.addr == addr
            &&& slot.flow_index == f
            &&& slot.channel_in_flow < n
            &&& flow.channels_refcount[slot.channel_in_flow as int] <= 0
        } by {
            if s < before.len() {
                assert(all[s] == before[s]);
            }
        }
    }
}

/// A channel is connected to a flow which exists only if the flow comes from the transmitter which
/// offers the channel and carries it at that place, or is the multicast flow in which it was offered. A
/// channel remains only if no flow of its transmitter carries it. No wanted channel is forgotten. A
/// place of a flow is free only if nobody uses it, and for channels of the same transmitter.
pub proof fn existing_flows_carry_what_is_wanted(
    flows: Seq<Option<FlowView>>,
    wanted: Seq<WantedChannel>,
    in_multicast: Seq<WantedBundleChannel>,
    n: int,
)
    requires
        0 <= n <= flows.len() <= usize::MAX,
        forall|f: int|
            0 <= f < flows.len() && #[trigger] flows[f] is Some ==> flows[f]->0.tx_channels.len() <= usize::MAX
                && flows[f]->0.channels_refcount.len() <= usize::MAX,
    ensures
        forall|u: int|
            0 <= u < existing_sources(flows, wanted, in_multicast, n).resolved.len() ==> {
                let update = #[trigger] existing_sources(flows, wanted, in_multicast, n).resolved[u];
                is_received_already(flows, wanted, update) || is_received_in_multicast(flows, in_multicast, update)
            },
        forall|i: int|
            0 <= i < existing_sources(flows, wanted, in_multicast, n).remaining.len() ==> {
                let w = #[trigger] existing_sources(flows, wanted, in_multicast, n).remaining[i];
                wanted.contains(w) && forall|f: int, k: int|
                    #![trigger flows[f]->0.tx_channels[k]]
                    0 <= f < n && flows[f] is Some && flows[f]->0.source is Unicast
                        && flows[f]->0.source->Unicast_control_remote_addr == w.adv.addr && 0 <= k
                        < flows[f]->0.tx_channels.len() ==> flows[f]->0.tx_channels[k] != Some(w.adv.tx_channel_id)
            },
        forall|i: int|
            0 <= i < wanted.len() ==> existing_sources(flows, wanted, in_multicast, n).remaining.contains(
                #[trigger] wanted[i],
            ) || exists|u: int|
                0 <= u < existing_sources(flows, wanted, in_multicast, n).resolved.len() && (
                #[trigger] existing_sources(flows, wanted, in_multicast, n).resolved[u]).local_channel_index
                    == wanted[i].local_channel_index,
        forall|s: int|
            0 <= s < existing_sources(flows, wanted, in_multicast, n).free.len() ==> {
                let slot = #[trigger] existing_sources(flows, wanted, in_multicast, n).free[s];
                &&& slot.flow_index < n
                &&& flows[slot.flow_index as int] is Some
                &&& flows[slot.flow_index as int]->0.source is Unicast
                &&& flows[slot.flow_index as int]->0.source->Unicast_control_remote_addr == slot.addr
                &&& slot.channel_in_flow < flows[slot.flow_index as int]->0.channels_refcount.len()
                &&& flows[slot.flow_index as int]->0.channels_refcount[slot.channel_in_flow as int] <= 0
            },
    decreases n,
{
    let found = existing_sources(flows, wanted, in_multicast, n);
    if n <= 0 {
        assert forall|i: int| 0 <= i < wanted.len() implies found.remaining.contains(#[trigger] wanted[i]) by {}
        assert forall|i: int| 0 <= i < found.remaining.len() implies wanted.contains(#[trigger] found.remaining[i]) by {
            assert(wanted[i] == found.remaining[i]);
        }
    } else {
        existing_flows_carry_what_is_wanted(flows, wanted, in_multicast, n - 1);
        let before = existing_sources(flows, wanted, in_multicast, n - 1);
        let f = n - 1;
        if flows[f] is Some && flows[f]->0.source is Unicast {
            let flow = flows[f]->0;
            assert forall|i: int| 0 <= i < before.remaining.len() implies wanted.contains(
                #[trigger] before.remaining[i],
            ) by {}
            lemma_carried_updates(flows, f, before.remaining, wanted);
            let updates = carried_updates(flow, f, before.remaining);
            let others = not_carried(flow, before.remaining);
            let addr = flow.source->Unicast_control_remote_addr;
            lemma_free_slots_of_flow(flow, addr, f, updates, flow.channels_refcount.len() as int);
            assert(found.resolved =~= before.resolved + updates);
            assert(found.remaining == others);
            assert forall|u: int| 0 <= u < found.resolved.len() implies {
                let update = #[trigger] found.resolved[u];
                is_received_already(flows, wanted, update) || is_received_in_multicast(flows, in_multicast, update)
            } by {
                if u < before.resolved.len() {
                    assert(found.resolved[u] == before.resolved[u]);
                } else {
                    assert(found.resolved[u] == updates[u - before.resolved.len()]);
                }
            }
            assert forall|i: int| 0 <= i < found.remaining.len() implies {
                let w = #[trigger] found.remaining[i];
                wanted.contains(w) && forall|g: int, k: int|
                    #![trigger flows[g]->0.tx_channels[k]]
                    0 <= g < n && flows[g] is Some && flows[g]->0.source is Unicast
                        && flows[g]->0.source->Unicast_control_remote_addr == w.adv.addr && 0 <= k
                        < flows[g]->0.tx_channels.len() ==> flows[g]->0.tx_channels[k] != Some(w.adv.tx_channel_id)
            } by {
                let w = others[i];
                assert(before.remaining.contains(w));
                let k0 = choose|k0: int| 0 <= k0 < before.remaining.len() && before.remaining[k0] == w;
                assert(before.remaining[k0] == w);
            }
            assert forall|i: int| 0 <= i < wanted.len() implies found.remaining.contains(#[trigger] wanted[i])
                || exists|u: int|
                0 <= u < found.resolved.len() && (#[trigger] found.resolved[u]).local_channel_index
                    == wanted[i].local_channel_index by {
                if before.remaining.contains(wanted[i]) {
                    let k = choose|k: int| 0 <= k < before.remaining.len() && before.remaining[k] == wanted[i];
                    assert(before.remaining[k] == wanted[i]);
                    if !others.contains(before.remaining[k]) {
                        let u = choose|u: int|
                            0 <= u < updates.len() && (#[trigger] updates[u]).local_channel_index
                                == before.remaining[k].local_channel_index;
                        assert(found.resolved[before.resolved.len() + u] == updates[u]);
                    }
                } else {
                    let u = choose|u: int|
                        0 <= u < before.resolved.len() && (#[trigger] before.resolved[u]).local_channel_index
                            == wanted[i].local_channel_index;
                    assert(found.resolved[u] == before.resolved[u]);
                }
            }
            let slots = free_slots(flow, addr, f, updates, flow.channels_refcount.len() as int);
            assert forall|s: int| 0 <= s < found.free.len() implies {
                let slot = #[trigger] found.free[s];
                &&& slot.flow_index < n
                &&& flows[slot.flow_index as int] is Some
                &&& flows[slot.flow_index as int]->0.source is Unicast
                &&& flows[slot.flow_index as int]->0.source->Unicast_control_remote_addr == slot.addr
                &&& slot.channel_in_flow < flows[slot.flow_index as int]->0.channels_refcount.len()
                &&& flows[slot.flow_index as int]->0.channels_refcount[slot.channel_in_flow as int] <= 0
            } by {
                if s < before.free.len() {
                    assert(found.free[s] == before.free[s]);
                } else {
                    assert(found.free[s] == slots[s - before.free.len()]);
                }
            }
        } else {
            if flows[f] is Some {
                assert(flows[f]->0.source is Multicast);
                assert forall|i: int| 0 <= i < in_multicast.len() implies in_multicast.contains(
                    #[trigger] in_multicast[i],
                ) by {}
                lemma_bundle_updates(flows, f, in_multicast, in_multicast);
                let updates = bundle_updates(flows[f]->0.source->Multicast_bundle_full_name, f, in_multicast);
                assert(found.resolved =~= before.resolved + updates);
                assert forall|u: int| 0 <= u < found.resolved.len() implies {
                    let update = #[trigger] found.resolved[u];
                    is_received_already(flows, wanted, update) || is_received_in_multicast(flows, in_multicast, update)
                } by {
                    if u < before.resolved.len() {
                        assert(found.resolved[u] == before.resolved[u]);
                    } else {
                        assert(found.resolved[u] == updates[u - before.resolved.len()]);
                    }
                }
                assert forall|i: int| 0 <= i < wanted.len() implies found.remaining.contains(#[trigger] wanted[i])
                    || exists|u: int|
                    0 <= u < found.resolved.len() && (#[trigger] found.resolved[u]).local_channel_index
                        == wanted[i].local_channel_index by {
                    if !before.remaining.contains(wanted[i]) {
                        let u = choose|u: int|
                            0 <= u < before.resolved.len() && (#[trigger] before.resolved[u]).local_channel_index
                                == wanted[i].local_channel_index;
                        assert(found.resolved[u] == before.resolved[u]);
                    }
                }
            }
        }
    }
}

// ---------------------------------------------------------------------------------------------
// Free places of flows
// ---------------------------------------------------------------------------------------------

proof fn lemma_nth_slot_is_of(free: Seq<FreeSlot>, addr: u64, rank: int, from: int)
    requires
        0 <= from <= free.len(),
    ensures
        from <= nth_slot(free, addr, rank, from) <= free.len(),
        nth_slot(free, addr, rank, from) < free.len() ==> free[nth_slot(free, addr, rank, from)].addr == addr,
    decreases free.len() - from,
{
    if from < free.len() {
        if free[from].addr != addr {
            lemma_nth_slot_is_of(free, addr, rank, from + 1);
        } else if rank > 0 {
            lemma_nth_slot_is_of(free, addr, rank - 1, from + 1);
        }
    }
}

/// A free place is given to a wanted channel only if it is in a flow of the transmitter which offers
/// the channel; the transmitter is asked for that channel. A channel remains, or gets a place.
pub proof fn free_places_are_given_to_channels_of_the_transmitter(
    wanted: Seq<WantedChannel>,
    free: Seq<FreeSlot>,
    n: int,
)
    requires
        0 <= n <= wanted.len(),
    ensures
        forall|u: int|
            0 <= u < slot_updates(wanted, free, n).len() ==> {
                let update = #[trigger] slot_updates(wanted, free, n)[u];
                exists|i: int, s: int|
                    0 <= i < n && 0 <= s < free.len() && (#[trigger] wanted[i]).local_channel_index
                        == update.local_channel_index && wanted[i].adv.tx_channel_id == update.remote.tx_channel_id
                        && (#[trigger] free[s]).addr == wanted[i].adv.addr && free[s].flow_index
                        == update.remote.local_flow_index && free[s].channel_in_flow
                        == update.remote.channel_in_flow
            },
        forall|i: int|
            0 <= i < n ==> without_slots(wanted, free, n).contains(#[trigger] wanted[i]) || exists|u: int|
                0 <= u < slot_updates(wanted, free, n).len() && (#[trigger] slot_updates(wanted, free, n)[u]).local_channel_index
                    == wanted[i].local_channel_index,
        forall|i: int|
            0 <= i < without_slots(wanted, free, n).len() ==> wanted.contains(
                #[trigger] without_slots(wanted, free, n)[i],
            ),
    decreases n,
{
    if n > 0 {
        free_places_are_given_to_channels_of_the_transmitter(wanted, free, n - 1);
        let addr = wanted[n - 1].adv.addr;
        lemma_nth_slot_is_of(free, addr, count_at(wanted, addr, n - 1), 0);
        let updates0 = slot_updates(wanted, free, n - 1);
        let updates = slot_updates(wanted, free, n);
        let left0 = without_slots(wanted, free, n - 1);
        let left = without_slots(wanted, free, n);
        let slot = slot_for(wanted, free, n - 1);
        assert forall|u: int| 0 <= u < updates.len() implies {
            let update = #[trigger] updates[u];
            exists|i: int, s: int|
                0 <= i < n && 0 <= s < free.len() && (#[trigger] wanted[i]).local_channel_index
                    == update.local_channel_index && wanted[i].adv.tx_channel_id == update.remote.tx_channel_id
                    && (#[trigger] free[s]).addr == wanted[i].adv.addr && free[s].flow_index
                    == update.remote.local_flow_index && free[s].channel_in_flow == update.remote.channel_in_flow
        } by {
            if u < updates0.len() {
                assert(updates[u] == updates0[u]);
            } else {
                assert(wanted[n - 1].local_channel_index == updates[u].local_channel_index && free[slot].addr == wanted[n
                    - 1].adv.addr);
            }
        }
        assert forall|i: int| 0 <= i < n implies left.contains(#[trigger] wanted[i]) || exists|u: int|
            0 <= u < updates.len() && (#[trigger] updates[u]).local_channel_index == wanted[i].local_channel_index by {
            if i == n - 1 {
                if slot < free.len() {
                    assert(updates[updates.len() - 1].local_channel_index == wanted[i].local_channel_index);
                } else {
                    assert(left[left.len() - 1] == wanted[i]);
                }
            } else if left0.contains(wanted[i]) {
                let k = choose|k: int| 0 <= k < left0.len() && left0[k] == wanted[i];
                assert(left[k] == wanted[i]);
            } else {
                let u = choose|u: int|
                    0 <= u < updates0.len() && (#[trigger] updates0[u]).local_channel_index == wanted[i].local_channel_index;
                assert(updates[u] == updates0[u]);
            }
        }
        assert forall|i: int| 0 <= i < left.len() implies wanted.contains(#[trigger] left[i]) by {
            if i < left0.len() {
                assert(left[i] == left0[i]);
            } else {
                assert(left[i] == wanted[n - 1]);
            }
        }
    }
}

proof fn lemma_updates_of_flow(f: int, updates: Seq<ChannelSourceUpdate>, n: int)
    requires
        0 <= n <= updates.len(),
    ensures
        forall|u: int|
            0 <= u < updates_of_flow(f, updates, n).len() ==> updates.contains(
                #[trigger] updates_of_flow(f, updates, n)[u],
            ) && updates_of_flow(f, updates, n)[u].remote.local_flow_index == f,
        forall|u: int|
            0 <= u < n && (#[trigger] updates[u]).remote.local_flow_index == f ==> updates_of_flow(
                f,
                updates,
                n,
            ).contains(updates[u]),
    decreases n,
{
    if n > 0 {
        lemma_updates_of_flow(f, updates, n - 1);
        let before = updates_of_flow(f, updates, n - 1);
        let all = updates_of_flow(f, updates, n);
        assert forall|u: int| 0 <= u < all.len() implies updates.contains(#[trigger] all[u])
            && all[u].remote.local_flow_index == f by {
            if u < before.len() {
                assert(all[u] == before[u]);
            } else {
                assert(all[u] == updates[n - 1]);
            }
        }
        assert forall|u: int| 0 <= u < n && (#[trigger] updates[u]).remote.local_flow_index == f implies all.contains(
            updates[u],
        ) by {
            if u == n - 1 {
                assert(all[all.len() - 1] == updates[u]);
            } else {
                let k = choose|k: int| 0 <= k < before.len() && before[k] == updates[u];
                assert(all[k] == updates[u]);
            }
        }
    }
}

proof fn lemma_tx_channels_kept(
    tx_channels: Seq<Option<u16>>,
    f: int,
    updates: Seq<ChannelSourceUpdate>,
    from: int,
    n: int,
    k: int,
)
    requires
        0 <= from <= n <= updates.len(),
        0 <= k < tx_channels.len(),
        forall|u: int|
            0 <= u < updates.len() && (#[trigger] updates[u]).remote.local_flow_index == f
                ==> updates[u].remote.channel_in_flow < tx_channels.len(),
        forall|u: int|
            from <= u < n && (#[trigger] updates[u]).remote.local_flow_index == f
                ==> updates[u].remote.channel_in_flow != k,
    ensures
        tx_channels_after(tx_channels, f, updates, n).len() == tx_channels.len(),
        tx_channels_after(tx_channels, f, updates, n)[k] == tx_channels_after(tx_channels, f, updates, from)[k],
    decreases n,
{
    if n > from {
        lemma_tx_channels_kept(tx_channels, f, updates, from, n - 1, k);
        assert(updates[n - 1].remote.local_flow_index == f ==> updates[n - 1].remote.channel_in_flow
            < tx_channels.len());
    } else if n > 0 {
        lemma_tx_channels_kept(tx_channels, f, updates, n - 1, n - 1, k);
        assert(updates[n - 1].remote.local_flow_index == f ==> updates[n - 1].remote.channel_in_flow
            < tx_channels.len());
    }
}

/// The request for a flow goes to the transmitter which sends it, under the handle which it gave to
/// it. It asks for the channels which the updates put into the flow, each at its place, and for all
/// other places as they are; it brings about the updates of this flow, and no others.
pub proof fn flow_is_asked_for_what_the_updates_need(
    requests: Seq<FlowUpdateRequest>,
    flows: Seq<Option<FlowView>>,
    updates: Seq<ChannelSourceUpdate>,
    n: int,
    r: int,
    k: int,
)
    requires
        are_flow_update_requests(requests, flows, updates, n),
        0 <= r < requests.len(),
        0 <= n <= flows.len() <= usize::MAX,
        forall|u: int|
            0 <= u < updates.len() ==> (#[trigger] updates[u]).remote.channel_in_flow
                < flows[updates[u].remote.local_flow_index as int]->0.tx_channels.len(),
    ensures
        ({
            let f = requests[r].flow_index as int;
            let flow = flows[f]->0;
            &&& f < n
            &&& requests[r].addr == flow.source->Unicast_control_remote_addr
            &&& requests[r].dbcp1 == flow.source->Unicast_dbcp1
            &&& requests[r].handle == flow.source->Unicast_handle->0
            &&& forall|u: int|
                0 <= u < requests[r].updates@.len() ==> updates.contains(#[trigger] requests[r].updates@[u])
                    && requests[r].updates@[u].remote.local_flow_index == f
            &&& forall|u: int|
                0 <= u < updates.len() && (#[trigger] updates[u]).remote.local_flow_index == f
                    ==> requests[r].updates@.contains(updates[u])
            &&& 0 <= k < flow.tx_channels.len() ==> {
                &&& requests[r].tx_channels@.len() == flow.tx_channels.len()
                &&& (forall|u: int|
                    0 <= u < updates.len() && (#[trigger] updates[u]).remote.local_flow_index == f
                        ==> updates[u].remote.channel_in_flow != k) ==> requests[r].tx_channels@[k]
                    == flow.tx_channels[k]
                &&& forall|u: int|
                    0 <= u < updates.len() && (#[trigger] updates[u]).remote.local_flow_index == f
                        && updates[u].remote.channel_in_flow == k && (forall|v: int|
                        u < v < updates.len() && (#[trigger] updates[v]).remote.local_flow_index == f
                            ==> updates[v].remote.channel_in_flow != k) ==> requests[r].tx_channels@[k] == Some(
                        updates[u].remote.tx_channel_id,
                    )
            }
        }),
    decreases n,
{
    if n > 0 {
        if updates_of_flow(n - 1, updates, updates.len() as int).len() > 0 {
            if r == requests.len() - 1 {
                let view = requests[r]@;
                assert(view == flow_update_request(flows, n - 1, updates));
                lemma_updates_of_flow(n - 1, updates, updates.len() as int);
                let tx_channels = flows[n - 1]->0.tx_channels;
                if 0 <= k < tx_channels.len() {
                    let f = n - 1;
                    let all = updates.len() as int;
                    lemma_tx_channels_kept(tx_channels, f, updates, all, all, k);
                    if forall|u: int|
                        0 <= u < all && (#[trigger] updates[u]).remote.local_flow_index == f
                            ==> updates[u].remote.channel_in_flow != k {
                        lemma_tx_channels_kept(tx_channels, f, updates, 0, all, k);
                    }
                    assert forall|u: int|
                        0 <= u < all && (#[trigger] updates[u]).remote.local_flow_index == f
                            && updates[u].remote.channel_in_flow == k && (forall|v: int|
                            u < v < all && (#[trigger] updates[v]).remote.local_flow_index == f
                                ==> updates[v].remote.channel_in_flow != k) implies requests[r].tx_channels@[k] == Some(
                        updates[u].remote.tx_channel_id,
                    ) by {
                        lemma_tx_channels_kept(tx_channels, f, updates, u + 1, all, k);
                        lemma_tx_channels_kept(tx_channels, f, updates, u, u, k);
                    }
                }
            } else {
                flow_is_asked_for_what_the_updates_need(requests.drop_last(), flows, updates, n - 1, r, k);
                assert(requests.drop_last()[r] == requests[r]);
            }
        } else {
            flow_is_asked_for_what_the_updates_need(requests, flows, updates, n - 1, r, k);
        }
    }
}

// ---------------------------------------------------------------------------------------------
// New flows
// ---------------------------------------------------------------------------------------------

/// Whether a new flow is asked for from the transmitter of the wanted channels which it is to carry:
/// each of its updates connects such a channel to a place of its own, where the flow has the identifier
/// of the channel as far as there is such a place.
pub open spec fn serves_wanted_channels(
    flows: Seq<Option<FlowView>>,
    wanted: Seq<WantedChannel>,
    new_flow: NewFlowView,
) -> bool {
    let f = new_flow.flow_index;
    &&& 0 <= f < flows.len()
    &&& flows[f] is Some
    &&& flows[f]->0.source is Unicast
    &&& flows[f]->0.source->Unicast_control_remote_addr == new_flow.first.addr
    &&& flows[f]->0.source->Unicast_dbcp1 == new_flow.first.dbcp1
    &&& flows[f]->0.source->Unicast_handle is None
    &&& flows[f]->0.tx_channels.len() <= 8
    &&& forall|u: int|
        0 <= u < new_flow.updates.len() ==> {
            let update = #[trigger] new_flow.updates[u];
            &&& update.remote.local_flow_index == f
            &&& update.remote.channel_in_flow == u
            &&& u < flows[f]->0.tx_channels.len() ==> flows[f]->0.tx_channels[u] == Some(update.remote.tx_channel_id)
            &&& exists|i: int|
                0 <= i < wanted.len() && (#[trigger] wanted[i]).local_channel_index == update.local_channel_index
                    && wanted[i].adv.tx_channel_id == update.remote.tx_channel_id && wanted[i].adv.addr
                    == new_flow.first.addr
        }
}

proof fn lemma_first_unused(flows: Seq<Option<FlowView>>, from: int)
    requires
        0 <= from <= flows.len(),
    ensures
        from <= first_unused(flows, from) <= flows.len(),
        first_unused(flows, from) < flows.len() ==> flows[first_unused(flows, from)] is None,
    decreases flows.len() - from,
{
    if from < flows.len() && flows[from] is Some {
        lemma_first_unused(flows, from + 1);
    }
}

/// Whether one of the updates of the new flow connects the local channel.
pub open spec fn connects(new_flow: NewFlowView, local_channel_index: usize) -> bool {
    exists|u: int|
        0 <= u < new_flow.updates.len() && (#[trigger] new_flow.updates[u]).local_channel_index == local_channel_index
}

/// New flows are put into unused places of the table only, each is asked for from the transmitter of the
/// channels which it is to carry, and every wanted channel is connected to one of them.
pub proof fn new_flows_carry_what_is_wanted(
    flows: Seq<Option<FlowView>>,
    wanted: Seq<WantedChannel>,
    start: int,
    par: ReceiverParameters,
    now: usize,
)
    requires
        wanted.len() > 0,
        0 <= start,
        wanted[0].adv.tx_channels_per_flow > 0,
        start < wanted.len() ==> flows.len() + wanted.len() - start <= usize::MAX,
        forall|i: int| 0 <= i < wanted.len() ==> (#[trigger] wanted[i]).adv.addr == wanted[0].adv.addr,
    ensures
        ({
            let r = flows_for_server(flows, wanted, start, par, now);
            &&& flows.len() <= r.0.len()
            &&& forall|f: int| 0 <= f < flows.len() && #[trigger] flows[f] is Some ==> r.0[f] == flows[f]
            &&& forall|m: int|
                0 <= m < r.1.len() ==> {
                    &&& serves_wanted_channels(r.0, wanted, #[trigger] r.1[m])
                    &&& r.1[m].first == wanted[0].adv
                    &&& r.1[m].flow_index < flows.len() ==> flows[r.1[m].flow_index] is None
                }
            &&& forall|i: int|
                start <= i < wanted.len() ==> exists|m: int|
                    0 <= m < r.1.len() && connects(#[trigger] r.1[m], (#[trigger] wanted[i]).local_channel_index)
        }),
    decreases
            if start < wanted.len() {
                wanted.len() - start
            } else {
                0int
            },
{
    let size = wanted[0].adv.tx_channels_per_flow as int;
    let r = flows_for_server(flows, wanted, start, par, now);
    if start < wanted.len() {
        let first = wanted[0].adv;
        let chunk = chunk_at(wanted, start, size);
        lemma_first_unused(flows, 0);
        let index = first_unused(flows, 0);
        let flow = flow_for_chunk(index, first, chunk, par, now);
        let table = with_new_flow(flows, flow);
        let rest = flows_for_server(table, wanted, start + size, par, now);
        let created = NewFlowView { flow_index: index, first, updates: chunk_updates(chunk, index) };
        assert(table[index] == Some(flow));
        new_flows_carry_what_is_wanted(table, wanted, start + size, par, now);
        assert(r.0 == rest.0);
        assert(r.1 == seq![created] + rest.1);
        assert(r.0[index] == Some(flow));
        assert forall|f: int| 0 <= f < flows.len() && #[trigger] flows[f] is Some implies r.0[f] == flows[f] by {
            assert(table[f] == flows[f]);
        }
        assert(serves_wanted_channels(r.0, wanted, created)) by {
            assert forall|u: int| 0 <= u < created.updates.len() implies {
                let update = #[trigger] created.updates[u];
                &&& update.remote.local_flow_index == index
                &&& update.remote.channel_in_flow == u
                &&& u < flow.tx_channels.len() ==> flow.tx_channels[u] == Some(update.remote.tx_channel_id)
                &&& exists|i: int|
                    0 <= i < wanted.len() && (#[trigger] wanted[i]).local_channel_index == update.local_channel_index
                        && wanted[i].adv.tx_channel_id == update.remote.tx_channel_id && wanted[i].adv.addr
                        == created.first.addr
            } by {
                assert(chunk[u] == wanted[start + u]);
            }
        }
        assert forall|m: int| 0 <= m < r.1.len() implies {
            &&& serves_wanted_channels(r.0, wanted, #[trigger] r.1[m])
            &&& r.1[m].first == wanted[0].adv
            &&& r.1[m].flow_index < flows.len() ==> flows[r.1[m].flow_index] is None
        } by {
            if m > 0 {
                assert(r.1[m] == rest.1[m - 1]);
                let f = r.1[m].flow_index;
                if f < flows.len() && flows[f] is Some {
                    assert(table[f] == flows[f]);
                }
            }
        }
        assert forall|i: int| start <= i < wanted.len() implies exists|m: int|
            0 <= m < r.1.len() && connects(#[trigger] r.1[m], (#[trigger] wanted[i]).local_channel_index) by {
            if i < start + size {
                assert(chunk[i - start] == wanted[i]);
                assert(created.updates[i - start].local_channel_index == wanted[i].local_channel_index);
                assert(connects(r.1[0], wanted[i].local_channel_index));
            } else {
                let m = choose|m: int|
                    0 <= m < rest.1.len() && connects(#[trigger] rest.1[m], wanted[i].local_channel_index);
                assert(r.1[m + 1] == rest.1[m]);
            }
        }
    }
}

proof fn lemma_channels_at_are_of(wanted: Seq<WantedChannel>, addr: u64, n: int)
    requires
        0 <= n <= wanted.len(),
    ensures
        channels_at(wanted, addr, n).len() <= n,
        forall|i: int|
            0 <= i < channels_at(wanted, addr, n).len() ==> (#[trigger] channels_at(wanted, addr, n)[i]).adv.addr == addr
                && wanted.contains(channels_at(wanted, addr, n)[i]),
        forall|i: int|
            0 <= i < n && (#[trigger] wanted[i]).adv.addr == addr ==> channels_at(wanted, addr, n).contains(wanted[i]),
    decreases n,
{
    if n > 0 {
        lemma_channels_at_are_of(wanted, addr, n - 1);
        let before = channels_at(wanted, addr, n - 1);
        let all = channels_at(wanted, addr, n);
        assert forall|i: int| 0 <= i < all.len() implies (#[trigger] all[i]).adv.addr == addr && wanted.contains(all[i]) by {
            if i < before.len() {
                assert(all[i] == before[i]);
            } else {
                assert(all[i] == wanted[n - 1]);
            }
        }
        assert forall|i: int| 0 <= i < n && (#[trigger] wanted[i]).adv.addr == addr implies all.contains(wanted[i]) by {
            if i == n - 1 {
                assert(all[all.len() - 1] == wanted[i]);
            } else {
                let k = choose|k: int| 0 <= k < before.len() && before[k] == wanted[i];
                assert(all[k] == wanted[i]);
            }
        }
    }
}

/// The channels which a transmitter is asked for are those which it offers, all of them and no others.
pub proof fn transmitters_are_asked_for_what_they_offer(wanted: Seq<WantedChannel>, addr: u64)
    ensures
        forall|i: int|
            0 <= i < channels_at(wanted, addr, wanted.len() as int).len() ==> (#[trigger] channels_at(
                wanted,
                addr,
                wanted.len() as int,
            )[i]).adv.addr == addr && wanted.contains(channels_at(wanted, addr, wanted.len() as int)[i]),
        forall|i: int|
            0 <= i < wanted.len() && (#[trigger] wanted[i]).adv.addr == addr ==> channels_at(
                wanted,
                addr,
                wanted.len() as int,
            ).contains(wanted[i]),
{
    lemma_channels_at_are_of(wanted, addr, wanted.len() as int);
}

/// The latency of a flow, in samples, is the greater one of what the transmitter and the receiver need,
/// but for less than a sample.
pub proof fn latency_is_what_both_sides_need(min_rx_latency_ns: usize, par: ReceiverParameters)
    ensures
        ({
            let samples = latency_samples(min_rx_latency_ns, par);
            &&& min_rx_latency_ns * par.sample_rate < (samples + 1) * 1_000_000_000
            &&& par.min_latency_ns * par.sample_rate < (samples + 1) * 1_000_000_000
            &&& samples * 1_000_000_000 <= min_rx_latency_ns * par.sample_rate || samples * 1_000_000_000
                <= par.min_latency_ns * par.sample_rate
        }),
{
    let rate = par.sample_rate as int;
    let (a, b) = (min_rx_latency_ns as int, par.min_latency_ns as int);
    let needed = if a < b {
        b
    } else {
        a
    };
    assert(a * rate <= needed * rate && b * rate <= needed * rate) by (nonlinear_arith)
        requires
            a <= needed,
            b <= needed,
            0 <= rate,
    ;
}

/// A packet has as many frames as the transmitter can put into it, but no more than fit.
pub proof fn frames_fit_in_the_packet(fpp_max: u16, max_payload_bytes: int, channels: int, bits_per_sample: int)
    requires
        0 <= max_payload_bytes,
        channels * bits_per_sample >= 8,
        channels * bits_per_sample % 8 == 0,
    ensures
        ({
            let fpp = frames_per_packet(fpp_max, max_payload_bytes, channels, bits_per_sample);
            &&& 0 <= fpp <= fpp_max
            &&& fpp * (channels * bits_per_sample) <= max_payload_bytes * 8
            &&& fpp < fpp_max ==> (fpp + 1) * (channels * bits_per_sample) > max_payload_bytes * 8
        }),
{
    let bits = channels * bits_per_sample;
    let bytes = bits / 8;
    assert(bits == 8 * bytes);
    let limit = max_payload_bytes / bytes;
    vstd::arithmetic::div_mod::lemma_fundamental_div_mod(max_payload_bytes, bytes);
    vstd::arithmetic::div_mod::lemma_mod_bound(max_payload_bytes, bytes);
    vstd::arithmetic::div_mod::lemma_div_pos_is_pos(max_payload_bytes, bytes);
    let fpp = frames_per_packet(fpp_max, max_payload_bytes, channels, bits_per_sample);
    assert(limit * bits <= max_payload_bytes * 8 < (limit + 1) * bits) by (nonlinear_arith)
        requires
            bits == 8 * bytes,
            max_payload_bytes == bytes * limit + max_payload_bytes % bytes,
            0 <= max_payload_bytes % bytes < bytes,
    ;
    assert(fpp * bits <= limit * bits) by (nonlinear_arith)
        requires
            fpp <= limit,
            0 <= bits,
    ;
}

// ---------------------------------------------------------------------------------------------
// Names
// ---------------------------------------------------------------------------------------------

/// Where the first separator stands, what is before it and what is after it are the same in equal texts.
proof fn lemma_separated(n1: nat, n2: nat, separator: char, rest1: Seq<char>, rest2: Seq<char>)
    requires
        separator < '0' || separator > '9',
        decimal(n1).push(separator) + rest1 == decimal(n2).push(separator) + rest2,
    ensures
        n1 == n2,
        rest1 == rest2,
{
    let name = decimal(n1).push(separator) + rest1;
    let d1 = decimal(n1);
    let d2 = decimal(n2);
    lemma_decimal_digits(n1);
    lemma_decimal_digits(n2);
    assert(name[d1.len() as int] == separator);
    assert((d2.push(separator) + rest2)[d2.len() as int] == separator);
    if d1.len() < d2.len() {
        assert((d2.push(separator) + rest2)[d1.len() as int] == d2[d1.len() as int]);
    }
    if d2.len() < d1.len() {
        assert(name[d2.len() as int] == d1[d2.len() as int]);
    }
    assert forall|i: int| 0 <= i < d1.len() implies d1[i] == d2[i] by {
        assert(name[i] == d1[i]);
        assert((d2.push(separator) + rest2)[i] == d2[i]);
    }
    assert(d1 =~= d2);
    decimal_is_read_back(n1, (n1 + n2) as int);
    decimal_is_read_back(n2, (n1 + n2) as int);
    assert(rest1 =~= name.skip(d1.len() as int + 1));
    assert(rest2 =~= name.skip(d2.len() as int + 1));
}

/// Different multicast flows have different names, also those of different transmitters with one number.
pub proof fn multicast_flows_are_told_apart(id1: nat, host1: Seq<char>, id2: nat, host2: Seq<char>)
    ensures
        bundle_name(id1, host1) == bundle_name(id2, host2) <==> (id1 == id2 && host1 == host2),
{
    if bundle_name(id1, host1) == bundle_name(id2, host2) {
        lemma_separated(id1, id2, '@', host1, host2);
    }
}

/// Different flows which are asked for have different names, also those of different processes.
pub proof fn requested_flows_are_told_apart(process1: nat, id1: nat, process2: nat, id2: nat)
    ensures
        flow_name(process1, id1) == decimal(process1) + seq!['_'] + decimal(id1),
        flow_name(process1, id1) == flow_name(process2, id2) <==> (process1 == process2 && id1 == id2),
{
    assert(flow_name(process1, id1) =~= decimal(process1) + seq!['_'] + decimal(id1));
    if flow_name(process1, id1) == flow_name(process2, id2) {
        lemma_separated(process1, process2, '_', decimal(id1), decimal(id2));
        decimal_is_read_back(id1, (id1 + id2) as int);
        decimal_is_read_back(id2, (id1 + id2) as int);
    }
}

/// Every flow which an update concerns is asked for once, and no other flow is.
pub proof fn every_changed_flow_is_asked_for_once(
    requests: Seq<FlowUpdateRequest>,
    flows: Seq<Option<FlowView>>,
    updates: Seq<ChannelSourceUpdate>,
    n: int,
)
    requires
        are_flow_update_requests(requests, flows, updates, n),
        0 <= n <= flows.len() <= usize::MAX,
    ensures
        requests.len() <= n,
        forall|r: int| 0 <= r < requests.len() ==> (#[trigger] requests[r]).flow_index < n,
        forall|r: int, q: int|
            0 <= r < q < requests.len() ==> (#[trigger] requests[r]).flow_index != (#[trigger] requests[q]).flow_index,
        forall|u: int|
            0 <= u < updates.len() && (#[trigger] updates[u]).remote.local_flow_index < n ==> exists|r: int|
                0 <= r < requests.len() && (#[trigger] requests[r]).flow_index == updates[u].remote.local_flow_index,
    decreases n,
{
    if n > 0 {
        let f = n - 1;
        lemma_updates_of_flow(f, updates, updates.len() as int);
        let own = updates_of_flow(f, updates, updates.len() as int);
        if own.len() > 0 {
            let before = requests.drop_last();
            every_changed_flow_is_asked_for_once(before, flows, updates, f);
            assert(requests.last()@ == flow_update_request(flows, f, updates));
            assert forall|r: int| 0 <= r < requests.len() implies (#[trigger] requests[r]).flow_index < n by {
                if r < before.len() {
                    assert(before[r] == requests[r]);
                }
            }
            assert forall|r: int, q: int| 0 <= r < q < requests.len() implies (#[trigger] requests[r]).flow_index != (
            #[trigger] requests[q]).flow_index by {
                assert(before[r] == requests[r]);
                if q < before.len() {
                    assert(before[q] == requests[q]);
                }
            }
            assert forall|u: int| 0 <= u < updates.len() && (#[trigger] updates[u]).remote.local_flow_index < n implies
                exists|r: int|
                0 <= r < requests.len() && (#[trigger] requests[r]).flow_index == updates[u].remote.local_flow_index by {
                if updates[u].remote.local_flow_index == f {
                    assert(requests[requests.len() - 1].flow_index == f);
                } else {
                    let r = choose|r: int|
                        0 <= r < before.len() && (#[trigger] before[r]).flow_index == updates[u].remote.local_flow_index;
                    assert(requests[r] == before[r]);
                }
            }
        } else {
            every_changed_flow_is_asked_for_once(requests, flows, updates, f);
            assert forall|u: int| 0 <= u < updates.len() && (#[trigger] updates[u]).remote.local_flow_index < n implies
                exists|r: int|
                0 <= r < requests.len() && (#[trigger] requests[r]).flow_index == updates[u].remote.local_flow_index by {
                if updates[u].remote.local_flow_index == f {
                    assert(own.contains(updates[u]));
                }
            }
        }
    }
}

/// A multicast flow is received if and only if one of the flows comes from it, and wanted if and only if one
/// of the channels needs it.
pub proof fn multicast_flows_are_known_by_their_names(
    flows: Seq<Option<FlowView>>,
    wanted: Seq<WantedBundleChannel>,
    name: Seq<char>,
    i: int,
)
    ensures
        0 <= i < flows.len() && flows[i] is Some && flows[i]->0.source is Multicast
            && flows[i]->0.source->bundle_full_name == name ==> is_bundle_received(flows, name),
        is_bundle_received(flows, name) ==> exists|k: int|
            0 <= k < flows.len() && #[trigger] flows[k] is Some && flows[k]->0.source is Multicast
                && flows[k]->0.source->bundle_full_name == name,
        0 <= i < wanted.len() && wanted[i].bundle_full_name@ == name ==> is_bundle_wanted(wanted, name),
        is_bundle_wanted(wanted, name) ==> exists|k: int|
            0 <= k < wanted.len() && (#[trigger] wanted[k]).bundle_full_name@ == name,
{
    if is_bundle_received(flows, name) {
        let k = choose|k: int|
            0 <= k < flows.len() && #[trigger] flows[k] is Some && flows[k]->0.source == (FlowSourceView::Multicast {
                bundle_full_name: name,
            });
        assert(flows[k] is Some);
    }
}

} // verus!

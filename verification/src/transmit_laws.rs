//! What the timing of transmitted flows is for: each packet carries the samples of its time, and packets
//! carry them one after another.

use crate::byte_utils::{be32, be32_at, bytes_make_the_long_number};
use crate::common::{
    clock_diff, clock_modulus, lemma_signed_residue_within_turn, positions_are_clocks, Clock, Sample,
};
use crate::flow_table::{has_destination, is_to, multicast_address, multicast_address_after, FlowData, FlowInfo};
use crate::flows_transmitter::{is_executed, put_in_time, waited_ns, Command};
use crate::flows_tx::{
    earlier, first_due, keepalive_deadline, media_header, needs_dither, next_packet_start, packets_are_aligned, published,
    shift_of_start, silenced, start_position, TxFlow, TxParameters, TxSchedule,
};
use crate::mdns_client::SocketNumber;
use crate::samples_utils::{dither_sum, dithered, is_dithered};
use crate::transmit_round::{action_of, flows_after, round_after, RoundAction, TransmitRound};
use vstd::prelude::*;

verus! {

/// A remainder of a clock is that of its position.
proof fn lemma_position_of_sum(x: int)
    ensures
        x % 0x1_0000_0000_0000_0000 % (usize::MAX + 1) == x % (usize::MAX + 1),
{
    vstd::layout::unsigned_int_max_values();
    if usize::MAX == 0xffff_ffff {
        vstd::arithmetic::div_mod::lemma_mod_mod(x, 0x1_0000_0000, 0x1_0000_0000);
    } else {
        assert(usize::MAX + 1 == 0x1_0000_0000_0000_0000);
        vstd::arithmetic::div_mod::lemma_mod_twice(x, 0x1_0000_0000_0000_0000);
    }
}

/// The samples of a packet are read where its timestamp, moved by the shift, says: at the remainder of
/// the sum by the number of clocks, as far as positions can hold it.
pub proof fn packet_is_read_at_its_shifted_time(next_ts: Clock, par: TxParameters)
    ensures
        start_position(next_ts, par) as int == (next_ts + par.timestamp_shift) % 0x1_0000_0000_0000_0000 % (
        usize::MAX + 1),
        0 <= next_ts + par.timestamp_shift <= usize::MAX ==> start_position(next_ts, par) == next_ts
            + par.timestamp_shift,
{
    let m = 0x1_0000_0000_0000_0000int;
    let x = next_ts + par.timestamp_shift;
    if x >= m {
        vstd::arithmetic::div_mod::lemma_mod_sub_multiples_vanish(x, m);
        vstd::arithmetic::div_mod::lemma_small_mod((x - m) as nat, m as nat);
    } else if x < 0 {
        vstd::arithmetic::div_mod::lemma_mod_add_multiples_vanish(x, m);
        vstd::arithmetic::div_mod::lemma_small_mod((x + m) as nat, m as nat);
    } else {
        vstd::arithmetic::div_mod::lemma_small_mod(x as nat, m as nat);
    }
    if 0 <= x <= usize::MAX {
        vstd::arithmetic::div_mod::lemma_small_mod(x as nat, (usize::MAX + 1) as nat);
    }
}

/// The shift takes back the time of the start and the latency, going round where the clock wraps.
pub proof fn shift_takes_back_the_start(start_time: Clock, send_latency_samples: Clock)
    ensures
        -0x8000_0000_0000_0000 <= shift_of_start(start_time, send_latency_samples) < 0x8000_0000_0000_0000,
        (start_time + send_latency_samples + shift_of_start(start_time, send_latency_samples))
            % 0x1_0000_0000_0000_0000 == 0,
        start_time + send_latency_samples <= 0x8000_0000_0000_0000 ==> shift_of_start(
            start_time,
            send_latency_samples,
        ) == -(start_time + send_latency_samples),
{
    let m = 0x1_0000_0000_0000_0000int;
    let d = -(start_time + send_latency_samples);
    vstd::arithmetic::div_mod::lemma_fundamental_div_mod(d, m);
    assert((-d + shift_of_start(start_time, send_latency_samples)) % m == 0);
}

/// A transmitter whose sample at position 0 was due at `start_time` puts into the packet with the
/// timestamp `next_ts` the samples from the position on which has come, less the latency, since then.
pub proof fn packet_carries_the_samples_of_its_time(
    start_time: Clock,
    send_latency_samples: Clock,
    next_ts: Clock,
    par: TxParameters,
)
    requires
        par.timestamp_shift == shift_of_start(start_time, send_latency_samples),
    ensures
        start_position(next_ts, par) as int == (next_ts - start_time - send_latency_samples) % (usize::MAX + 1),
        0 <= next_ts - start_time - send_latency_samples <= usize::MAX ==> start_position(next_ts, par) == next_ts
            - start_time - send_latency_samples,
{
    let m = 0x1_0000_0000_0000_0000int;
    let total = start_time + send_latency_samples;
    let shift = par.timestamp_shift as int;
    packet_is_read_at_its_shifted_time(next_ts, par);
    shift_takes_back_the_start(start_time, send_latency_samples);
    let x = next_ts + shift;
    let y = next_ts - total;
    assert(x - y == total + shift);
    // the sums differ by whole turns of the clock
    vstd::arithmetic::div_mod::lemma_fundamental_div_mod(x - y, m);
    let q = (x - y) / m;
    assert(x == y + m * q);
    vstd::arithmetic::div_mod::lemma_mod_multiples_vanish(q, y, m);
    assert(x % m == y % m);
    lemma_position_of_sum(x);
    lemma_position_of_sum(y);
    if 0 <= y <= usize::MAX {
        vstd::arithmetic::div_mod::lemma_small_mod(y as nat, (usize::MAX + 1) as nat);
    }
}

/// Packets which follow each other carry samples which follow each other: the next one begins where
/// this one, with `fpp` frames, ends.
pub proof fn packets_carry_samples_one_after_another(next_ts: Clock, fpp: usize, par: TxParameters)
    ensures
        start_position(next_ts.wrapping_add(fpp as Clock), par) as int == (start_position(next_ts, par) + fpp) % (
        usize::MAX + 1),
{
    let m = 0x1_0000_0000_0000_0000int;
    let u = usize::MAX + 1;
    let after = next_ts.wrapping_add(fpp as Clock);
    let x = next_ts + par.timestamp_shift;
    let y = after + par.timestamp_shift;
    packet_is_read_at_its_shifted_time(next_ts, par);
    packet_is_read_at_its_shifted_time(after, par);
    lemma_position_of_sum(x);
    lemma_position_of_sum(y);
    lemma_position_of_sum(x + fpp);
    assert(y == x + fpp || y == x + fpp - m);
    vstd::arithmetic::div_mod::lemma_mod_sub_multiples_vanish(x + fpp, m);
    assert(y % m == (x + fpp) % m);
    vstd::arithmetic::div_mod::lemma_add_mod_noop(x, fpp as int, u);
    vstd::arithmetic::div_mod::lemma_small_mod(fpp as nat, u as nat);
}

/// The header says when the packet was sampled: its seconds and samples make up the timestamp, moved by
/// the clock offset.
pub proof fn header_tells_the_time(next_ts: Clock, par: TxParameters)
    requires
        par.sample_rate > 0,
    ensures
        ({
            let header = media_header(next_ts, par);
            let time = (next_ts + par.clock_offset_samples) % 0x1_0000_0000_0000_0000;
            &&& header.len() == 9
            &&& header[0] == 2
            &&& be32_at(header, 5) < par.sample_rate
            &&& time < 0x1_0000_0000 * par.sample_rate ==> be32_at(header, 1) * par.sample_rate + be32_at(header, 5)
                == time
        }),
{
    let m = 0x1_0000_0000_0000_0000int;
    let x = next_ts + par.clock_offset_samples;
    if x >= m {
        vstd::arithmetic::div_mod::lemma_mod_sub_multiples_vanish(x, m);
        vstd::arithmetic::div_mod::lemma_small_mod((x - m) as nat, m as nat);
    } else if x < 0 {
        vstd::arithmetic::div_mod::lemma_mod_add_multiples_vanish(x, m);
        vstd::arithmetic::div_mod::lemma_small_mod((x + m) as nat, m as nat);
    } else {
        vstd::arithmetic::div_mod::lemma_small_mod(x as nat, m as nat);
    }
    let time = x % m;
    let rate = par.sample_rate as int;
    let header = media_header(next_ts, par);
    assert(time == next_ts.wrapping_add_signed(par.clock_offset_samples));
    vstd::arithmetic::div_mod::lemma_fundamental_div_mod(time, rate);
    vstd::arithmetic::div_mod::lemma_mod_bound(time, rate);
    vstd::arithmetic::div_mod::lemma_div_pos_is_pos(time, rate);
    let seconds = (time / rate % 0x1_0000_0000) as u32;
    let samples = (time % rate) as u32;
    let s = be32(seconds);
    let t = be32(samples);
    bytes_make_the_long_number(seconds);
    bytes_make_the_long_number(samples);
    assert(header[1] == s[0] && header[2] == s[1] && header[3] == s[2] && header[4] == s[3]);
    assert(header[5] == t[0] && header[6] == t[1] && header[7] == t[2] && header[8] == t[3]);
    if time < 0x1_0000_0000 * rate {
        vstd::arithmetic::div_mod::lemma_multiply_divide_lt(time, rate, 0x1_0000_0000);
        vstd::arithmetic::div_mod::lemma_small_mod((time / rate) as nat, 0x1_0000_0000);
        assert(seconds == time / rate);
        assert(rate * (time / rate) == (time / rate) * rate) by (nonlinear_arith);
    }
}

/// A receiver is given up four seconds after its last sign of life, and no sooner.
pub proof fn receiver_is_given_four_seconds(now: Clock, later: Clock, sample_rate: u32)
    requires
        0 <= clock_diff(later, now) < 0x4000_0000_0000_0000,
    ensures
        clock_diff(keepalive_deadline(now, sample_rate), later) == 4 * sample_rate - clock_diff(later, now),
        clock_diff(keepalive_deadline(now, sample_rate), later) < 0 <==> clock_diff(later, now) > 4 * sample_rate,
{
    let d = keepalive_deadline(now, sample_rate);
    lemma_signed_residue_within_turn(later - now, clock_modulus());
    lemma_signed_residue_within_turn(d - later, clock_modulus());
}

/// Silence stands in for the samples which are not useful, and for no other ones.
pub proof fn useful_samples_are_kept(samples: Seq<Sample>, useful: (int, int), fpp: int, k: int)
    requires
        0 <= k < fpp <= samples.len(),
        0 <= useful.0 <= useful.1 <= fpp,
    ensures
        silenced(samples, useful, fpp).len() == samples.len(),
        useful.0 <= k < useful.1 ==> silenced(samples, useful, fpp)[k] == samples[k],
        k < useful.0 || useful.1 <= k ==> silenced(samples, useful, fpp)[k] == 0,
{
}

/// Of the flows which have not expired, one is due first if there is any; none of them is due before it
/// as long as all of them are within half of a turn of the clock.
pub proof fn first_flow_due_is_first(flows: Seq<Option<TxFlow>>, base: Clock, n: int)
    requires
        0 <= n <= flows.len(),
        forall|i: int|
            0 <= i < n && #[trigger] flows[i] is Some && !flows[i]->0.expired ==> -0x4000_0000_0000_0000
                < clock_diff(flows[i]->0.next_ts, base) < 0x4000_0000_0000_0000,
    ensures
        first_due(flows, n) is Some <==> exists|i: int|
            0 <= i < n && #[trigger] flows[i] is Some && !flows[i]->0.expired,
        first_due(flows, n) matches Some(due) ==> {
            &&& exists|i: int|
                0 <= i < n && #[trigger] flows[i] is Some && !flows[i]->0.expired && flows[i]->0.next_ts == due
            &&& forall|i: int|
                0 <= i < n && #[trigger] flows[i] is Some && !flows[i]->0.expired ==> clock_diff(due, base)
                    <= clock_diff(flows[i]->0.next_ts, base)
        },
    decreases n,
{
    if n > 0 {
        first_flow_due_is_first(flows, base, n - 1);
        let before = first_due(flows, n - 1);
        if flows[n - 1] is Some && !flows[n - 1]->0.expired {
            let ts = flows[n - 1]->0.next_ts;
            if before is Some {
                lemma_signed_residue_within_turn(before->0 - ts, clock_modulus());
                lemma_signed_residue_within_turn(before->0 - base, clock_modulus());
                lemma_signed_residue_within_turn(ts - base, clock_modulus());
            }
            assert(first_due(flows, n) == Some(earlier(before, ts)));
        }
    }
}

// ---------------------------------------------------------------------------------------------
// Rounds of packets
// ---------------------------------------------------------------------------------------------

/// Packets are sent only of flows which have been begun, and only when they are due; they are sent for as
/// long as any is due.
pub proof fn packets_are_sent_when_due(round: TransmitRound, flows: Seq<Option<TxFlow>>, max_lag_samples: usize)
    ensures
        ({
            let i = round.index as int;
            let action = action_of(round, flows, max_lag_samples);
            let is_due = i < flows.len() && flows[i] is Some && round.begun && clock_diff(
                round.now,
                flows[i]->0.next_ts,
            ) >= 0;
            &&& is_due ==> action == RoundAction::SendPacket { index: round.index }
            &&& !is_due ==> !(action is SendPacket)
        }),
{
}

/// A flow which has not expired is begun when its turn comes; one which has expired never is. There is a
/// dropout exactly if its next packet is late by more than the greatest lag, or due more than 192000
/// samples later.
pub proof fn flows_are_begun_in_turn(round: TransmitRound, flows: Seq<Option<TxFlow>>, max_lag_samples: usize)
    ensures
        ({
            let i = round.index as int;
            let action = action_of(round, flows, max_lag_samples);
            let waits = i < flows.len() && flows[i] is Some && !flows[i]->0.expired && !round.begun;
            let lag = clock_diff(round.now, flows[i]->0.next_ts);
            &&& waits ==> action == (RoundAction::BeginFlow {
                index: round.index,
                dropout: lag > max_lag_samples || lag < -192000,
            })
            &&& !waits ==> !(action is BeginFlow)
            &&& i >= flows.len() <==> action is Finish
        }),
{
}

/// A receiver is listened to after all packets due were sent, if it has to give signs of life and if it is
/// time to look for them.
pub proof fn receivers_are_listened_to(round: TransmitRound, flows: Seq<Option<TxFlow>>, max_lag_samples: usize)
    ensures
        ({
            let i = round.index as int;
            let action = action_of(round, flows, max_lag_samples);
            let listens = i < flows.len() && flows[i] is Some && round.begun && clock_diff(
                round.now,
                flows[i]->0.next_ts,
            ) < 0 && round.process_events && flows[i]->0.expires is Some;
            &&& listens ==> action == RoundAction::ListenToReceiver { index: round.index }
            &&& !listens ==> !(action is ListenToReceiver)
        }),
{
}

/// The round comes to the next flow when there is nothing more to do for this one, and finds each flow not
/// begun; nothing else about it changes.
pub proof fn round_goes_from_flow_to_flow(round: TransmitRound, flows: Seq<Option<TxFlow>>, max_lag_samples: usize)
    requires
        round.index < usize::MAX,
    ensures
        ({
            let action = action_of(round, flows, max_lag_samples);
            let next = round_after(round, action);
            &&& next.now == round.now
            &&& next.process_events == round.process_events
            &&& next.iterations == round.iterations
            &&& action is GoOn ==> next.index == round.index + 1 && !next.begun
            &&& action is BeginFlow ==> next.index == round.index && next.begun
            &&& action is SendPacket || action is ListenToReceiver || action is Finish ==> next == round
        }),
{
}

/// A flow with a dropout starts over with the first packet after now; all other flows go on as they were.
pub proof fn only_flows_with_dropouts_start_over(
    round: TransmitRound,
    flows: Seq<Option<TxFlow>>,
    max_lag_samples: usize,
    j: int,
)
    requires
        0 <= j < flows.len(),
        round.index < flows.len(),
    ensures
        ({
            let action = action_of(round, flows, max_lag_samples);
            let after = flows_after(flows, round, action);
            &&& after.len() == flows.len()
            &&& action is BeginFlow && action->dropout && j == round.index ==> {
                &&& after[j] is Some
                &&& after[j]->0.channel_indices == flows[j]->0.channel_indices
                &&& after[j]->0.fpp == flows[j]->0.fpp
                &&& after[j]->0.bytes_per_sample == flows[j]->0.bytes_per_sample
                &&& after[j]->0.expires == flows[j]->0.expires
                &&& after[j]->0.expired == flows[j]->0.expired
                &&& 0 < flows[j]->0.fpp && round.now + flows[j]->0.fpp < 0x1_0000_0000_0000_0000
                    ==> is_next_packet(after[j]->0.next_ts as int, round.now as int, flows[j]->0.fpp as int)
            }
            &&& !(action is BeginFlow && action->dropout && j == round.index) ==> after[j] == flows[j]
        }),
{
    let flow = flows[j]->0;
    if flows[j] is Some && 0 < flow.fpp && round.now + flow.fpp < 0x1_0000_0000_0000_0000 {
        packets_are_aligned(round.now, flow.fpp as int);
    }
}

/// Whether packets start at multiples of their length and this is the first one which starts after now.
pub open spec fn is_next_packet(start: int, now: int, fpp: int) -> bool {
    start % fpp == 0 && now < start <= now + fpp
}

// ---------------------------------------------------------------------------------------------
// Commands
// ---------------------------------------------------------------------------------------------

/// Whether the flow starts in time, with the first packet after now, and has four seconds to hear from its
/// receiver if it has to.
pub open spec fn is_in_time(flow: TxFlow, now: Clock, sample_rate: u32) -> bool {
    &&& 0 < flow.fpp && now + flow.fpp < 0x1_0000_0000_0000_0000 ==> is_next_packet(
        flow.next_ts as int,
        now as int,
        flow.fpp as int,
    )
    &&& flow.expires matches Some(expires) ==> clock_diff(expires, now) == 4 * sample_rate
}

proof fn lemma_in_time(now: Clock, fpp: usize, sample_rate: u32)
    ensures
        0 < fpp && now + fpp < 0x1_0000_0000_0000_0000 ==> is_next_packet(
            next_packet_start(now, fpp as int) as int,
            now as int,
            fpp as int,
        ),
        clock_diff(keepalive_deadline(now, sample_rate), now) == 4 * sample_rate,
{
    if 0 < fpp && now + fpp < 0x1_0000_0000_0000_0000 {
        packets_are_aligned(now, fpp as int);
    }
    lemma_signed_residue_within_turn(0, clock_modulus());
    assert(now - now == 0);
    receiver_is_given_four_seconds(now, now, sample_rate);
}

/// A command does what it says to the flow which it names, and nothing to the others.
pub proof fn commands_concern_their_flow(
    before: Seq<Option<TxFlow>>,
    after: Seq<Option<TxFlow>>,
    command: Command,
    now: Clock,
    sample_rate: u32,
)
    requires
        is_executed(before, after, command, Some(now), sample_rate),
        command matches Command::AddFlow { index, .. } ==> index < before.len(),
        command matches Command::RemoveFlow { index } ==> index < before.len(),
        command matches Command::SetChannels { index, .. } ==> index < before.len() && before[index as int] is Some,
        command matches Command::ActivateFlow { index } ==> index < before.len() && before[index as int] is Some,
    ensures
        after.len() == before.len(),
        match command {
            Command::AddFlow { index, channel_indices, fpp, bytes_per_sample, needs_keepalives, expired } => {
                &&& after[index as int] matches Some(flow)
                &&& flow.channel_indices@ == channel_indices@
                &&& flow.fpp == fpp
                &&& flow.bytes_per_sample == bytes_per_sample
                &&& flow.expired == expired
                &&& flow.expires is Some <==> needs_keepalives
                &&& is_in_time(flow, now, sample_rate)
                &&& forall|j: int| 0 <= j < before.len() && j != index ==> #[trigger] after[j] == before[j]
            },
            Command::RemoveFlow { index } => {
                &&& after[index as int] is None
                &&& forall|j: int| 0 <= j < before.len() && j != index ==> #[trigger] after[j] == before[j]
            },
            Command::SetChannels { index, channel_indices } => {
                let old_flow = before[index as int]->0;
                &&& after[index as int] matches Some(flow)
                &&& flow.channel_indices@ == channel_indices@
                &&& flow.fpp == old_flow.fpp
                &&& flow.bytes_per_sample == old_flow.bytes_per_sample
                &&& !flow.expired
                &&& flow.expires is Some <==> old_flow.expires is Some
                &&& old_flow.expired ==> is_in_time(flow, now, sample_rate)
                &&& !old_flow.expired ==> flow.next_ts == old_flow.next_ts
                &&& flow.expires matches Some(expires) ==> clock_diff(expires, now) == 4 * sample_rate
                &&& forall|j: int| 0 <= j < before.len() && j != index ==> #[trigger] after[j] == before[j]
            },
            Command::ActivateFlow { index } => {
                let old_flow = before[index as int]->0;
                &&& after[index as int] matches Some(flow)
                &&& !flow.expired
                &&& flow.channel_indices == old_flow.channel_indices
                &&& flow.next_ts == old_flow.next_ts
                &&& flow.fpp == old_flow.fpp
                &&& flow.bytes_per_sample == old_flow.bytes_per_sample
                &&& flow.expires == old_flow.expires
                &&& forall|j: int| 0 <= j < before.len() && j != index ==> #[trigger] after[j] == before[j]
            },
            Command::NoOp => after == before,
            Command::Shutdown => after == before,
        },
{
    match command {
        Command::AddFlow { index, fpp, .. } => {
            lemma_in_time(now, fpp, sample_rate);
        },
        Command::SetChannels { index, .. } => {
            lemma_in_time(now, before[index as int]->0.fpp, sample_rate);
        },
        _ => {},
    }
}

/// Flows which are put in time when the clock becomes ready are otherwise as they were.
pub proof fn flows_are_put_in_time(flow: TxFlow, now: Clock, sample_rate: u32)
    ensures
        put_in_time(None, now, sample_rate) is None,
        put_in_time(Some(flow), now, sample_rate) matches Some(after) && {
            &&& after.channel_indices == flow.channel_indices
            &&& after.fpp == flow.fpp
            &&& after.bytes_per_sample == flow.bytes_per_sample
            &&& after.expired == flow.expired
            &&& after.expires is Some <==> flow.expires is Some
            &&& is_in_time(after, now, sample_rate)
        },
{
    lemma_in_time(now, flow.fpp, sample_rate);
}

// ---------------------------------------------------------------------------------------------
// What is published and when the user is notified
// ---------------------------------------------------------------------------------------------

/// The position of the next packet is published as it is, but never as the number which says that there
/// is none.
pub proof fn published_position_is_that_of_the_packet(ts: Clock)
    ensures
        published(None) == usize::MAX,
        published(Some(ts)) < usize::MAX,
        ts < usize::MAX ==> published(Some(ts)) == ts,
{
    positions_are_clocks(ts);
}

/// A notification which is due is followed by the next one half of an interval after it, as long as that
/// is neither in the past nor too far away.
pub proof fn notifications_follow_each_other(next: Clock, now: Clock, max_interval: Clock)
    requires
        max_interval * 2 <= i64::MAX,
        -(max_interval / 2) <= clock_diff(next, now) <= 0,
    ensures
        clock_diff(TxSchedule::next_notification(next, now, max_interval), next) == max_interval / 2,
{
    let half = (max_interval / 2) as Clock;
    let after = next.wrapping_add(half);
    lemma_signed_residue_within_turn(next - now, clock_modulus());
    lemma_signed_residue_within_turn(after - now, clock_modulus());
    lemma_signed_residue_within_turn(after - next, clock_modulus());
}

// ---------------------------------------------------------------------------------------------
// Destinations
// ---------------------------------------------------------------------------------------------

/// Media are sent to addresses which begin with 239.255; what follows counts them, so that each number of
/// 16 bits is that of one address, and the first one follows the last one.
pub proof fn multicast_addresses_are_numbered(random1: u8, random2: u8, first: u16, k: int)
    requires
        0 <= k,
    ensures
        multicast_address(random1, random2).len() == 4,
        multicast_address(random1, random2)[0] == 239 && multicast_address(random1, random2)[1] == 255,
        multicast_address(random1, random2)[2] == random1 && multicast_address(random1, random2)[3] == random2,
        multicast_address_after(first, k).len() == 4,
        multicast_address_after(first, k)[0] == 239 && multicast_address_after(first, k)[1] == 255,
        multicast_address_after(first, k)[2] * 256 + multicast_address_after(first, k)[3] == (first + k) % 0x1_0000,
{
}

/// A destination is in use if and only if some flow goes there.
pub proof fn destinations_in_use_are_those_of_flows(flows: Seq<Option<FlowData>>, remote: SocketNumber)
    ensures
        forall|i: int|
            0 <= i < flows.len() && #[trigger] flows[i] is Some && flows[i]->0.remote == remote ==> has_destination(
                flows,
                remote,
            ),
        has_destination(flows, remote) ==> exists|i: int|
            0 <= i < flows.len() && #[trigger] flows[i] is Some && flows[i]->0.remote == remote,
{
    assert forall|i: int|
        0 <= i < flows.len() && #[trigger] flows[i] is Some && flows[i]->0.remote == remote implies has_destination(
        flows,
        remote,
    ) by {
        assert(is_to(flows, i, remote));
    }
    if has_destination(flows, remote) {
        let i = choose|i: int| is_to(flows, i, remote);
        assert(flows[i] is Some);
    }
}

/// A flow is a multicast one if and only if nobody is named who receives it.
pub proof fn flows_for_nobody_are_multicast(info: FlowInfo)
    ensures
        info.rx_hostname is Some ==> !info.spec_is_multicast(),
        info.rx_flow_name is Some ==> !info.spec_is_multicast(),
        info.rx_hostname is None && info.rx_flow_name is None ==> info.spec_is_multicast(),
{
}

// ---------------------------------------------------------------------------------------------
// Noise
// ---------------------------------------------------------------------------------------------

/// Noise is added if and only if bits of the source are lost.
pub proof fn noise_stands_for_lost_bits(par: TxParameters, output_bit_depth: u8)
    ensures
        par.tx_source_bit_depth <= output_bit_depth ==> !needs_dither(par, output_bit_depth),
        par.tx_source_bit_depth > output_bit_depth ==> needs_dither(par, output_bit_depth),
{
}

/// Noise is the difference of two numbers, and half a step is added for rounding; what a sample cannot
/// hold becomes the nearest one.
pub proof fn noise_is_a_difference(sample: Sample, a: int, b: int, half_step: int)
    ensures
        -0x8000_0000 <= sample + a - b + half_step <= 0x7fff_ffff ==> dither_sum(sample, a, b, half_step) == sample + a
            - b + half_step,
        sample + a - b + half_step > 0x7fff_ffff ==> dither_sum(sample, a, b, half_step) == 0x7fff_ffff,
        sample + a - b + half_step < -0x8000_0000 ==> dither_sum(sample, a, b, half_step) == -0x8000_0000,
{
}

/// Every sample stays near to what it was: noise takes less than half a step off it, and adds less than a
/// step and a half.
pub proof fn noise_is_small(src: Seq<Sample>, out: Seq<Sample>, half_step: int, i: int)
    requires
        0 < half_step,
        dithered(src, out, half_step),
        0 <= i < src.len(),
    ensures
        out.len() == src.len(),
        -half_step < out[i] - src[i] < 3 * half_step,
{
    assert(is_dithered(src[i], out[i], half_step));
}

/// A transmitter with nothing to send waits for twenty seconds, else for as long as there is time.
pub proof fn transmitter_waits_for_what_is_next(ns: u64)
    ensures
        waited_ns(Some(ns)) == ns,
        waited_ns(None) == 20_000_000_000,
{
}

} // verus!

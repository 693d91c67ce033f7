//! One round of the transmitter: all packets which are due are sent, flow by flow.

use crate::common::{clock_diff, Clock};
use crate::flows_tx::{keepalive_deadline, next_packet_start, should_yield, TxFlow, TxFlows};
use vstd::prelude::*;

verus! {

/// After how many packets the clock is looked at.
pub const PACKETS_BETWEEN_CLOCK_CHECKS: usize = 16;

/// What is to be done next.
#[derive(Debug, Clone, Copy, PartialEq, Eq, Structural)]
pub enum RoundAction {
    /// nothing but to go on
    GoOn,
    /// the packets of a flow follow: the place of their samples is to be filled with silence;
    /// whether there is a dropout
    BeginFlow { index: usize, dropout: bool },
    /// the next packet of a flow is to be sent
    SendPacket { index: usize },
    /// a sign of life of the receiver of a flow is to be looked for
    ListenToReceiver { index: usize },
    /// the round is over
    Finish,
}

/// A round which takes place at `now`.
#[derive(Debug, Clone, Copy, PartialEq, Eq, Structural)]
pub struct TransmitRound {
    pub now: Clock,
    pub process_events: bool,
    /// the flow whose turn it is
    pub index: usize,
    /// whether the flow has been begun
    pub begun: bool,
    /// how many packets were sent
    pub iterations: usize,
}

/// Whether the flow at `i` is transmitted.
pub open spec fn is_active(flows: Seq<Option<TxFlow>>, i: int) -> bool {
    flows[i] matches Some(flow) && !flow.expired
}

/// What is to be done next in the given state.
pub open spec fn action_of(round: TransmitRound, flows: Seq<Option<TxFlow>>, max_lag_samples: usize) -> RoundAction {
    let i = round.index as int;
    if i >= flows.len() {
        RoundAction::Finish
    } else if !is_active(flows, i) && !round.begun {
        RoundAction::GoOn
    } else if flows[i] is None {
        RoundAction::GoOn
    } else if !round.begun {
        RoundAction::BeginFlow { index: round.index, dropout: flows[i]->0.is_off(round.now, max_lag_samples) }
    } else if clock_diff(round.now, flows[i]->0.next_ts) >= 0 {
        RoundAction::SendPacket { index: round.index }
    } else if round.process_events && flows[i]->0.expires is Some {
        RoundAction::ListenToReceiver { index: round.index }
    } else {
        RoundAction::GoOn
    }
}

/// The state after what is to be done next was found out.
pub open spec fn round_after(round: TransmitRound, action: RoundAction) -> TransmitRound {
    match action {
        RoundAction::GoOn => TransmitRound { index: (round.index + 1) as usize, begun: false, ..round },
        RoundAction::BeginFlow { .. } => TransmitRound { begun: true, ..round },
        _ => round,
    }
}

/// The flows after what is to be done next was found out: a flow which is too far from the clock
/// starts over.
pub open spec fn flows_after(flows: Seq<Option<TxFlow>>, round: TransmitRound, action: RoundAction) -> Seq<
    Option<TxFlow>,
> {
    match action {
        RoundAction::BeginFlow { index, dropout: true } => flows.update(
            index as int,
            Some(
                TxFlow {
                    next_ts: next_packet_start(round.now, flows[index as int]->0.fpp as int),
                    ..flows[index as int]->0
                },
            ),
        ),
        _ => flows,
    }
}

/// Whether all the flows have packets of some length.
pub open spec fn flows_valid(flows: Seq<Option<TxFlow>>) -> bool {
    forall|i: int| 0 <= i < flows.len() && #[trigger] flows[i] is Some ==> flows[i]->0.fpp > 0
}

impl TransmitRound {
    pub fn new(now: Clock, process_events: bool) -> (round: Self)
        ensures
            round == (TransmitRound { now, process_events, index: 0, begun: false, iterations: 0 }),
    {
        TransmitRound { now, process_events, index: 0, begun: false, iterations: 0 }
    }

    /// Finds out what is to be done next.
    pub fn next_action(&mut self, table: &mut TxFlows, max_lag_samples: usize) -> (action: RoundAction)
        requires
            flows_valid(old(table).flows@),
            max_lag_samples <= i64::MAX,
        ensures
            action == action_of(*old(self), old(table).flows@, max_lag_samples),
            *final(self) == round_after(*old(self), action),
            final(table).flows@ == flows_after(old(table).flows@, *old(self), action),
            flows_valid(final(table).flows@),
    {
        if self.index >= table.flows.len() {
            return RoundAction::Finish;
        }
        let index: usize = self.index;
        let ghost before = table.flows@;
        let mut present: bool = false;
        let mut expired: bool = false;
        let mut due: bool = false;
        let mut has_deadline: bool = false;
        if let Some(flow) = &table.flows[index] {
            present = true;
            expired = flow.expired;
            due = flow.is_packet_due(self.now);
            has_deadline = flow.expires.is_some();
        }
        if !present || (expired && !self.begun) {
            self.index = index + 1;
            self.begun = false;
            return RoundAction::GoOn;
        }
        if !self.begun {
            self.begun = true;
            let mut dropout: bool = false;
            if let Some(flow) = &mut table.flows[index] {
                dropout = flow.resync(self.now, max_lag_samples);
            }
            let action = RoundAction::BeginFlow { index, dropout };
            assert(table.flows@ =~= flows_after(before, *old(self), action));
            return action;
        }
        if due {
            return RoundAction::SendPacket { index };
        }
        if self.process_events && has_deadline {
            return RoundAction::ListenToReceiver { index };
        }
        self.index = index + 1;
        self.begun = false;
        RoundAction::GoOn
    }

    /// A packet was handed over to the network, `written` bytes of it; `None` if that failed. Returns
    /// whether the clock has to be looked at.
    pub fn packet_handled(&mut self, table: &mut TxFlows, written: Option<usize>, to_send: usize) -> (check_clock: bool)
        requires
            old(self).index < old(table).flows@.len(),
            old(table).flows@[old(self).index as int] is Some,
            old(self).iterations < usize::MAX,
        ensures
            *final(self) == (TransmitRound { iterations: (old(self).iterations + 1) as usize, ..*old(self) }),
            check_clock == ((old(self).iterations + 1) % PACKETS_BETWEEN_CLOCK_CHECKS as int == 0),
            ({
                let i = old(self).index as int;
                let flow = old(table).flows@[i]->0;
                final(table).flows@ == if written == Some(to_send) {
                    old(table).flows@.update(
                        i,
                        Some(TxFlow { next_ts: flow.next_ts.wrapping_add(flow.fpp as Clock), ..flow }),
                    )
                } else {
                    old(table).flows@
                }
            }),
    {
        let index: usize = self.index;
        let ghost before = table.flows@;
        if let Some(written) = written {
            if written == to_send {
                if let Some(flow) = &mut table.flows[index] {
                    flow.packet_sent(written, to_send);
                }
                assert(table.flows@ =~= before.update(index as int, table.flows@[index as int]));
            }
        }
        self.iterations = self.iterations + 1;
        self.iterations % PACKETS_BETWEEN_CLOCK_CHECKS == 0
    }

    /// Whether the round is broken off because it has taken too long, to avoid CPU lockup; it is
    /// not if the clock is not known.
    pub fn has_taken_too_long(&self, real_now: Option<Clock>, sample_rate: u32) -> (too_long: bool)
        ensures
            too_long == (real_now matches Some(real_now) && clock_diff(real_now, self.now) > sample_rate / 200),
    {
        match real_now {
            Some(real_now) => should_yield(real_now, self.now, sample_rate),
            None => false,
        }
    }

    /// The receiver of the flow gave a sign of life, or did not; the next flow follows.
    pub fn receiver_checked(&mut self, table: &mut TxFlows, received: bool, sample_rate: u32)
        requires
            old(self).index < old(table).flows@.len(),
            old(table).flows@[old(self).index as int] is Some,
        ensures
            *final(self) == (TransmitRound {
                index: (old(self).index + 1) as usize,
                begun: false,
                ..*old(self)
            }),
            ({
                let i = old(self).index as int;
                let flow = old(table).flows@[i]->0;
                final(table).flows@ == old(table).flows@.update(
                    i,
                    Some(
                        match flow.expires {
                            None => flow,
                            Some(expires) => if received {
                                TxFlow { expires: Some(keepalive_deadline(old(self).now, sample_rate)), ..flow }
                            } else if clock_diff(expires, old(self).now) < 0 {
                                TxFlow { expired: true, ..flow }
                            } else {
                                flow
                            },
                        },
                    ),
                )
            }),
    {
        let index: usize = self.index;
        let len: usize = table.flows.len();
        let ghost before = table.flows@;
        let now: Clock = self.now;
        if let Some(flow) = &mut table.flows[index] {
            flow.check_keepalive(received, now, sample_rate);
        }
        assert(table.flows@ =~= before.update(index as int, table.flows@[index as int]));
        assert(index < len);
        self.index = index + 1;
        self.begun = false;
    }
}

/// After a flow has been begun, it is never further behind than the greatest lag, nor a packet
/// further ahead than the next one.
pub proof fn begun_flow_is_near(
    round: TransmitRound,
    flows: Seq<Option<TxFlow>>,
    max_lag_samples: usize,
)
    requires
        round.index < flows.len(),
        is_active(flows, round.index as int),
        !round.begun,
        0 < flows[round.index as int]->0.fpp <= i64::MAX,
        max_lag_samples <= i64::MAX,
    ensures
        ({
            let action = action_of(round, flows, max_lag_samples);
            let flow = flows_after(flows, round, action)[round.index as int]->0;
            let lag = clock_diff(round.now, flow.next_ts);
            &&& action is BeginFlow
            &&& lag <= max_lag_samples
            &&& lag >= -crate::flows_tx::DISCONTINUITY_THRESHOLD_SAMPLES || lag >= -flow.fpp
        }),
{
    let flow = flows[round.index as int]->0;
    let fpp = flow.fpp as int;
    let m = crate::common::clock_modulus();
    if flow.is_off(round.now, max_lag_samples) {
        vstd::arithmetic::div_mod::lemma_mod_bound(round.now as int, fpp);
        let next = next_packet_start(round.now, fpp);
        let ahead = fpp - round.now as int % fpp;
        assert(next == round.now + ahead || next == round.now + ahead - m);
        crate::common::lemma_signed_residue_within_turn(round.now - next, m);
    }
}

} // verus!

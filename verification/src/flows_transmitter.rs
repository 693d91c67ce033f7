//! The transmitter as a whole: when it waits, what it does after that, and how it executes commands.

use crate::common::{clock_diff, Clock};
use crate::flow_table::FlowData;
use crate::flows_tx::{
    choose_wait, earlier, first_due, keepalive_deadline, next_packet_start, published, published_timestamp, started_flow,
    TxFlow, TxFlows, TxSchedule, Wait, MAX_FLOWS, NO_TIMESTAMP, SELECT_THRESHOLD_NS,
};
use crate::transmit_round::{flows_valid, is_active};
use vstd::prelude::*;

verus! {

pub enum Command {
    NoOp,
    Shutdown,
    AddFlow {
        index: usize,
        channel_indices: Vec<Option<usize>>,
        fpp: usize,
        bytes_per_sample: usize,
        needs_keepalives: bool,
        expired: bool,
    },
    RemoveFlow { index: usize },
    SetChannels { index: usize, channel_indices: Vec<Option<usize>> },
    /// the grace period of a multicast flow is over
    ActivateFlow { index: usize },
}

/// How the transmitter waits, and what it publishes before that.
#[derive(Debug, Clone, Copy, PartialEq, Eq, Structural)]
pub struct Turn {
    /// the timestamp of the next packet, `NO_TIMESTAMP` if it will not be sent soon
    pub published: usize,
    pub wait: Wait,
}

/// How a wait has ended.
#[derive(Debug, Clone, Copy, PartialEq, Eq, Structural)]
pub enum WaitEnd {
    /// asleep, after the time was over
    Slept,
    /// listening, after the time was over
    ListenedInVain,
    /// a command has come, or no more will come
    CommandCame,
}

/// What is done after a wait.
#[derive(Debug, Clone, Copy, PartialEq, Eq)]
pub struct AfterWait {
    /// a round of packets takes place at this time, if any; whether receivers are listened to
    pub round: Option<(Clock, bool)>,
    /// whether a command is looked for
    pub look_for_command: bool,
}

/// The transmitter: its flows and its schedule.
pub struct FlowsTransmitterInternal {
    pub table: TxFlows,
    pub schedule: TxSchedule,
    pub sample_rate: u32,
}

/// How many nanoseconds are waited.
pub open spec fn waited_ns(duration_ns: Option<u64>) -> u64 {
    match duration_ns {
        Some(ns) => ns,
        None => crate::flows_tx::IDLE_WAIT_NS,
    }
}

/// The flow after all flows were put in time.
pub open spec fn put_in_time(flow: Option<TxFlow>, now: Clock, sample_rate: u32) -> Option<TxFlow> {
    match flow {
        None => None,
        Some(flow) => Some(
            TxFlow {
                next_ts: next_packet_start(now, flow.fpp as int),
                expires: if flow.expires is Some {
                    Some(keepalive_deadline(now, sample_rate))
                } else {
                    None
                },
                ..flow
            },
        ),
    }
}

/// The flow after its channels were changed.
pub open spec fn with_channels(
    flow: TxFlow,
    channel_indices: Vec<Option<usize>>,
    now: Option<Clock>,
    sample_rate: u32,
) -> TxFlow {
    TxFlow {
        channel_indices,
        next_ts: if flow.expired && now is Some {
            next_packet_start(now->0, flow.fpp as int)
        } else {
            flow.next_ts
        },
        expires: if flow.expires is Some && now is Some {
            Some(keepalive_deadline(now->0, sample_rate))
        } else {
            flow.expires
        },
        expired: false,
        ..flow
    }
}

/// Whether the flows are what they are after the command was executed.
pub open spec fn is_executed(
    before: Seq<Option<TxFlow>>,
    after: Seq<Option<TxFlow>>,
    command: Command,
    now: Option<Clock>,
    sample_rate: u32,
) -> bool {
    match command {
        Command::AddFlow { index, channel_indices, fpp, bytes_per_sample, needs_keepalives, expired } => {
            &&& after.len() == before.len()
            &&& after[index as int] is Some
            &&& started_flow(
                channel_indices@,
                fpp,
                bytes_per_sample,
                needs_keepalives,
                expired,
                now,
                sample_rate,
                after[index as int]->0,
            )
            &&& forall|i: int| 0 <= i < before.len() && i != index ==> #[trigger] after[i] == before[i]
        },
        Command::RemoveFlow { index } => after == before.update(index as int, None),
        Command::SetChannels { index, channel_indices } => after == before.update(
            index as int,
            Some(with_channels(before[index as int]->0, channel_indices, now, sample_rate)),
        ),
        Command::ActivateFlow { index } => after == before.update(
            index as int,
            Some(TxFlow { expired: false, ..before[index as int]->0 }),
        ),
        _ => after == before,
    }
}

impl FlowsTransmitterInternal {
    pub open spec fn wf(&self) -> bool {
        &&& self.table.flows@.len() == MAX_FLOWS
        &&& flows_valid(self.table.flows@)
        &&& self.schedule.max_interval_samples matches Some(interval) ==> interval * 2 <= i64::MAX
    }

    /// A transmitter without flows; `max_interval_samples` is given if somebody has to be notified of
    /// transfers.
    pub fn new(sample_rate: u32, max_interval_samples: Option<Clock>) -> (transmitter: Self)
        requires
            max_interval_samples matches Some(interval) ==> interval * 2 <= i64::MAX,
        ensures
            transmitter.wf(),
            transmitter.table.flows@ == Seq::new(MAX_FLOWS as nat, |i: int| None::<TxFlow>),
            transmitter.schedule == (TxSchedule { next_on_transfer: 0, next_process_events: 0, max_interval_samples }),
            transmitter.sample_rate == sample_rate,
    {
        FlowsTransmitterInternal { table: TxFlows::new(), schedule: TxSchedule::new(0, max_interval_samples), sample_rate }
    }

    /// The clock is ready for the first time: all flows are put in time.
    pub fn clock_ready(&mut self, now: Clock)
        requires
            old(self).wf(),
        ensures
            final(self).wf(),
            final(self).schedule == old(self).schedule,
            final(self).sample_rate == old(self).sample_rate,
            forall|i: int|
                0 <= i < MAX_FLOWS ==> #[trigger] final(self).table.flows@[i] == put_in_time(
                    old(self).table.flows@[i],
                    now,
                    old(self).sample_rate,
                ),
    {
        self.table.bootstrap_all(now, self.sample_rate);
    }

    /// The transmitter starts at `now`.
    pub fn start(&mut self, now: Clock)
        requires
            old(self).wf(),
        ensures
            final(self).wf(),
            final(self).table == old(self).table,
            final(self).sample_rate == old(self).sample_rate,
            final(self).schedule == (TxSchedule {
                next_on_transfer: now,
                next_process_events: now,
                ..old(self).schedule
            }),
    {
        self.schedule = TxSchedule::new(now, self.schedule.max_interval_samples);
    }

    /// Until when there is nothing to do; `None` if nothing is due at all.
    pub fn sleep_until(&self) -> (until: Option<Clock>)
        ensures
            ({
                let due = first_due(self.table.flows@, self.table.flows@.len() as int);
                until == if self.schedule.max_interval_samples is Some {
                    Some(earlier(due, self.schedule.next_on_transfer))
                } else {
                    due
                }
            }),
    {
        self.schedule.sleep_until(self.table.min_next_ts())
    }

    /// Plans the wait until something has to be done, which is in `duration_ns` nanoseconds.
    pub fn plan_turn(&self, duration_ns: Option<u64>) -> (turn: Turn)
        ensures
            turn == if waited_ns(duration_ns) < SELECT_THRESHOLD_NS {
                Turn {
                    published: published(first_due(self.table.flows@, self.table.flows@.len() as int)),
                    wait: Wait::Sleep { nanoseconds: waited_ns(duration_ns) },
                }
            } else {
                Turn { published: NO_TIMESTAMP, wait: Wait::Listen { nanoseconds: waited_ns(duration_ns) } }
            },
    {
        let wait = choose_wait(duration_ns);
        match wait {
            Wait::Sleep { .. } => Turn { published: published_timestamp(self.table.min_next_ts()), wait },
            Wait::Listen { .. } => Turn { published: NO_TIMESTAMP, wait },
        }
    }

    /// Decides what is done after a wait; `now` is `None` if the clock is not ready.
    pub fn wait_over(&mut self, end: WaitEnd, now: Option<Clock>) -> (after: AfterWait)
        requires
            old(self).wf(),
        ensures
            final(self).wf(),
            final(self).table == old(self).table,
            final(self).sample_rate == old(self).sample_rate,
            ({
                let due = now matches Some(now) && clock_diff(now, old(self).schedule.next_process_events) >= 0;
                &&& after.round == match now {
                    Some(now) => match end {
                        WaitEnd::Slept => Some((now, due)),
                        WaitEnd::ListenedInVain => Some((now, true)),
                        WaitEnd::CommandCame => None,
                    },
                    None => None,
                }
                &&& after.look_for_command == (end is Slept && (now is None || due))
                &&& final(self).schedule == if end is Slept && due {
                    TxSchedule {
                        next_process_events: now->0.wrapping_add((old(self).sample_rate / 30) as Clock),
                        ..old(self).schedule
                    }
                } else {
                    old(self).schedule
                }
            }),
    {
        match (end, now) {
            (WaitEnd::Slept, Some(now)) => {
                let due: bool = self.schedule.events_due(now, self.sample_rate);
                AfterWait { round: Some((now, due)), look_for_command: due }
            },
            (WaitEnd::Slept, None) => AfterWait { round: None, look_for_command: true },
            (WaitEnd::ListenedInVain, Some(now)) => AfterWait { round: Some((now, true)), look_for_command: false },
            _ => AfterWait { round: None, look_for_command: false },
        }
    }

    /// Plans the next notification at the end of a turn; it is not changed if the clock is not ready.
    pub fn end_turn(&mut self, now: Option<Clock>)
        requires
            old(self).wf(),
        ensures
            final(self).wf(),
            final(self).table == old(self).table,
            final(self).sample_rate == old(self).sample_rate,
            final(self).schedule == match (now, old(self).schedule.max_interval_samples) {
                (Some(now), Some(max_interval)) => TxSchedule {
                    next_on_transfer: TxSchedule::next_notification(
                        old(self).schedule.next_on_transfer,
                        now,
                        max_interval,
                    ),
                    ..old(self).schedule
                },
                _ => old(self).schedule,
            },
    {
        if let Some(now) = now {
            self.schedule.plan_notification(now);
        }
    }

    /// Whether the command speaks of flows as they are.
    pub open spec fn can_execute(&self, command: Command) -> bool {
        match command {
            Command::AddFlow { index, fpp, .. } => {
                &&& index < MAX_FLOWS
                &&& self.table.flows@[index as int] is None
                &&& fpp > 0
            },
            Command::RemoveFlow { index } => index < MAX_FLOWS,
            Command::SetChannels { index, .. } => {
                &&& index < MAX_FLOWS
                &&& self.table.flows@[index as int] is Some
            },
            Command::ActivateFlow { index } => {
                &&& index < MAX_FLOWS
                &&& self.table.flows@[index as int] is Some
            },
            _ => true,
        }
    }

    /// Whether the command can be executed.
    pub fn is_executable(&self, command: &Command) -> (executable: bool)
        requires
            self.wf(),
        ensures
            executable == self.can_execute(*command),
    {
        match command {
            Command::AddFlow { index, fpp, .. } => *index < MAX_FLOWS as usize && self.table.flows[*index].is_none()
                && *fpp > 0,
            Command::RemoveFlow { index } => *index < MAX_FLOWS as usize,
            Command::SetChannels { index, .. } => *index < MAX_FLOWS as usize && self.table.flows[*index].is_some(),
            Command::ActivateFlow { index } => *index < MAX_FLOWS as usize && self.table.flows[*index].is_some(),
            _ => true,
        }
    }

    /// Executes a command; returns whether the transmitter goes on.
    pub fn handle_command(&mut self, command: Command, now: Option<Clock>) -> (go_on: bool)
        requires
            old(self).wf(),
            old(self).can_execute(command),
        ensures
            final(self).wf(),
            final(self).schedule == old(self).schedule,
            final(self).sample_rate == old(self).sample_rate,
            go_on == !(command is Shutdown),
            is_executed(old(self).table.flows@, final(self).table.flows@, command, now, old(self).sample_rate),
    {
        match command {
            Command::NoOp => true,
            Command::Shutdown => false,
            Command::AddFlow { index, channel_indices, fpp, bytes_per_sample, needs_keepalives, expired } => {
                self.table.add_flow(
                    index,
                    channel_indices,
                    fpp,
                    bytes_per_sample,
                    needs_keepalives,
                    expired,
                    now,
                    self.sample_rate,
                );
                true
            },
            Command::RemoveFlow { index } => {
                self.table.remove_flow(index);
                true
            },
            Command::SetChannels { index, channel_indices } => {
                self.table.set_channels(index, channel_indices, now, self.sample_rate);
                true
            },
            Command::ActivateFlow { index } => {
                self.table.activate(index);
                true
            },
        }
    }
}

/// Whether the table of flows and the transmitter agree on which flows there are and which of them
/// are held back.
pub open spec fn flags_agree(table: Seq<Option<FlowData>>, flows: Seq<Option<TxFlow>>) -> bool {
    &&& table.len() == flows.len()
    &&& forall|i: int|
        #![trigger table[i]]
        #![trigger flows[i]]
        0 <= i < table.len() ==> {
            &&& table[i] is Some <==> flows[i] is Some
            &&& table[i] is Some ==> table[i]->0.expired == flows[i]->0.expired
        }
}

/// A multicast flow is sent after it was activated in the table and the transmitter has executed the
/// command which comes of it, and the two still agree on all flows.
pub proof fn activated_flow_is_sent(
    table: Seq<Option<FlowData>>,
    before: Seq<Option<TxFlow>>,
    after: Seq<Option<TxFlow>>,
    index: int,
    now: Option<Clock>,
    sample_rate: u32,
)
    requires
        flags_agree(table, before),
        0 <= index < table.len() <= usize::MAX,
        table[index] is Some,
        is_executed(before, after, (Command::ActivateFlow { index: index as usize }), now, sample_rate),
    ensures
        is_active(after, index),
        flags_agree(
            table.update(index, Some(FlowData { expired: false, ..table[index]->0 })),
            after,
        ),
{
}

/// After commands were looked for at `last`, they are looked for again as soon as a 30th of a second
/// has passed, and not before.
pub proof fn commands_are_looked_for(schedule: TxSchedule, last: Clock, now: Clock, sample_rate: u32)
    requires
        schedule.next_process_events == last.wrapping_add((sample_rate / 30) as Clock),
        0 <= clock_diff(now, last),
        clock_diff(now, last) <= i64::MAX - sample_rate,
    ensures
        clock_diff(now, schedule.next_process_events) >= 0 <==> clock_diff(now, last) >= sample_rate / 30,
{
    let m = crate::common::clock_modulus();
    let k = (sample_rate / 30) as int;
    let d = clock_diff(now, last);
    let next = schedule.next_process_events;
    assert(next == last + k || next == last + k - m);
    crate::common::lemma_signed_residue_within_turn(now - last, m);
    crate::common::lemma_signed_residue_within_turn(d - k, m);
    assert((now - next) % m == (d - k) % m) by {
        assert(now - next == d - k || now - next == d - k + m || now - next == d - k - m);
        vstd::arithmetic::div_mod::lemma_mod_add_multiples_vanish(d - k, m);
        vstd::arithmetic::div_mod::lemma_mod_sub_multiples_vanish(d - k, m);
    }
}

} // verus!

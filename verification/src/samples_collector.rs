//! Collection of received samples: reading of all channels at the same moment.

use crate::common::{
    clock_diff, clock_modulus, clock_position, lemma_signed_residue_within_turn, position_of_clock,
    wrapped_diff, Clock, ClockDiff, Sample,
};
use crate::real_time_box_channel::RealTimeBoxSender;
use crate::ring_buffer::{ProxyToBuffer, RBOutput, RingBufferShared};
use vstd::prelude::*;

verus! {

pub const BUFFER_SIZE: usize = 65536;

pub const SANE_CLOCK_DIFF: Clock = 192000;

pub const MAX_LAG_SAMPLES: Clock = 9600;

// ---------------------------------------------------------------------------------------------
// Channels
// ---------------------------------------------------------------------------------------------

/// What is remembered of a channel between readings.
#[derive(Debug, Clone, Copy, PartialEq, Eq, Structural)]
pub struct Channel {
    pub id: usize,
    pub prev_holes_count: usize,
    pub latency_samples: Clock,
    /// whether anything has ever been received
    pub was_connected: bool,
}

/// What is read: samples, and silence where nothing useful can be read.
pub open spec fn collected<P: ProxyToBuffer<Sample>>(
    rb: RingBufferShared<Sample, P>,
    start: usize,
    before: Seq<Sample>,
) -> Seq<Sample> {
    let read = rb.read_items(start, before);
    let useful = rb.useful_items(start, before.len() as int);
    Seq::new(
        before.len(),
        |k: int|
            if useful.0 <= k < useful.1 {
                read[k]
            } else {
                0
            },
    )
}

/// What is remembered after `count` samples were read.
pub open spec fn channel_after<P: ProxyToBuffer<Sample>>(
    ch: Channel,
    rb: RingBufferShared<Sample, P>,
    start: usize,
    count: int,
) -> Channel {
    let useful = rb.useful_items(start, count);
    Channel {
        prev_holes_count: rb.holes(),
        was_connected: ch.was_connected || useful.0 < useful.1,
        ..ch
    }
}

/// Whether no samples were lost: no more were given up since the last reading, and as soon as the
/// channel is connected none are missing.
pub open spec fn is_good<P: ProxyToBuffer<Sample>>(
    ch: Channel,
    rb: RingBufferShared<Sample, P>,
    start: usize,
    count: int,
) -> bool {
    let useful = rb.useful_items(start, count);
    &&& rb.holes() == ch.prev_holes_count
    &&& useful.0 == 0 || !ch.was_connected
    &&& useful.1 == count || !channel_after(ch, rb, start, count).was_connected
}

fn fill_silence(buffer: &mut [Sample], from: usize, to: usize)
    requires
        from <= to <= old(buffer)@.len(),
    ensures
        final(buffer)@ == Seq::new(
            old(buffer)@.len(),
            |k: int|
                if from <= k < to {
                    0
                } else {
                    old(buffer)@[k]
                },
        ),
{
    let mut i: usize = from;
    while i < to
        invariant
            from <= i <= to <= buffer@.len(),
            buffer@.len() == old(buffer)@.len(),
            forall|k: int|
                0 <= k < buffer@.len() ==> #[trigger] buffer@[k] == if from <= k < i {
                    0
                } else {
                    old(buffer)@[k]
                },
        decreases to - i,
    {
        buffer[i] = 0;
        i = i + 1;
    }
    assert(buffer@ =~= Seq::new(
        old(buffer)@.len(),
        |k: int|
            if from <= k < to {
                0
            } else {
                old(buffer)@[k]
            },
    ));
}

impl Channel {
    /// A channel which was just connected.
    pub fn new(channel_index: usize, latency_samples: Clock) -> (ch: Self)
        requires
            channel_index < usize::MAX,
        ensures
            ch == new_channel(channel_index, latency_samples),
    {
        Channel { id: channel_index + 1, prev_holes_count: 0, latency_samples, was_connected: false }
    }

    /// Reads samples; returns whether none were lost.
    pub fn read_samples_from_ringbuffer<P: ProxyToBuffer<Sample>>(
        &mut self,
        source: &RBOutput<Sample, P>,
        start_timestamp: Clock,
        buffer: &mut [Sample],
    ) -> (good: bool)
        requires
            source.spec_shared().wf(),
        ensures
            final(buffer)@ == collected(
                source.spec_shared(),
                clock_position(start_timestamp),
                old(buffer)@,
            ),
            *final(self) == channel_after(
                *old(self),
                source.spec_shared(),
                clock_position(start_timestamp),
                old(buffer)@.len() as int,
            ),
            good == is_good(
                *old(self),
                source.spec_shared(),
                clock_position(start_timestamp),
                old(buffer)@.len() as int,
            ),
    {
        let mut good: bool = true;
        let holes_count: usize = source.holes_count();
        if holes_count != self.prev_holes_count {
            // reorder buffer timeout
            self.prev_holes_count = holes_count;
            good = false;
        }
        let r = source.read_at(position_of_clock(start_timestamp), buffer);
        let len: usize = buffer.len();
        if r.useful_start_index != 0 {
            // buffer underrun or overwritten in the meantime
            if self.was_connected {
                good = false;
            }
            // clear whatever junk data was contained at the beginning of buffer
            fill_silence(buffer, 0, r.useful_start_index);
        }
        if r.useful_start_index < r.useful_end_index {
            self.was_connected = true;
        }
        if r.useful_end_index != len {
            // buffer underrun
            if self.was_connected {
                good = false;
            }
            fill_silence(buffer, r.useful_end_index, len);
        }
        assert(buffer@ =~= collected(
            source.spec_shared(),
            clock_position(start_timestamp),
            old(buffer)@,
        ));
        good
    }

    /// Reads the latest samples which are due at the given moment; returns whether none were lost.
    pub fn get_samples<P: ProxyToBuffer<Sample>>(
        &mut self,
        source: &RBOutput<Sample, P>,
        start_timestamp: Clock,
        buffer: &mut [Sample],
    ) -> (good: bool)
        requires
            source.spec_shared().wf(),
        ensures
            ({
                let start = due_start(start_timestamp, old(self).latency_samples, old(buffer)@.len() as int);
                &&& final(buffer)@ == collected(source.spec_shared(), clock_position(start), old(buffer)@)
                &&& *final(self) == channel_after(
                    *old(self),
                    source.spec_shared(),
                    clock_position(start),
                    old(buffer)@.len() as int,
                )
                &&& good == is_good(
                    *old(self),
                    source.spec_shared(),
                    clock_position(start),
                    old(buffer)@.len() as int,
                )
            }),
    {
        let len: usize = buffer.len();
        let start: Clock = start_timestamp.wrapping_sub(self.latency_samples).wrapping_sub(len as Clock);
        self.read_samples_from_ringbuffer(source, start, buffer)
    }
}

/// Where the latest `count` samples start which are due at the given moment.
pub open spec fn due_start(timestamp: Clock, latency_samples: Clock, count: int) -> Clock {
    timestamp.wrapping_sub(latency_samples).wrapping_sub(count as Clock)
}

/// Reads a channel, or silence if it is not connected; returns whether no samples were lost.
pub fn get_samples_or_silence<P: ProxyToBuffer<Sample>>(
    channel: &mut Option<Channel>,
    source: &Option<RBOutput<Sample, P>>,
    start_timestamp: Clock,
    buffer: &mut [Sample],
) -> (good: bool)
    requires
        *old(channel) is Some <==> *source is Some,
        *source matches Some(s) ==> s.spec_shared().wf(),
    ensures
        *old(channel) is None ==> *final(channel) is None && good && final(buffer)@ == Seq::new(
            old(buffer)@.len(),
            |k: int| 0i32,
        ),
        *old(channel) is Some ==> {
            let ch = old(channel)->0;
            let rb = source->0.spec_shared();
            let count = old(buffer)@.len() as int;
            let start = clock_position(due_start(start_timestamp, ch.latency_samples, count));
            &&& final(buffer)@ == collected(rb, start, old(buffer)@)
            &&& *final(channel) == Some(channel_after(ch, rb, start, count))
            &&& good == is_good(ch, rb, start, count)
        },
{
    match source {
        Some(source) => {
            let mut good: bool = true;
            if let Some(ch) = channel {
                good = ch.get_samples(source, start_timestamp, buffer);
            }
            good
        },
        None => {
            let len: usize = buffer.len();
            fill_silence(buffer, 0, len);
            assert(buffer@ =~= Seq::new(old(buffer)@.len(), |k: int| 0i32));
            true
        },
    }
}

// ---------------------------------------------------------------------------------------------
// Times
// ---------------------------------------------------------------------------------------------

/// The earliest one of the first `n` clocks, seen one after another.
pub open spec fn earliest(clocks: Seq<Clock>, n: int) -> Clock
    decreases n,
{
    if n <= 1 {
        clocks[0]
    } else {
        let before = earliest(clocks, n - 1);
        if clock_diff(before, clocks[n - 1]) > 0 {
            clocks[n - 1]
        } else {
            before
        }
    }
}

/// The latest one of the first `n` clocks, seen one after another.
pub open spec fn latest(clocks: Seq<Clock>, n: int) -> Clock
    decreases n,
{
    if n <= 1 {
        clocks[0]
    } else {
        let before = latest(clocks, n - 1);
        if clock_diff(before, clocks[n - 1]) > 0 {
            before
        } else {
            clocks[n - 1]
        }
    }
}

/// The earliest and the latest clock; `None` if there is none.
pub fn get_min_max_end_timestamps(clocks: &Vec<Clock>) -> (r: Option<(Clock, Clock)>)
    ensures
        r is Some <==> clocks@.len() > 0,
        r matches Some(x) ==> x.0 == earliest(clocks@, clocks@.len() as int) && x.1 == latest(
            clocks@,
            clocks@.len() as int,
        ),
{
    if clocks.len() == 0 {
        return None;
    }
    let mut min: Clock = clocks[0];
    let mut max: Clock = clocks[0];
    let mut i: usize = 1;
    while i < clocks.len()
        invariant
            1 <= i <= clocks@.len(),
            min == earliest(clocks@, i as int),
            max == latest(clocks@, i as int),
        decreases clocks@.len() - i,
    {
        if wrapped_diff(min, clocks[i]) > 0 {
            min = clocks[i];
        }
        if wrapped_diff(max, clocks[i]) <= 0 {
            max = clocks[i];
        }
        i = i + 1;
    }
    Some((min, max))
}

/// How many samples can be read from the timestamp on in all channels.
pub fn get_available_num_samples(clocks: &Vec<Clock>, start_timestamp: Clock) -> (count: Clock)
    ensures
        count == if clocks@.len() == 0 || clock_diff(
            earliest(clocks@, clocks@.len() as int),
            start_timestamp,
        ) <= 0 {
            0
        } else {
            clock_diff(earliest(clocks@, clocks@.len() as int), start_timestamp)
        },
{
    match get_min_max_end_timestamps(clocks) {
        Some((end_ts, _)) => {
            let diff: ClockDiff = wrapped_diff(end_ts, start_timestamp);
            if diff > 0 {
                diff as Clock
            } else {
                0
            }
        },
        None => 0,
    }
}

/// Whether the clocks lie near each other: from `base` on, within a quarter of the clock range.
pub open spec fn are_near(clocks: Seq<Clock>, base: Clock) -> bool {
    forall|i: int|
        0 <= i < clocks.len() ==> 0 <= clock_diff(#[trigger] clocks[i], base) < clock_modulus() / 4
}

proof fn lemma_diff_of_near(a: Clock, b: Clock, base: Clock)
    requires
        0 <= clock_diff(a, base) < clock_modulus() / 4,
        0 <= clock_diff(b, base) < clock_modulus() / 4,
    ensures
        clock_diff(a, b) == clock_diff(a, base) - clock_diff(b, base),
{
    let m = clock_modulus();
    lemma_signed_residue_within_turn(a - base, m);
    lemma_signed_residue_within_turn(b - base, m);
    lemma_signed_residue_within_turn(a - b, m);
}

/// Where clocks lie near each other, none is earlier than the earliest nor later than the latest,
/// and both are among them.
pub proof fn earliest_and_latest_bound_all(clocks: Seq<Clock>, base: Clock, n: int, i: int)
    requires
        are_near(clocks, base),
        0 <= i < n <= clocks.len(),
    ensures
        clock_diff(earliest(clocks, n), clocks[i]) <= 0,
        clock_diff(latest(clocks, n), clocks[i]) >= 0,
        exists|k: int| 0 <= k < n && earliest(clocks, n) == #[trigger] clocks[k],
        exists|k: int| 0 <= k < n && latest(clocks, n) == #[trigger] clocks[k],
    decreases n,
{
    if n > 1 {
        let j = if i < n - 1 { i } else { 0 };
        earliest_and_latest_bound_all(clocks, base, n - 1, j);
        let e = choose|k: int| 0 <= k < n - 1 && earliest(clocks, n - 1) == #[trigger] clocks[k];
        let l = choose|k: int| 0 <= k < n - 1 && latest(clocks, n - 1) == #[trigger] clocks[k];
        lemma_diff_of_near(clocks[e], clocks[n - 1], base);
        lemma_diff_of_near(clocks[l], clocks[n - 1], base);
        lemma_diff_of_near(clocks[n - 1], clocks[i], base);
        lemma_diff_of_near(clocks[e], clocks[i], base);
        lemma_diff_of_near(clocks[l], clocks[i], base);
        assert(clocks[n - 1] == clocks[n - 1]);
    } else {
        lemma_diff_of_near(clocks[0], clocks[0], base);
    }
}

// ---------------------------------------------------------------------------------------------
// Periodic collection
// ---------------------------------------------------------------------------------------------

/// What is read at a tick.
#[derive(Debug, Clone, Copy, PartialEq, Eq, Structural)]
pub struct ReadPlan {
    pub readable_until: Clock,
    /// `None`: nothing is read because it was not known yet where to start
    pub start_timestamp: Option<Clock>,
    pub count: usize,
    /// where to start at the next tick
    pub next_clock: Clock,
}

/// Up to where all channels are read: those which lag too much are left behind.
pub open spec fn common_end(min_end: Clock, max_end: Clock) -> Clock {
    if max_end.wrapping_sub(min_end) > MAX_LAG_SAMPLES {
        max_end.wrapping_sub(MAX_LAG_SAMPLES)
    } else {
        min_end
    }
}

/// What is read at a tick when the previous one ended at `clock`.
pub open spec fn plan_of(min_end: Clock, max_end: Clock, clock: Option<Clock>) -> ReadPlan {
    let until = common_end(min_end, max_end);
    match clock {
        None => ReadPlan { readable_until: until, start_timestamp: None, count: 0, next_clock: until },
        Some(clock) => {
            let new_samples = until.wrapping_sub(clock);
            let insane = new_samples > SANE_CLOCK_DIFF;
            let start = if insane {
                until.wrapping_sub(SANE_CLOCK_DIFF)
            } else {
                clock
            };
            let count = if new_samples > BUFFER_SIZE {
                BUFFER_SIZE
            } else {
                new_samples as usize
            };
            ReadPlan {
                readable_until: until,
                start_timestamp: Some(start),
                count,
                next_clock: start.wrapping_add(count as Clock),
            }
        },
    }
}

/// Decides what is read at a tick.
pub fn plan_read(min_end_ts: Clock, max_end_ts: Clock, clock: Option<Clock>) -> (plan: ReadPlan)
    ensures
        plan == plan_of(min_end_ts, max_end_ts, clock),
{
    // lag prevention logic to prevent abruptly disconnected transmitters from causing buffer overrun
    // in other audio channels
    let lag: Clock = max_end_ts.wrapping_sub(min_end_ts);
    let readable_until: Clock = if lag > MAX_LAG_SAMPLES {
        max_end_ts.wrapping_sub(MAX_LAG_SAMPLES)
    } else {
        min_end_ts
    };
    match clock {
        Some(clock) => {
            // we already have clock, use it as a start timestamp
            let mut start_timestamp: Clock = clock;
            let mut readable_samples_count: Clock = readable_until.wrapping_sub(start_timestamp);
            if readable_samples_count > SANE_CLOCK_DIFF {
                readable_samples_count = SANE_CLOCK_DIFF;
                start_timestamp = readable_until.wrapping_sub(readable_samples_count);
            }
            if readable_samples_count > BUFFER_SIZE as Clock {
                readable_samples_count = BUFFER_SIZE as Clock;
            }
            ReadPlan {
                readable_until,
                start_timestamp: Some(start_timestamp),
                count: readable_samples_count as usize,
                next_clock: start_timestamp.wrapping_add(readable_samples_count),
            }
        },
        // we don't have clock yet, bootstrap it using currently available timestamp
        None => ReadPlan { readable_until, start_timestamp: None, count: 0, next_clock: readable_until },
    }
}

/// Readings follow each other without gaps: unless the clock is insane, a reading starts where the
/// previous one ended, and it never goes beyond what all channels have which are not left behind.
pub proof fn readings_are_contiguous(min_end: Clock, max_end: Clock, clock: Clock)
    ensures
        ({
            let plan = plan_of(min_end, max_end, Some(clock));
            let new_samples = common_end(min_end, max_end).wrapping_sub(clock);
            &&& new_samples <= SANE_CLOCK_DIFF ==> plan.start_timestamp == Some(clock) && plan.next_clock
                == clock.wrapping_add(plan.count as Clock)
            &&& plan.count <= BUFFER_SIZE
            &&& plan.readable_until.wrapping_sub(plan.start_timestamp->0) >= plan.count
            &&& new_samples <= BUFFER_SIZE ==> plan.next_clock == common_end(min_end, max_end)
        }),
{
}

pub struct PeriodicSamplesCollector {
    pub channels: Vec<Option<Channel>>,
    pub clock: Option<Clock>,
}

/// What is asked of a collector.
#[derive(Debug, Clone, Copy, PartialEq, Eq, Structural)]
pub enum Command {
    NoOp,
    Shutdown,
    ConnectChannel { channel_index: usize, latency_samples: Clock },
    DisconnectChannel { channel_index: usize },
}

/// Whether the command speaks of no other channels than there are.
pub open spec fn is_valid_command(command: Option<Command>, channels_count: int) -> bool {
    match command {
        Some(Command::ConnectChannel { channel_index, .. }) => channel_index < channels_count,
        Some(Command::DisconnectChannel { channel_index }) => channel_index < channels_count,
        _ => true,
    }
}

/// The channel which was just connected.
pub open spec fn new_channel(channel_index: usize, latency_samples: Clock) -> Channel {
    Channel {
        id: (channel_index + 1) as usize,
        prev_holes_count: 0,
        latency_samples,
        was_connected: false,
    }
}

/// What the channels are after a command.
pub open spec fn channels_after(channels: Seq<Option<Channel>>, command: Option<Command>) -> Seq<Option<Channel>> {
    match command {
        Some(Command::ConnectChannel { channel_index, latency_samples }) => channels.update(
            channel_index as int,
            Some(new_channel(channel_index, latency_samples)),
        ),
        Some(Command::DisconnectChannel { channel_index }) => channels.update(channel_index as int, None),
        _ => channels,
    }
}

/// Whether the collector goes on after a command; without one, nobody is left to give commands.
pub open spec fn goes_on(command: Option<Command>) -> bool {
    command is Some && command->0 !is Shutdown
}

/// The readable positions of the first `n` sources which are there, as clocks.
pub open spec fn ends_of<P: ProxyToBuffer<Sample>>(sources: Seq<Option<RBOutput<Sample, P>>>, n: int) -> Seq<Clock>
    decreases n,
{
    if n <= 0 {
        Seq::empty()
    } else {
        match sources[n - 1] {
            Some(source) => ends_of(sources, n - 1).push(source.spec_shared().readable() as Clock),
            None => ends_of(sources, n - 1),
        }
    }
}

/// Whether a channel takes part in a reading: it is connected and has everything which is read.
pub open spec fn takes_part<P: ProxyToBuffer<Sample>>(source: Option<RBOutput<Sample, P>>, until: Clock) -> bool {
    source matches Some(s) && clock_diff(s.spec_shared().readable() as Clock, until) >= 0
}

/// Whether a channel was read, or silence instead.
pub open spec fn is_collected<P: ProxyToBuffer<Sample>>(
    source: Option<RBOutput<Sample, P>>,
    plan: ReadPlan,
    ch_before: Option<Channel>,
    ch_after: Option<Channel>,
    before: Seq<Sample>,
    after: Seq<Sample>,
) -> bool {
    let start = clock_position(plan.start_timestamp->0);
    let count = plan.count as int;
    if takes_part(source, plan.readable_until) {
        let rb = source->0.spec_shared();
        &&& after == collected(rb, start, before.take(count)) + before.skip(count)
        &&& ch_after == Some(channel_after(ch_before->0, rb, start, count))
    } else {
        &&& after == Seq::new(count as nat, |k: int| 0i32) + before.skip(count)
        &&& ch_after == ch_before
    }
}

impl PeriodicSamplesCollector {
    /// A collector of channels, none of which is connected.
    pub fn new(channels_count: usize) -> (collector: Self)
        ensures
            collector.channels@ == Seq::new(channels_count as nat, |i: int| None::<Channel>),
            collector.clock is None,
    {
        let mut channels: Vec<Option<Channel>> = Vec::new();
        let mut i: usize = 0;
        while i < channels_count
            invariant
                i <= channels_count,
                channels@ == Seq::new(i as nat, |i: int| None::<Channel>),
            decreases channels_count - i,
        {
            channels.push(None);
            i = i + 1;
            assert(channels@ =~= Seq::new(i as nat, |i: int| None::<Channel>));
        }
        PeriodicSamplesCollector { channels, clock: None }
    }

    pub fn connect_channel(&mut self, channel_index: usize, latency_samples: Clock)
        requires
            channel_index < old(self).channels@.len(),
        ensures
            final(self).clock == old(self).clock,
            final(self).channels@ == old(self).channels@.update(
                channel_index as int,
                Some(new_channel(channel_index, latency_samples)),
            ),
    {
        let _len: usize = self.channels.len();
        self.channels.set(channel_index, Some(Channel::new(channel_index, latency_samples)));
    }

    pub fn disconnect_channel(&mut self, channel_index: usize)
        requires
            channel_index < old(self).channels@.len(),
        ensures
            final(self).clock == old(self).clock,
            final(self).channels@ == old(self).channels@.update(channel_index as int, None),
    {
        self.channels.set(channel_index, None);
    }

    /// Does what a command asks for; `false` if the collector has to stop.
    pub fn handle_command(&mut self, command_opt: Option<Command>) -> (go_on: bool)
        requires
            is_valid_command(command_opt, old(self).channels@.len() as int),
        ensures
            go_on == goes_on(command_opt),
            final(self).clock == old(self).clock,
            final(self).channels@ == channels_after(old(self).channels@, command_opt),
    {
        match command_opt {
            Some(command) => match command {
                Command::ConnectChannel { channel_index, latency_samples } => {
                    self.connect_channel(channel_index, latency_samples);
                    true
                },
                Command::DisconnectChannel { channel_index } => {
                    self.disconnect_channel(channel_index);
                    true
                },
                Command::Shutdown => false,
                Command::NoOp => true,
            },
            None => false,
        }
    }

    /// Whether the sources are those of the connected channels, and there is a buffer for each channel.
    pub open spec fn can_collect<P: ProxyToBuffer<Sample>>(
        &self,
        sources: Seq<Option<RBOutput<Sample, P>>>,
        buffers: Seq<Vec<Sample>>,
    ) -> bool {
        &&& sources.len() == self.channels@.len()
        &&& buffers.len() == self.channels@.len()
        &&& forall|i: int|
            0 <= i < sources.len() ==> {
                &&& #[trigger] sources[i] is Some <==> self.channels@[i] is Some
                &&& sources[i] matches Some(s) ==> s.spec_shared().wf()
            }
        &&& forall|i: int| 0 <= i < buffers.len() ==> (#[trigger] buffers[i])@.len() == BUFFER_SIZE
    }

    fn collect_channel<P: ProxyToBuffer<Sample>>(
        &mut self,
        i: usize,
        source: &Option<RBOutput<Sample, P>>,
        plan: ReadPlan,
        buffer: &mut [Sample],
    )
        requires
            i < old(self).channels@.len(),
            old(self).channels@[i as int] is Some <==> *source is Some,
            *source matches Some(s) ==> s.spec_shared().wf(),
            plan.start_timestamp is Some,
            plan.count <= old(buffer)@.len(),
        ensures
            final(self).clock == old(self).clock,
            final(self).channels@ == old(self).channels@.update(i as int, final(self).channels@[i as int]),
            is_collected(
                *source,
                plan,
                old(self).channels@[i as int],
                final(self).channels@[i as int],
                old(buffer)@,
                final(buffer)@,
            ),
    {
        let ghost before = buffer@;
        let ghost channels = self.channels@;
        let start_timestamp: Clock = match plan.start_timestamp {
            Some(start) => start,
            None => 0,
        };
        let mut reading: bool = false;
        if let Some(s) = source {
            // a channel may have become connected, or may lag too much
            reading = wrapped_diff(s.readable_until() as Clock, plan.readable_until) >= 0;
        }
        if reading {
            if let Some(s) = source {
                let (head, _tail) = buffer.split_at_mut(plan.count);
                assert(head@ =~= before.take(plan.count as int));
                if let Some(ch) = &mut self.channels[i] {
                    ch.read_samples_from_ringbuffer(s, start_timestamp, head);
                }
            }
            assert(buffer@ =~= collected(
                source->0.spec_shared(),
                clock_position(start_timestamp),
                before.take(plan.count as int),
            ) + before.skip(plan.count as int));
        } else {
            fill_silence(buffer, 0, plan.count);
            assert(buffer@ =~= Seq::new(plan.count as nat, |k: int| 0i32) + before.skip(
                plan.count as int,
            ));
        }
        assert(self.channels@ =~= channels.update(i as int, self.channels@[i as int]));
    }

    /// Reads all channels at a tick; returns how many samples there are in each buffer, or `None` if
    /// nothing is to be done with them.
    pub fn collect<P: ProxyToBuffer<Sample>>(
        &mut self,
        sources: &Vec<Option<RBOutput<Sample, P>>>,
        buffers: &mut Vec<Vec<Sample>>,
    ) -> (count: Option<usize>)
        requires
            old(self).can_collect(sources@, old(buffers)@),
        ensures
            final(self).channels@.len() == old(self).channels@.len(),
            final(buffers)@.len() == old(buffers)@.len(),
            ({
                let ends = ends_of(sources@, sources@.len() as int);
                let n = ends.len() as int;
                let plan = plan_of(earliest(ends, n), latest(ends, n), old(self).clock);
                if n == 0 {
                    &&& count is None
                    &&& final(self).channels@ == old(self).channels@
                    &&& final(self).clock == old(self).clock
                    &&& final(buffers)@ == old(buffers)@
                } else if plan.start_timestamp is None {
                    &&& count is None
                    &&& final(self).channels@ == old(self).channels@
                    &&& final(self).clock == Some(plan.next_clock)
                    &&& final(buffers)@ == old(buffers)@
                } else {
                    &&& count == Some(plan.count)
                    &&& final(self).clock == Some(plan.next_clock)
                    &&& forall|i: int|
                        0 <= i < sources@.len() ==> is_collected(
                            #[trigger] sources@[i],
                            plan,
                            old(self).channels@[i],
                            final(self).channels@[i],
                            old(buffers)@[i]@,
                            final(buffers)@[i]@,
                        )
                }
            }),
    {
        let mut ends: Vec<Clock> = Vec::new();
        let mut k: usize = 0;
        while k < sources.len()
            invariant
                k <= sources@.len(),
                ends@ == ends_of(sources@, k as int),
            decreases sources@.len() - k,
        {
            if let Some(source) = &sources[k] {
                ends.push(source.readable_until() as Clock);
            }
            k = k + 1;
        }
        let (min_end_ts, max_end_ts) = match get_min_max_end_timestamps(&ends) {
            Some(r) => r,
            None => {
                return None;
            },
        };
        let plan = plan_read(min_end_ts, max_end_ts, self.clock);
        if plan.start_timestamp.is_none() {
            self.clock = Some(plan.next_clock);
            return None;
        }
        let count: usize = self.channels.len();
        let mut i: usize = 0;
        while i < count
            invariant
                i <= count,
                count == self.channels@.len(),
                count == old(self).channels@.len(),
                count == sources@.len(),
                count == buffers@.len(),
                count == old(buffers)@.len(),
                old(self).can_collect(sources@, old(buffers)@),
                plan.start_timestamp is Some,
                plan.count <= BUFFER_SIZE,
                self.clock == old(self).clock,
                forall|j: int| i <= j < count ==> #[trigger] buffers@[j] == old(buffers)@[j],
                forall|j: int| i <= j < count ==> #[trigger] self.channels@[j] == old(self).channels@[j],
                forall|j: int|
                    0 <= j < i ==> is_collected(
                        #[trigger] sources@[j],
                        plan,
                        old(self).channels@[j],
                        self.channels@[j],
                        old(buffers)@[j]@,
                        buffers@[j]@,
                    ),
            decreases count - i,
        {
            let ghost channels_before = self.channels@;
            let ghost buffers_before = buffers@;
            assert(sources@[i as int] is Some <==> old(self).channels@[i as int] is Some);
            assert(buffers@[i as int]@.len() == BUFFER_SIZE);
            self.collect_channel(i, &sources[i], plan, buffers[i].as_mut_slice());
            assert(buffers@ =~= buffers_before.update(i as int, buffers@[i as int]));
            i = i + 1;
        }
        self.clock = Some(plan.next_clock);
        Some(plan.count)
    }
}

// ---------------------------------------------------------------------------------------------
// Handing over of channels to a realtime thread
// ---------------------------------------------------------------------------------------------

pub struct ToRealTime {
    pub senders: Vec<RealTimeBoxSender<Option<Channel>>>,
}

/// Which channel is handed over to the realtime thread because of a command, and at which index.
pub fn channel_to_send(command_opt: Option<Command>) -> (sent: Option<(usize, Option<Channel>)>)
    requires
        command_opt matches Some(Command::ConnectChannel { channel_index, latency_samples }) ==> channel_index
            < usize::MAX,
    ensures
        sent == match command_opt {
            Some(Command::ConnectChannel { channel_index, latency_samples }) => Some(
                (channel_index, Some(new_channel(channel_index, latency_samples))),
            ),
            Some(Command::DisconnectChannel { channel_index }) => Some((channel_index, None)),
            _ => None,
        },
{
    match command_opt {
        Some(Command::ConnectChannel { channel_index, latency_samples }) => Some(
            (channel_index, Some(Channel::new(channel_index, latency_samples))),
        ),
        Some(Command::DisconnectChannel { channel_index }) => Some((channel_index, None)),
        _ => None,
    }
}

impl ToRealTime {
    /// Hands channels over as a command asks for and frees what is not needed any more; `false` if no
    /// more commands are to be expected.
    pub fn handle_command(&self, command_opt: Option<Command>) -> (go_on: bool)
        requires
            is_valid_command(command_opt, self.senders@.len() as int),
        ensures
            go_on == goes_on(command_opt),
    {
        let count: usize = self.senders.len();
        if let Some((channel_index, channel)) = channel_to_send(command_opt) {
            self.senders[channel_index].send(Box::new(channel));
        }
        let go_on: bool = match command_opt {
            Some(Command::Shutdown) => false,
            Some(_) => true,
            None => false,
        };
        if go_on {
            let mut i: usize = 0;
            while i < count
                invariant
                    i <= count,
                    count == self.senders@.len(),
                decreases count - i,
            {
                self.senders[i].collect_garbage();
                i = i + 1;
            }
        }
        go_on
    }
}

} // verus!

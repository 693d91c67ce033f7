//! A virtual device in an audio graph: when the graph has to be triggered, and how many samples
//! are exchanged.

use crate::common::Clock;
use crate::ring_buffer::{position_diff, wrapsub};
use vstd::prelude::*;
use vstd::string::StringExecFns;

verus! {

/// A stream whose position is further away than this is moved, in samples.
pub const LARGE_DRIFT: isize = 12000;

#[derive(Debug, Clone, Copy, PartialEq, Eq, Structural)]
pub enum Direction {
    FromNetwork,
    ToNetwork,
}

impl Direction {
    pub fn select<T>(&self, from_network: T, to_network: T) -> (selected: T)
        ensures
            *self is FromNetwork ==> selected == from_network,
            *self is ToNetwork ==> selected == to_network,
    {
        match self {
            Self::FromNetwork => from_network,
            Self::ToNetwork => to_network,
        }
    }
}

/// The name of the node of a stream.
pub fn node_name(app_name: &str, dir: Direction) -> (name: String)
    ensures
        name@ == app_name@ + " ("@ + (if dir is FromNetwork {
            "from"@
        } else {
            "to"@
        }) + " network)"@,
{
    let mut name = app_name.to_owned();
    name.append(" (");
    name.append(dir.select("from", "to"));
    name.append(" network)");
    name
}

/// The rate of a node.
pub fn node_rate(sample_rate: u32) -> (rate: String)
    ensures
        rate@ == "1/"@ + crate::text::decimal(sample_rate as nat),
{
    let mut rate = "1/".to_owned();
    rate.append(crate::text::decimal_string(sample_rate as u64).as_str());
    rate
}

/// The state of a stream.
#[derive(Debug, Clone, Copy, PartialEq, Eq, Structural)]
pub struct StreamState {
    pub frames_per_callback: usize,
    pub next_ts: usize,
    pub to_catchup: isize,
    pub remaining_process: isize,
}

/// Whether the stream is so late that it has to be triggered once more.
pub open spec fn is_too_late(dir: Direction, drift: int, frames_per_callback: int) -> bool {
    match dir {
        Direction::FromNetwork => drift > frames_per_callback * 2,
        Direction::ToNetwork => drift > frames_per_callback,
    }
}

/// Whether the stream is so early that samples may not be ready yet.
pub open spec fn is_too_early(dir: Direction, drift: int, frames_per_callback: int) -> bool {
    &&& !is_too_late(dir, drift, frames_per_callback)
    &&& match dir {
        Direction::FromNetwork => drift < 0,
        Direction::ToNetwork => drift < -frames_per_callback,
    }
}

pub open spec fn is_large_drift(drift: int) -> bool {
    drift > LARGE_DRIFT || drift < -LARGE_DRIFT
}

/// How many times the stream is triggered.
pub open spec fn trigger_count(dir: Direction, drift: int, frames_per_callback: int) -> int {
    (if !is_large_drift(drift) && is_too_late(dir, drift, frames_per_callback) {
        1int
    } else {
        0int
    }) + (if is_too_early(dir, drift, frames_per_callback) {
        0int
    } else {
        1int
    })
}

impl StreamState {
    pub open spec fn wf(&self) -> bool {
        2 * self.frames_per_callback <= isize::MAX
    }

    pub fn new(frames_per_callback: usize, next_ts: usize) -> (state: Self)
        requires
            2 * frames_per_callback <= isize::MAX,
        ensures
            state.wf(),
            state == (StreamState { frames_per_callback, next_ts, to_catchup: 0, remaining_process: 0 }),
    {
        StreamState { frames_per_callback, next_ts, to_catchup: 0, remaining_process: 0 }
    }

    /// Decides how many times the stream is triggered. A stream which is too far away from the clock
    /// is moved to it, and some samples are dropped.
    pub fn handle_state(&mut self, dir: Direction, now: usize) -> (trig_count: isize)
        requires
            old(self).wf(),
        ensures
            final(self).wf(),
            ({
                let drift = position_diff(now, old(self).next_ts);
                &&& trig_count == trigger_count(dir, drift, old(self).frames_per_callback as int)
                &&& *final(self) == (StreamState {
                    next_ts: if is_large_drift(drift) {
                        now
                    } else {
                        old(self).next_ts
                    },
                    remaining_process: old(self).remaining_process.wrapping_add(trig_count),
                    ..*old(self)
                })
            }),
    {
        let drift: isize = wrapsub(now, self.next_ts);
        let frames: isize = self.frames_per_callback as isize;
        let mut trig_count: isize = 0;
        let too_late: bool = match dir {
            Direction::FromNetwork => drift > frames * 2,
            Direction::ToNetwork => drift > frames,
        };
        if drift > LARGE_DRIFT || drift < -LARGE_DRIFT {
            // large clock drift detected, dropping some samples
            self.next_ts = now;
        } else if too_late {
            // catching up
            trig_count = trig_count + 1;
        }
        let too_early: bool = !too_late && match dir {
            Direction::FromNetwork => drift < 0,
            Direction::ToNetwork => drift < -frames,
        };
        if !too_early {
            // do not call if realtime thread is too early - we may try to dequeue not yet ready samples
            trig_count = trig_count + 1;
        }
        self.remaining_process = self.remaining_process.wrapping_add(trig_count);
        trig_count
    }

    /// The samples which are exchanged when there is space for `max_n_samples` of them or there are
    /// that many: `None` if there are none. Returns where they start and how many there are.
    pub fn process(&mut self, dir: Direction, max_n_samples: usize) -> (exchanged: Option<(usize, usize)>)
        requires
            old(self).wf(),
        ensures
            final(self).wf(),
            ({
                let wanted = if dir is FromNetwork && max_n_samples > old(self).frames_per_callback {
                    old(self).frames_per_callback as int
                } else {
                    max_n_samples as int
                };
                let catching_up = wanted > 0 && old(self).to_catchup > 0;
                let more = if !catching_up {
                    0
                } else if old(self).to_catchup < old(self).frames_per_callback {
                    old(self).to_catchup as int
                } else {
                    old(self).frames_per_callback as int
                };
                let count = if wanted + more > max_n_samples {
                    max_n_samples as int
                } else {
                    wanted + more
                };
                &&& exchanged is Some <==> wanted > 0
                &&& exchanged matches Some(x) ==> x.0 == old(self).next_ts && x.1 == count
                &&& *final(self) == (StreamState {
                    remaining_process: old(self).remaining_process.wrapping_sub(1),
                    to_catchup: (old(self).to_catchup - more) as isize,
                    next_ts: if wanted > 0 {
                        old(self).next_ts.wrapping_add(count as usize)
                    } else {
                        old(self).next_ts
                    },
                    ..*old(self)
                })
            }),
    {
        self.remaining_process = self.remaining_process.wrapping_sub(1);
        let mut n_samples: usize = match dir {
            Direction::FromNetwork => if max_n_samples > self.frames_per_callback {
                self.frames_per_callback
            } else {
                max_n_samples
            },
            Direction::ToNetwork => max_n_samples,
        };
        if n_samples == 0 {
            return None;
        }
        let to_catchup: isize = self.to_catchup;
        if to_catchup > 0 {
            let frames: isize = self.frames_per_callback as isize;
            let add_samples: isize = if to_catchup < frames {
                to_catchup
            } else {
                frames
            };
            self.to_catchup = to_catchup - add_samples;
            let room: usize = max_n_samples - n_samples;
            if (add_samples as usize) > room {
                n_samples = max_n_samples;
            } else {
                n_samples = n_samples + add_samples as usize;
            }
        }
        let start_ts: usize = self.next_ts;
        self.next_ts = start_ts.wrapping_add(n_samples);
        Some((start_ts, n_samples))
    }
}

/// The clock at which the thread wakes up next: where it has jumped by more than half a second, it is
/// counted anew from `now`.
pub fn plan_wakeup(now: Clock, next_wakeup: Clock, sample_rate: u32, frames_per_callback: Clock) -> (next: Clock)
    ensures
        ({
            let drift = crate::common::clock_diff(now, next_wakeup);
            let jumped = drift > sample_rate / 2 || drift < -(sample_rate / 2);
            next == (if jumped {
                now
            } else {
                next_wakeup
            }).wrapping_add(frames_per_callback)
        }),
{
    let drift: i64 = crate::common::wrapped_diff(now, next_wakeup);
    let limit: i64 = (sample_rate / 2) as i64;
    if drift > limit || drift < -limit {
        now.wrapping_add(frames_per_callback)
    } else {
        next_wakeup.wrapping_add(frames_per_callback)
    }
}

/// A stream which is triggered in time follows the clock: unless the clock is far away, it is
/// triggered when at least as many samples are due as are exchanged at once, and it is not triggered
/// before the clock has reached it.
pub proof fn stream_follows_clock(dir: Direction, drift: int, frames_per_callback: int)
    requires
        0 <= frames_per_callback,
    ensures
        drift >= frames_per_callback ==> trigger_count(dir, drift, frames_per_callback) >= 1,
        trigger_count(dir, drift, frames_per_callback) == 2 ==> drift > frames_per_callback,
        drift < -frames_per_callback ==> trigger_count(dir, drift, frames_per_callback) == 0,
{
}

} // verus!

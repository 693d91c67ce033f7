//! A virtual soundcard: where the hardware pointer is, how memory is laid out, which streams run.

use crate::common::{signed_residue, Clock};
use crate::ring_buffer::{position_diff, wrapsub};
use crate::text::{number_of, parse_number};
use vstd::prelude::*;
use vstd::utf8::encode_utf8;

verus! {

/// The value of the current timestamp which says that there is none.
pub const NO_TIMESTAMP: usize = usize::MAX;

/// The least and the greatest number of samples in a period; powers of 2.
pub const MIN_SAMPLES: u32 = 64;

pub const MAX_SAMPLES: u32 = 16384;

pub const BYTES_PER_SAMPLE: u32 = 4;

pub const BITS_PER_SAMPLE: u32 = 32;

#[derive(Debug, Clone, Copy, PartialEq, Eq, Structural)]
pub enum StreamDirection {
    Capture,
    Playback,
}

// ---------------------------------------------------------------------------------------------
// Hardware pointer
// ---------------------------------------------------------------------------------------------

/// The position of a stream.
#[derive(Debug, Clone, Copy, PartialEq, Eq, Structural)]
pub struct StreamPosition {
    /// pointers are counted modulo this
    pub boundary: isize,
    /// multiples of the boundary which have to be subtracted
    pub boundary_add: isize,
    /// the clock at which position 0 is
    pub start_time: Option<usize>,
}

/// What came out of asking for the pointer.
#[derive(Debug, Clone, Copy, PartialEq, Eq, Structural)]
pub struct Pointer {
    /// the clock of position 0, if it was fixed just now
    pub started_at: Option<Clock>,
    /// the pointer; `None`: an overrun or underrun
    pub pointer: Option<isize>,
}

impl StreamPosition {
    pub open spec fn wf(&self) -> bool {
        self.boundary > 0
    }

    /// A stream which is about to start.
    pub fn new(boundary: isize) -> (position: Self)
        requires
            boundary > 0,
        ensures
            position.wf(),
            position == (StreamPosition { boundary, boundary_add: 0, start_time: None }),
    {
        StreamPosition { boundary, boundary_add: 0, start_time: None }
    }

    /// Fixes the clock of position 0 when the stream starts, if the clock is there and it is not fixed
    /// yet; returns it.
    pub fn start(&mut self, now_samples: Option<Clock>) -> (started_at: Option<Clock>)
        ensures
            started_at == if old(self).start_time is None {
                now_samples
            } else {
                None
            },
            *final(self) == (StreamPosition {
                start_time: match started_at {
                    Some(now) => Some(crate::common::clock_position(now)),
                    None => old(self).start_time,
                },
                ..*old(self)
            }),
    {
        if self.start_time.is_some() {
            return None;
        }
        if let Some(now) = now_samples {
            self.start_time = Some(crate::common::position_of_clock(now));
        }
        now_samples
    }

    /// The number of samples since the start: by the clock of transfers if there is one, because
    /// sample precision is required, else by the clock of the network.
    pub open spec fn elapsed(&self, cur: usize, now_samples: Option<Clock>) -> int {
        if self.start_time is Some && cur != NO_TIMESTAMP {
            position_diff(cur, self.start_time->0)
        } else {
            match now_samples {
                Some(now) => match self.start_time {
                    Some(start) => position_diff(crate::common::clock_position(now), start),
                    None => 0,
                },
                None => 0,
            }
        }
    }

    /// How many samples are buffered for or by the application, whose pointer is `appl_ptr`.
    pub open spec fn buffered(elapsed: int, direction: StreamDirection, appl_ptr: isize) -> int {
        let modulus = crate::ring_buffer::position_modulus();
        match direction {
            StreamDirection::Capture => signed_residue(elapsed - appl_ptr, modulus),
            StreamDirection::Playback => signed_residue(appl_ptr - elapsed, modulus),
        }
    }

    /// The pointer before it is brought back below the boundary.
    pub open spec fn raw_pointer(&self, elapsed: int) -> int {
        signed_residue(elapsed + self.boundary_add, crate::ring_buffer::position_modulus())
    }

    /// Where the hardware pointer is. A stream which is running and has nothing buffered any more
    /// has an overrun or underrun.
    pub fn pointer(
        &mut self,
        cur: usize,
        now_samples: Option<Clock>,
        direction: StreamDirection,
        appl_ptr: isize,
        running: bool,
    ) -> (r: Pointer)
        requires
            old(self).wf(),
        ensures
            final(self).wf(),
            ({
                let elapsed = old(self).elapsed(cur, now_samples);
                let xrun = running && StreamPosition::buffered(elapsed, direction, appl_ptr) < 0;
                let raw = old(self).raw_pointer(elapsed);
                let passed = !xrun && raw > old(self).boundary;
                &&& r.started_at == if old(self).start_time is Some {
                    None
                } else {
                    now_samples
                }
                &&& r.pointer == if xrun {
                    None
                } else if passed {
                    Some((raw - old(self).boundary) as isize)
                } else {
                    Some(raw as isize)
                }
                &&& final(self).boundary == old(self).boundary
                &&& final(self).boundary_add == if passed {
                    old(self).boundary_add.wrapping_sub(old(self).boundary)
                } else {
                    old(self).boundary_add
                }
                &&& final(self).start_time == match r.started_at {
                    Some(now) => Some(crate::common::clock_position(now)),
                    None => old(self).start_time,
                }
            }),
    {
        let (started_at, ptr) = self.elapsed_samples(cur, now_samples);
        if running && buffered_samples(ptr, direction, appl_ptr) < 0 {
            return Pointer { started_at, pointer: None };
        }
        let pointer: isize = self.pass_boundary(ptr);
        Pointer { started_at, pointer: Some(pointer) }
    }

    /// How many samples have passed since the start, which is now if it was not yet.
    fn elapsed_samples(&mut self, cur: usize, now_samples: Option<Clock>) -> (r: (Option<Clock>, isize))
        ensures
            r.0 == if old(self).start_time is Some {
                None
            } else {
                now_samples
            },
            r.1 == old(self).elapsed(cur, now_samples),
            *final(self) == (StreamPosition {
                start_time: match r.0 {
                    Some(now) => Some(crate::common::clock_position(now)),
                    None => old(self).start_time,
                },
                ..*old(self)
            }),
    {
        match self.start_time {
            Some(start) => {
                if cur != NO_TIMESTAMP {
                    return (None, wrapsub(cur, start));
                }
                match now_samples {
                    Some(now) => (None, wrapsub(crate::common::position_of_clock(now), start)),
                    None => (None, 0),
                }
            },
            None => (self.start(now_samples), 0),
        }
    }

    /// The pointer, brought back below the boundary.
    fn pass_boundary(&mut self, ptr: isize) -> (pointer: isize)
        requires
            old(self).wf(),
        ensures
            ({
                let raw = old(self).raw_pointer(ptr as int);
                let passed = raw > old(self).boundary;
                &&& pointer == if passed {
                    raw - old(self).boundary
                } else {
                    raw
                }
                &&& *final(self) == (StreamPosition {
                    boundary_add: if passed {
                        old(self).boundary_add.wrapping_sub(old(self).boundary)
                    } else {
                        old(self).boundary_add
                    },
                    ..*old(self)
                })
            }),
    {
        proof {
            crate::ring_buffer::lemma_isize_range();
            crate::common::lemma_signed_residue_within_turn(
                ptr + self.boundary_add,
                crate::ring_buffer::position_modulus(),
            );
        }
        let raw: isize = ptr.wrapping_add(self.boundary_add);
        if raw > self.boundary {
            self.boundary_add = self.boundary_add.wrapping_sub(self.boundary);
            return raw - self.boundary;
        }
        raw
    }
}

fn buffered_samples(ptr: isize, direction: StreamDirection, appl_ptr: isize) -> (buffered: isize)
    ensures
        buffered == StreamPosition::buffered(ptr as int, direction, appl_ptr),
{
    proof {
        let m = crate::ring_buffer::position_modulus();
        crate::ring_buffer::lemma_isize_range();
        crate::common::lemma_signed_residue_within_turn(ptr - appl_ptr, m);
        crate::common::lemma_signed_residue_within_turn(appl_ptr - ptr, m);
    }
    match direction {
        StreamDirection::Capture => ptr.wrapping_sub(appl_ptr),
        StreamDirection::Playback => appl_ptr.wrapping_sub(ptr),
    }
}

/// As long as the pointer is asked for at least once while the stream passes the boundary, it stays
/// below the boundary, and the next position is counted from there on.
pub proof fn pointer_stays_within_boundary(position: StreamPosition, elapsed: int, later: int)
    requires
        position.wf(),
        0 <= elapsed + position.boundary_add <= 2 * position.boundary,
        2 * position.boundary <= isize::MAX,
        isize::MIN <= position.boundary_add - position.boundary,
        0 <= later - elapsed,
        later + position.boundary_add <= isize::MAX,
    ensures
        ({
            let raw = position.raw_pointer(elapsed);
            let passed = raw > position.boundary;
            let next = StreamPosition {
                boundary_add: if passed {
                    (position.boundary_add - position.boundary) as isize
                } else {
                    position.boundary_add
                },
                ..position
            };
            let shown = if passed {
                raw - position.boundary
            } else {
                raw
            };
            &&& 0 <= shown <= position.boundary
            &&& next.raw_pointer(later) - shown == later - elapsed
        }),
{
    let m = crate::ring_buffer::position_modulus();
    crate::ring_buffer::lemma_isize_range();
    crate::common::lemma_signed_residue_within_turn(elapsed + position.boundary_add, m);
    crate::common::lemma_signed_residue_within_turn(later + position.boundary_add, m);
    crate::common::lemma_signed_residue_within_turn(
        later + position.boundary_add - position.boundary,
        m,
    );
}

// ---------------------------------------------------------------------------------------------
// Memory
// ---------------------------------------------------------------------------------------------

/// Where the samples of a channel are, in bits.
#[derive(Debug, Clone, Copy, PartialEq, Eq, Structural)]
pub struct ChannelArea {
    pub first: u32,
    pub step: u32,
}

/// Where the samples of a channel are, in samples.
#[derive(Debug, Clone, Copy, PartialEq, Eq, Structural)]
pub struct ChannelLayout {
    pub offset: usize,
    pub length: usize,
    pub stride: usize,
}

#[derive(Debug, Clone, Copy, PartialEq, Eq, Structural)]
pub enum LayoutError {
    /// sample size is not measured in whole bytes
    NotWholeBytes,
    /// samples not aligned
    NotAligned,
}

/// The layout of the memory of a channel in a buffer of all channels.
pub fn channel_layout(area: ChannelArea, buffer_size: usize, channels: usize) -> (layout: Result<
    ChannelLayout,
    LayoutError,
>)
    requires
        area.first as int / 32 <= buffer_size * channels <= usize::MAX,
    ensures
        layout is Err <==> area.first % 32 != 0 || area.step % 32 != 0,
        layout == Err::<ChannelLayout, LayoutError>(LayoutError::NotWholeBytes) <==> area.first % 8 != 0
            || area.step % 8 != 0,
        layout matches Ok(l) ==> {
            &&& l.offset * 32 == area.first
            &&& l.stride * 32 == area.step
            &&& l.length == buffer_size * channels - l.offset
        },
{
    if area.first % 8 != 0 || area.step % 8 != 0 {
        return Err(LayoutError::NotWholeBytes);
    }
    if area.first % BITS_PER_SAMPLE != 0 || area.step % BITS_PER_SAMPLE != 0 {
        return Err(LayoutError::NotAligned);
    }
    let offset: usize = (area.first / BITS_PER_SAMPLE) as usize;
    Ok(
        ChannelLayout {
            offset,
            length: buffer_size * channels - offset,
            stride: (area.step / BITS_PER_SAMPLE) as usize,
        },
    )
}

/// The sizes of periods in bytes, the least and the greatest one.
pub fn period_bytes(num_channels: u32) -> (range: (u32, u32))
    requires
        num_channels * BYTES_PER_SAMPLE * MAX_SAMPLES <= u32::MAX,
    ensures
        range.0 == num_channels * BYTES_PER_SAMPLE * MIN_SAMPLES,
        range.1 == num_channels * BYTES_PER_SAMPLE * MAX_SAMPLES,
{
    (num_channels * BYTES_PER_SAMPLE * MIN_SAMPLES, num_channels * BYTES_PER_SAMPLE * MAX_SAMPLES)
}

/// The numbers of samples from `n` on, each twice the one before.
pub open spec fn doublings(n: int) -> Seq<int>
    decreases (if n > MAX_SAMPLES {
        0
    } else {
        MAX_SAMPLES - n + 1
    }),
{
    if n <= 0 || n > MAX_SAMPLES {
        Seq::empty()
    } else {
        seq![n] + doublings(2 * n)
    }
}

/// The sizes of buffers in bytes which are offered: every power of two of samples.
pub fn buffer_sizes(num_channels: u32) -> (sizes: Vec<u32>)
    requires
        num_channels * BYTES_PER_SAMPLE * MAX_SAMPLES <= u32::MAX,
    ensures
        sizes@.len() == doublings(MIN_SAMPLES as int).len(),
        forall|i: int|
            0 <= i < sizes@.len() ==> #[trigger] sizes@[i] == num_channels * BYTES_PER_SAMPLE * doublings(
                MIN_SAMPLES as int,
            )[i],
{
    let mut sizes: Vec<u32> = Vec::new();
    let mut n: u32 = MIN_SAMPLES;
    let ghost all = doublings(MIN_SAMPLES as int);
    assert(all.skip(0) =~= all);
    while n <= MAX_SAMPLES
        invariant
            0 < n <= 2 * MAX_SAMPLES,
            all == doublings(MIN_SAMPLES as int),
            num_channels * BYTES_PER_SAMPLE * MAX_SAMPLES <= u32::MAX,
            sizes@.len() <= all.len(),
            all.skip(sizes@.len() as int) == doublings(n as int),
            forall|i: int|
                0 <= i < sizes@.len() ==> #[trigger] sizes@[i] == num_channels * BYTES_PER_SAMPLE * all[i],
        decreases 2 * MAX_SAMPLES - n,
    {
        let ghost k = sizes@.len() as int;
        let ghost rest = all.skip(k);
        proof {
            assert(doublings(n as int).len() > 0);
            assert(rest[0] == n);
            assert(k < all.len());
            assert(rest[0] == all[k]);
            assert(num_channels * 4 * n <= num_channels * 4 * MAX_SAMPLES) by (nonlinear_arith)
                requires
                    0 <= num_channels,
                    0 <= n <= MAX_SAMPLES,
            ;
        }
        sizes.push(num_channels * BYTES_PER_SAMPLE * n);
        n = n * 2;
        proof {
            assert(all.skip(k + 1) =~= rest.skip(1));
            assert(rest.skip(1) =~= doublings(n as int));
        }
    }
    proof {
        assert(all.skip(sizes@.len() as int).len() == 0);
    }
    sizes
}

/// How many channels a stream has.
pub fn channels_of(direction: StreamDirection, rx_channels: usize, tx_channels: usize) -> (count: usize)
    ensures
        count == match direction {
            StreamDirection::Capture => rx_channels,
            StreamDirection::Playback => tx_channels,
        },
{
    match direction {
        StreamDirection::Capture => rx_channels,
        StreamDirection::Playback => tx_channels,
    }
}

/// The number of channels in a setting: 2 if it is not there; `None` if it is not a number.
pub fn read_channels_count(setting: &Option<String>) -> (count: Option<usize>)
    ensures
        *setting is None ==> count == Some(2usize),
        *setting matches Some(s) ==> {
            let number = number_of(encode_utf8(s@), 10, usize::MAX as int);
            &&& count is Some <==> number is Some
            &&& count is Some ==> count->0 == number->0
        },
{
    match setting {
        Some(s) => match parse_number(s.as_str().as_bytes(), 10, usize::MAX as u64) {
            Some(n) => Some(n as usize),
            None => None,
        },
        None => Some(2),
    }
}

// ---------------------------------------------------------------------------------------------
// Streams
// ---------------------------------------------------------------------------------------------

/// Which streams run.
#[derive(Debug, Clone, Copy, PartialEq, Eq, Structural)]
pub struct Streams {
    pub capturing: bool,
    pub playing: bool,
}

/// What the device has to do.
#[derive(Debug, Clone, Copy, PartialEq, Eq, Structural)]
pub enum DeviceCommand {
    StartReceiver,
    StartTransmitter,
    StopReceiver,
    StopTransmitter,
    Shutdown,
}

impl Streams {
    pub open spec fn is_running(&self, direction: StreamDirection) -> bool {
        match direction {
            StreamDirection::Capture => self.capturing,
            StreamDirection::Playback => self.playing,
        }
    }

    pub open spec fn with(self, direction: StreamDirection, running: bool) -> Streams {
        match direction {
            StreamDirection::Capture => Streams { capturing: running, ..self },
            StreamDirection::Playback => Streams { playing: running, ..self },
        }
    }

    /// A stream is about to start; one which runs already is stopped before.
    pub fn prepare(&mut self, direction: StreamDirection) -> (commands: Vec<DeviceCommand>)
        ensures
            *final(self) == old(self).with(direction, true),
            commands@ == match direction {
                StreamDirection::Capture => if old(self).capturing {
                    seq![DeviceCommand::StopReceiver, DeviceCommand::StartReceiver]
                } else {
                    seq![DeviceCommand::StartReceiver]
                },
                StreamDirection::Playback => if old(self).playing {
                    seq![DeviceCommand::StopTransmitter, DeviceCommand::StartTransmitter]
                } else {
                    seq![DeviceCommand::StartTransmitter]
                },
            },
    {
        let mut commands: Vec<DeviceCommand> = Vec::new();
        match direction {
            StreamDirection::Capture => {
                if self.capturing {
                    commands.push(DeviceCommand::StopReceiver);
                }
                self.capturing = true;
                commands.push(DeviceCommand::StartReceiver);
                assert(old(self).capturing ==> commands@ =~= seq![
                    DeviceCommand::StopReceiver,
                    DeviceCommand::StartReceiver,
                ]);
                assert(!old(self).capturing ==> commands@ =~= seq![DeviceCommand::StartReceiver]);
            },
            StreamDirection::Playback => {
                if self.playing {
                    commands.push(DeviceCommand::StopTransmitter);
                }
                self.playing = true;
                commands.push(DeviceCommand::StartTransmitter);
                assert(old(self).playing ==> commands@ =~= seq![
                    DeviceCommand::StopTransmitter,
                    DeviceCommand::StartTransmitter,
                ]);
                assert(!old(self).playing ==> commands@ =~= seq![DeviceCommand::StartTransmitter]);
            },
        }
        commands
    }

    /// A stream stops; `None` if it did not run.
    pub fn stop(&mut self, direction: StreamDirection) -> (command: Option<DeviceCommand>)
        ensures
            *final(self) == old(self).with(direction, false),
            command == if old(self).is_running(direction) {
                Some(
                    match direction {
                        StreamDirection::Capture => DeviceCommand::StopReceiver,
                        StreamDirection::Playback => DeviceCommand::StopTransmitter,
                    },
                )
            } else {
                None
            },
    {
        match direction {
            StreamDirection::Capture => {
                if self.capturing {
                    self.capturing = false;
                    Some(DeviceCommand::StopReceiver)
                } else {
                    None
                }
            },
            StreamDirection::Playback => {
                if self.playing {
                    self.playing = false;
                    Some(DeviceCommand::StopTransmitter)
                } else {
                    None
                }
            },
        }
    }

    /// A stream was closed: the device shuts down when no stream runs any more.
    pub fn close(&self) -> (command: Option<DeviceCommand>)
        ensures
            command == if !self.capturing && !self.playing {
                Some(DeviceCommand::Shutdown)
            } else {
                None
            },
    {
        if !self.capturing && !self.playing {
            Some(DeviceCommand::Shutdown)
        } else {
            None
        }
    }
}

} // verus!

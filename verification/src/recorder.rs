//! Writing of received samples one after another, as recorders want them.

use crate::common::Sample;
use crate::samples_utils::{bytes_of_sample, sample_bytes};
use vstd::prelude::*;

verus! {

/// How many bytes a sample takes.
pub const SAMPLE_SIZE: usize = 4;

/// The bytes of a sample in the order of the machine.
pub open spec fn native_bytes(s: Sample, little_endian: bool) -> Seq<u8> {
    if little_endian {
        sample_bytes(s).reverse()
    } else {
        sample_bytes(s)
    }
}

/// The byte at `at` among samples of all channels which stand one after another: all channels of
/// one moment, then those of the next.
pub open spec fn interleaved_byte(channels: Seq<Vec<Sample>>, at: int, little_endian: bool) -> u8 {
    let sample = at / 4;
    let moment = sample / (channels.len() as int);
    let channel = sample % (channels.len() as int);
    native_bytes(channels[channel]@[moment], little_endian)[at % 4]
}

/// Samples of all channels one after another.
pub open spec fn interleaved(channels: Seq<Vec<Sample>>, samples_count: int, little_endian: bool) -> Seq<u8> {
    Seq::new(
        (channels.len() * samples_count * 4) as nat,
        |at: int| interleaved_byte(channels, at, little_endian),
    )
}

/// The size of a buffer for a tenth of a second.
pub fn buffer_size(channels_count: usize, sample_rate: u32) -> (size: usize)
    requires
        channels_count * sample_rate * 4 <= usize::MAX,
    ensures
        size == channels_count * sample_rate * 4 / 10,
{
    proof {
        assert(0 <= channels_count * sample_rate) by (nonlinear_arith)
            requires
                0 <= channels_count,
                0 <= sample_rate,
        ;
    }
    channels_count * (sample_rate as usize) * SAMPLE_SIZE / 10
}

/// Puts samples of all channels one after another into the buffer, which grows if need be; returns
/// how many bytes they take.
pub fn interleave(
    channels: &Vec<Vec<Sample>>,
    samples_count: usize,
    little_endian: bool,
    buffer: &mut Vec<u8>,
) -> (len: usize)
    requires
        channels@.len() * samples_count * 4 <= usize::MAX,
        forall|c: int| 0 <= c < channels@.len() ==> samples_count <= (#[trigger] channels@[c])@.len(),
    ensures
        len == channels@.len() * samples_count * 4,
        final(buffer)@.len() == if len > old(buffer)@.len() {
            len as nat
        } else {
            old(buffer)@.len()
        },
        final(buffer)@.take(len as int) == interleaved(channels@, samples_count as int, little_endian),
        final(buffer)@.skip(len as int) == if len > old(buffer)@.len() {
            Seq::empty()
        } else {
            old(buffer)@.skip(len as int)
        },
{
    let count: usize = channels.len();
    proof {
        assert(0 <= count * samples_count) by (nonlinear_arith)
            requires
                0 <= count,
                0 <= samples_count,
        ;
    }
    let len: usize = count * samples_count * SAMPLE_SIZE;
    while buffer.len() < len
        invariant
            buffer@.len() == old(buffer)@.len() || (buffer@.len() > old(buffer)@.len() && buffer@.len() <= len),
            buffer@.take(old(buffer)@.len() as int) == old(buffer)@,
            buffer@.len() >= old(buffer)@.len(),
        decreases len - buffer@.len(),
    {
        let ghost before = buffer@;
        buffer.push(0);
        assert(buffer@.take(old(buffer)@.len() as int) =~= before.take(old(buffer)@.len() as int));
    }
    let size: usize = buffer.len();
    let ghost start = buffer@;
    let mut moment: usize = 0;
    let mut at: usize = 0;
    while moment < samples_count
        invariant
            moment <= samples_count,
            count == channels@.len(),
            count * samples_count * 4 == len,
            len <= size,
            size == buffer@.len(),
            size == start.len(),
            at == moment * count * 4,
            forall|c: int| 0 <= c < count ==> samples_count <= (#[trigger] channels@[c])@.len(),
            forall|x: int| 0 <= x < at ==> #[trigger] buffer@[x] == interleaved_byte(channels@, x, little_endian),
            forall|x: int| len <= x < size ==> #[trigger] buffer@[x] == start[x],
        decreases samples_count - moment,
    {
        let mut c: usize = 0;
        proof {
            assert((moment + 1) * count * 4 <= count * samples_count * 4) by (nonlinear_arith)
                requires
                    moment + 1 <= samples_count,
                    0 <= count,
            ;
            assert((moment + 1) * count * 4 == moment * count * 4 + count * 4) by (nonlinear_arith);
        }
        while c < count
            invariant
                c <= count,
                moment < samples_count,
                count == channels@.len(),
                len <= size,
                size == buffer@.len(),
                size == start.len(),
                moment * count * 4 + count * 4 <= len,
                at == moment * count * 4 + c * 4,
                forall|c: int| 0 <= c < count ==> samples_count <= (#[trigger] channels@[c])@.len(),
                forall|x: int|
                    0 <= x < at ==> #[trigger] buffer@[x] == interleaved_byte(channels@, x, little_endian),
                forall|x: int| len <= x < size ==> #[trigger] buffer@[x] == start[x],
            decreases count - c,
        {
            let ghost before = buffer@;
            let sample: Sample = channels[c][moment];
            let bytes = bytes_of_sample(sample);
            let native: [u8; 4] = if little_endian {
                [bytes[3], bytes[2], bytes[1], bytes[0]]
            } else {
                bytes
            };
            assert(native@ =~= native_bytes(sample, little_endian));
            buffer.set(at, native[0]);
            buffer.set(at + 1, native[1]);
            buffer.set(at + 2, native[2]);
            buffer.set(at + 3, native[3]);
            proof {
                let sample_index = moment * count + c;
                assert(at == sample_index * 4) by (nonlinear_arith)
                    requires
                        at == moment * count * 4 + c * 4,
                        sample_index == moment * count + c,
                ;
                vstd::arithmetic::div_mod::lemma_fundamental_div_mod_converse(
                    sample_index,
                    count as int,
                    moment as int,
                    c as int,
                );
                assert forall|x: int| 0 <= x < at + 4 implies #[trigger] buffer@[x] == interleaved_byte(
                    channels@,
                    x,
                    little_endian,
                ) by {
                    if x >= at {
                        assert(x / 4 == sample_index && x % 4 == x - at);
                    } else {
                        assert(buffer@[x] == before[x]);
                    }
                }
            }
            at = at + 4;
            c = c + 1;
        }
        moment = moment + 1;
    }
    proof {
        assert(samples_count * count * 4 == count * samples_count * 4) by (nonlinear_arith);
        assert(buffer@.take(len as int) =~= interleaved(channels@, samples_count as int, little_endian));
        assert(buffer@.skip(len as int) =~= start.skip(len as int));
        if len > old(buffer)@.len() {
            assert(buffer@.skip(len as int) =~= Seq::empty());
        } else {
            assert(start =~= old(buffer)@) by {
                assert(start.take(old(buffer)@.len() as int) =~= start);
            }
        }
    }
    len
}

} // verus!

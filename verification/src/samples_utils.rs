//! Samples as they stand in packets: signed big-endian numbers of 2, 3 or 4 bytes.

use crate::byte_utils::{be32, be32_at, make_u32, overwrite};
use crate::common::{signed_residue, Sample, USample};
use rand::rngs::SmallRng;
use rand::Rng;
use vstd::prelude::*;

verus! {

/// The number of values of a sample.
pub open spec fn sample_modulus() -> int {
    0x1_0000_0000
}

/// The bits of a sample as an unsigned number.
pub open spec fn sample_bits(s: Sample) -> u32 {
    (s as int % sample_modulus()) as u32
}

/// The four bytes of a sample, the most significant one first.
pub open spec fn sample_bytes(s: Sample) -> Seq<u8> {
    be32(sample_bits(s))
}

/// The sample whose most significant bytes are given; missing bytes are zeros.
pub open spec fn sample_from_bytes(b: Seq<u8>) -> int {
    signed_residue(
        be32_at(b + seq![0u8, 0u8, 0u8, 0u8], 0),
        sample_modulus(),
    )
}

proof fn lemma_bits_as_sample(u: u32)
    ensures
        u as i32 == signed_residue(u as int, sample_modulus()),
{
    assert(u <= 0x7fff_ffff ==> (u as i32) == u) by (bit_vector);
    assert(u > 0x7fff_ffff ==> (u as i32) == u - 0x1_0000_0000) by (bit_vector);
}

proof fn lemma_sample_as_bits(s: i32)
    ensures
        s as u32 == sample_bits(s),
{
    assert(s >= 0 ==> (s as u32) == s) by (bit_vector);
    assert(s < 0 ==> (s as u32) == s + 0x1_0000_0000) by (bit_vector);
}

proof fn lemma_leading_bytes(u: u32)
    ensures
        be32_at(be32(u) + seq![0u8, 0u8, 0u8, 0u8], 0) == u,
        be32_at(be32(u).take(3) + seq![0u8, 0u8, 0u8, 0u8], 0) == u - u % 256,
        be32_at(be32(u).take(2) + seq![0u8, 0u8, 0u8, 0u8], 0) == u - u % 65536,
{
    let b0 = (u / 0x100_0000) as u8;
    let b1 = (u / 0x1_0000 % 256) as u8;
    let b2 = (u / 0x100 % 256) as u8;
    let b3 = (u % 256) as u8;
    assert(be32(u) + seq![0u8, 0u8, 0u8, 0u8] =~= seq![b0, b1, b2, b3, 0u8, 0u8, 0u8, 0u8]);
    assert(be32(u).take(3) + seq![0u8, 0u8, 0u8, 0u8] =~= seq![b0, b1, b2, 0u8, 0u8, 0u8, 0u8]);
    assert(be32(u).take(2) + seq![0u8, 0u8, 0u8, 0u8] =~= seq![b0, b1, 0u8, 0u8, 0u8, 0u8]);
    assert(b0 * 0x100_0000 + b1 * 0x1_0000 == u - u % 65536);
    assert(b2 * 0x100 + b3 == u % 65536);
}

/// Clearing low bits of a sample is the same as clearing them in its unsigned form.
proof fn lemma_cleared_bits(s: Sample, k: int)
    requires
        k == 1 || k == 256 || k == 65536,
    ensures
        signed_residue(sample_bits(s) - sample_bits(s) as int % k, sample_modulus()) == s - s as int % k,
{
    let u = sample_bits(s) as int;
    if s < 0 {
        vstd::arithmetic::div_mod::lemma_mod_add_multiples_vanish(s as int, sample_modulus());
        vstd::arithmetic::div_mod::lemma_small_mod((s + sample_modulus()) as nat, sample_modulus() as nat);
        assert(u == s + 0x1_0000_0000);
    } else {
        vstd::arithmetic::div_mod::lemma_small_mod(s as nat, sample_modulus() as nat);
        assert(u == s);
    }
    let x = u - u % k;
    if k == 1 {
        assert(u % 1 == 0 && s as int % 1 == 0);
    } else if k == 256 {
        assert(u % 256 == s as int % 256);
        assert(u >= 0x8000_0000 ==> x >= 0x8000_0000);
    } else {
        assert(u % 65536 == s as int % 65536);
        assert(u >= 0x8000_0000 ==> x >= 0x8000_0000);
    }
    vstd::arithmetic::div_mod::lemma_small_mod(x as nat, sample_modulus() as nat);
}

/// A sample is read back from all of its bytes; from its first two or three bytes it is read back
/// with the remaining bits cleared.
pub proof fn sample_is_read_back(s: Sample)
    ensures
        sample_from_bytes(sample_bytes(s)) == s,
        sample_from_bytes(sample_bytes(s).take(3)) == s - s as int % 256,
        sample_from_bytes(sample_bytes(s).take(2)) == s - s as int % 65536,
{
    lemma_leading_bytes(sample_bits(s));
    lemma_cleared_bits(s, 1);
    lemma_cleared_bits(s, 256);
    lemma_cleared_bits(s, 65536);
}

/// Takes samples out of a packet, `stride` bytes apart.
pub struct SamplesReader<'a> {
    pub bytes: &'a [u8],
    pub read_pos: usize,
    pub stride: usize,
    pub remaining_samples: usize,
}

impl<'a> SamplesReader<'a> {
    /// Whether taking a sample of `count` bytes neither runs over the range of positions nor
    /// takes more samples than there are.
    pub open spec fn can_advance(&self, count: int) -> bool {
        &&& self.read_pos + count <= usize::MAX
        &&& self.read_pos + count <= self.bytes@.len() ==> {
            &&& self.read_pos + self.stride <= usize::MAX
            &&& self.remaining_samples > 0
        }
    }

    /// Whether `samples` samples of `count` bytes are left.
    pub open spec fn has_samples(&self, samples: int, count: int) -> bool {
        &&& samples <= self.remaining_samples
        &&& samples > 0 ==> self.read_pos + (samples - 1) * self.stride + count <= self.bytes@.len()
        &&& self.bytes@.len() + self.stride <= usize::MAX
    }

    pub fn get_next_bytes(&mut self, count: usize) -> (r: Option<&'a [u8]>)
        requires
            old(self).can_advance(count as int),
        ensures
            final(self).bytes == old(self).bytes,
            final(self).stride == old(self).stride,
            r is Some <==> old(self).read_pos + count <= old(self).bytes@.len(),
            r is None ==> *final(self) == *old(self),
            r is Some ==> {
                &&& r->0@ == old(self).bytes@.subrange(old(self).read_pos as int, old(self).read_pos + count)
                &&& final(self).read_pos == old(self).read_pos + old(self).stride
                &&& final(self).remaining_samples == old(self).remaining_samples - 1
            },
    {
        if self.read_pos + count > self.bytes.len() {
            return None;
        }
        let r = &self.bytes[self.read_pos..self.read_pos + count];
        self.read_pos = self.read_pos + self.stride;
        self.remaining_samples = self.remaining_samples - 1;
        Some(r)
    }

    pub fn size_hint(&self) -> (hint: (usize, Option<usize>))
        ensures
            hint.0 == self.remaining_samples,
            hint.1 == Some(self.remaining_samples),
    {
        let size: usize = self.remaining_samples;
        (size, Some(size))
    }

    /// Takes one sample of `count` bytes.
    fn next_sample(&mut self, count: usize) -> (r: Option<Sample>)
        requires
            old(self).can_advance(count as int),
            2 <= count <= 4,
        ensures
            final(self).bytes == old(self).bytes,
            final(self).stride == old(self).stride,
            r is Some <==> old(self).read_pos + count <= old(self).bytes@.len(),
            r is None ==> *final(self) == *old(self),
            r is Some ==> {
                &&& r->0 == sample_from_bytes(
                    old(self).bytes@.subrange(old(self).read_pos as int, old(self).read_pos + count),
                )
                &&& final(self).read_pos == old(self).read_pos + old(self).stride
                &&& final(self).remaining_samples == old(self).remaining_samples - 1
            },
    {
        match self.get_next_bytes(count) {
            None => None,
            Some(b) => {
                let third: u8 = if count > 2 {
                    b[2]
                } else {
                    0
                };
                let fourth: u8 = if count > 3 {
                    b[3]
                } else {
                    0
                };
                let u: USample = make_u32(b[0], b[1], third, fourth);
                proof {
                    lemma_bits_as_sample(u);
                    assert(u == be32_at(b@ + seq![0u8, 0u8, 0u8, 0u8], 0));
                }
                Some(u as Sample)
            },
        }
    }

    /// Takes all remaining samples.
    fn collect_samples(&mut self, count: usize) -> (samples: Vec<Sample>)
        requires
            old(self).has_samples(old(self).remaining_samples as int, count as int),
            2 <= count <= 4,
        ensures
            samples@.len() == old(self).remaining_samples,
            forall|i: int| 0 <= i < samples@.len() ==> #[trigger] samples@[i] == sample_from_bytes(
                old(self).bytes@.subrange(
                    old(self).read_pos + i * old(self).stride,
                    old(self).read_pos + i * old(self).stride + count,
                ),
            ),
            final(self).bytes == old(self).bytes,
            final(self).stride == old(self).stride,
            final(self).remaining_samples == 0,
    {
        let n: usize = self.remaining_samples;
        let mut samples: Vec<Sample> = Vec::new();
        let mut i: usize = 0;
        let len: usize = self.bytes.len();
        while i < n
            invariant
                2 <= count <= 4,
                n == old(self).remaining_samples,
                i <= n,
                len == self.bytes@.len(),
                self.bytes == old(self).bytes,
                self.stride == old(self).stride,
                self.remaining_samples == n - i,
                self.read_pos == old(self).read_pos + i * old(self).stride,
                n > 0 ==> old(self).read_pos + (n - 1) * old(self).stride + count <= self.bytes@.len(),
                self.bytes@.len() + self.stride <= usize::MAX,
                samples@.len() == i,
                forall|j: int| 0 <= j < i ==> #[trigger] samples@[j] == sample_from_bytes(
                    old(self).bytes@.subrange(
                        old(self).read_pos + j * old(self).stride,
                        old(self).read_pos + j * old(self).stride + count,
                    ),
                ),
            decreases n - i,
        {
            proof {
                let s = self.stride as int;
                assert(i * s <= (n - 1) * s) by (nonlinear_arith)
                    requires
                        0 <= i <= n - 1,
                        s >= 0,
                ;
                assert((i + 1) * s == i * s + s) by (nonlinear_arith);
            }
            match self.next_sample(count) {
                Some(s) => {
                    samples.push(s);
                },
                None => {},
            }
            i = i + 1;
        }
        samples
    }
}

/// Reads 16-bit samples.
pub struct S16ReaderIterator<'a>(pub SamplesReader<'a>);

impl<'a> S16ReaderIterator<'a> {
    pub fn next(&mut self) -> (r: Option<Sample>)
        requires
            old(self).0.can_advance(2),
        ensures
            final(self).0.bytes == old(self).0.bytes,
            final(self).0.stride == old(self).0.stride,
            r is Some <==> old(self).0.read_pos + 2 <= old(self).0.bytes@.len(),
            r is None ==> *final(self) == *old(self),
            r is Some ==> {
                &&& r->0 == sample_from_bytes(
                    old(self).0.bytes@.subrange(old(self).0.read_pos as int, old(self).0.read_pos + 2),
                )
                &&& final(self).0.read_pos == old(self).0.read_pos + old(self).0.stride
                &&& final(self).0.remaining_samples == old(self).0.remaining_samples - 1
            },
    {
        self.0.next_sample(2)
    }

    pub fn size_hint(&self) -> (hint: (usize, Option<usize>))
        ensures
            hint.0 == self.0.remaining_samples,
            hint.1 == Some(self.0.remaining_samples),
    {
        self.0.size_hint()
    }

    /// Takes all remaining samples.
    pub fn collect(&mut self) -> (samples: Vec<Sample>)
        requires
            old(self).0.has_samples(old(self).0.remaining_samples as int, 2),
        ensures
            samples@.len() == old(self).0.remaining_samples,
            forall|i: int| 0 <= i < samples@.len() ==> #[trigger] samples@[i] == sample_from_bytes(
                old(self).0.bytes@.subrange(
                    old(self).0.read_pos + i * old(self).0.stride,
                    old(self).0.read_pos + i * old(self).0.stride + 2,
                ),
            ),
            final(self).0.remaining_samples == 0,
    {
        self.0.collect_samples(2)
    }
}

/// Reads 24-bit samples.
pub struct S24ReaderIterator<'a>(pub SamplesReader<'a>);

impl<'a> S24ReaderIterator<'a> {
    pub fn next(&mut self) -> (r: Option<Sample>)
        requires
            old(self).0.can_advance(3),
        ensures
            final(self).0.bytes == old(self).0.bytes,
            final(self).0.stride == old(self).0.stride,
            r is Some <==> old(self).0.read_pos + 3 <= old(self).0.bytes@.len(),
            r is None ==> *final(self) == *old(self),
            r is Some ==> {
                &&& r->0 == sample_from_bytes(
                    old(self).0.bytes@.subrange(old(self).0.read_pos as int, old(self).0.read_pos + 3),
                )
                &&& final(self).0.read_pos == old(self).0.read_pos + old(self).0.stride
                &&& final(self).0.remaining_samples == old(self).0.remaining_samples - 1
            },
    {
        self.0.next_sample(3)
    }

    pub fn size_hint(&self) -> (hint: (usize, Option<usize>))
        ensures
            hint.0 == self.0.remaining_samples,
            hint.1 == Some(self.0.remaining_samples),
    {
        self.0.size_hint()
    }

    /// Takes all remaining samples.
    pub fn collect(&mut self) -> (samples: Vec<Sample>)
        requires
            old(self).0.has_samples(old(self).0.remaining_samples as int, 3),
        ensures
            samples@.len() == old(self).0.remaining_samples,
            forall|i: int| 0 <= i < samples@.len() ==> #[trigger] samples@[i] == sample_from_bytes(
                old(self).0.bytes@.subrange(
                    old(self).0.read_pos + i * old(self).0.stride,
                    old(self).0.read_pos + i * old(self).0.stride + 3,
                ),
            ),
            final(self).0.remaining_samples == 0,
    {
        self.0.collect_samples(3)
    }
}

/// Reads 32-bit samples.
pub struct S32ReaderIterator<'a>(pub SamplesReader<'a>);

impl<'a> S32ReaderIterator<'a> {
    pub fn next(&mut self) -> (r: Option<Sample>)
        requires
            old(self).0.can_advance(4),
        ensures
            final(self).0.bytes == old(self).0.bytes,
            final(self).0.stride == old(self).0.stride,
            r is Some <==> old(self).0.read_pos + 4 <= old(self).0.bytes@.len(),
            r is None ==> *final(self) == *old(self),
            r is Some ==> {
                &&& r->0 == sample_from_bytes(
                    old(self).0.bytes@.subrange(old(self).0.read_pos as int, old(self).0.read_pos + 4),
                )
                &&& final(self).0.read_pos == old(self).0.read_pos + old(self).0.stride
                &&& final(self).0.remaining_samples == old(self).0.remaining_samples - 1
            },
    {
        self.0.next_sample(4)
    }

    pub fn size_hint(&self) -> (hint: (usize, Option<usize>))
        ensures
            hint.0 == self.0.remaining_samples,
            hint.1 == Some(self.0.remaining_samples),
    {
        self.0.size_hint()
    }

    /// Takes all remaining samples.
    pub fn collect(&mut self) -> (samples: Vec<Sample>)
        requires
            old(self).0.has_samples(old(self).0.remaining_samples as int, 4),
        ensures
            samples@.len() == old(self).0.remaining_samples,
            forall|i: int| 0 <= i < samples@.len() ==> #[trigger] samples@[i] == sample_from_bytes(
                old(self).0.bytes@.subrange(
                    old(self).0.read_pos + i * old(self).0.stride,
                    old(self).0.read_pos + i * old(self).0.stride + 4,
                ),
            ),
            final(self).0.remaining_samples == 0,
    {
        self.0.collect_samples(4)
    }
}

/// `dst` after the first `width` bytes of each sample have been written to it one after another,
/// `stride` bytes apart, for as long as a whole sample fits.
pub open spec fn samples_written(
    src: Seq<Sample>,
    dst: Seq<u8>,
    pos: int,
    stride: int,
    width: int,
) -> Seq<u8>
    decreases src.len(),
{
    if src.len() == 0 || pos + width > dst.len() {
        dst
    } else {
        samples_written(
            src.drop_first(),
            overwrite(dst, pos, sample_bytes(src[0]).take(width)),
            pos + stride,
            stride,
            width,
        )
    }
}

/// The nearest number which a sample can hold.
pub open spec fn saturated(v: int) -> int {
    if v > Sample::MAX {
        Sample::MAX as int
    } else if v < Sample::MIN {
        Sample::MIN as int
    } else {
        v
    }
}

/// Whether `out` is `src` with noise added which is the difference of two numbers below
/// `2 * half_step`, shifted up by `half_step`.
pub open spec fn dithered(src: Seq<Sample>, out: Seq<Sample>, half_step: int) -> bool {
    &&& out.len() == src.len()
    &&& forall|i: int|
        0 <= i < src.len() ==> is_dithered(src[i], #[trigger] out[i], half_step)
}

pub open spec fn is_dithered(sample: Sample, out: Sample, half_step: int) -> bool {
    exists|a: int, b: int|
        0 <= a < 2 * half_step && 0 <= b < 2 * half_step && out == #[trigger] dither_sum(
            sample,
            a,
            b,
            half_step,
        )
}

/// A sample with triangular noise made of two equally distributed numbers.
pub open spec fn dither_sum(sample: Sample, a: int, b: int, half_step: int) -> int {
    saturated(sample + (a - b + half_step))
}

/// A sample with triangular noise made of two equally distributed numbers.
pub fn dither(sample: Sample, a: u16, b: u16, half_step: u16) -> (out: Sample)
    ensures
        out == dither_sum(sample, a as int, b as int, half_step as int),
{
    let sum: i64 = sample as i64 + a as i64 - b as i64 + half_step as i64;
    if sum > Sample::MAX as i64 {
        Sample::MAX
    } else if sum < Sample::MIN as i64 {
        Sample::MIN
    } else {
        sum as Sample
    }
}

#[verifier::external_type_specification]
#[verifier::external_body]
pub struct ExSmallRng(SmallRng);

/// `rand::Rng::gen::<u16>`: any 16-bit number.
#[verifier::external_body]
fn random_u16(rng: &mut SmallRng) -> u16 {
    rng.gen::<u16>()
}

/// `rand::Rng::gen::<u8>`: any 8-bit number.
#[verifier::external_body]
fn random_u8(rng: &mut SmallRng) -> u8 {
    rng.gen::<u8>()
}

/// A random sample which the noise of 16-bit samples is made of, one of 24-bit samples else.
fn random_step(rng: &mut SmallRng, half_step: u16) -> (step: u16)
    requires
        half_step == 0x8000 || half_step == 0x80,
    ensures
        step < 2 * half_step,
{
    if half_step == 0x8000 {
        random_u16(rng)
    } else {
        random_u8(rng) as u16
    }
}

/// The four bytes of a sample, the most significant one first.
pub fn bytes_of_sample(sample: Sample) -> (bytes: [u8; 4])
    ensures
        bytes@ == sample_bytes(sample),
{
    let u: u32 = sample as u32;
    proof {
        lemma_sample_as_bits(sample);
    }
    let bytes: [u8; 4] = [
        (u / 0x100_0000) as u8,
        (u / 0x1_0000 % 256) as u8,
        (u / 0x100 % 256) as u8,
        (u % 256) as u8,
    ];
    assert(bytes@ =~= sample_bytes(sample));
    bytes
}

fn put_sample(dst: &mut [u8], pos: usize, sample: Sample, width: usize)
    requires
        2 <= width <= 4,
        pos + width <= old(dst)@.len(),
    ensures
        final(dst)@ == overwrite(old(dst)@, pos as int, sample_bytes(sample).take(width as int)),
{
    let _size: usize = dst.len();
    let bytes = bytes_of_sample(sample);
    dst[pos] = bytes[0];
    dst[pos + 1] = bytes[1];
    if width > 2 {
        dst[pos + 2] = bytes[2];
    }
    if width > 3 {
        dst[pos + 3] = bytes[3];
    }
    assert(dst@ =~= overwrite(old(dst)@, pos as int, sample_bytes(sample).take(width as int)));
}

/// Whether positions in `dst` can be advanced by `stride` without running over their range.
pub open spec fn writable(dst_len: int, start_pos: int, stride: int) -> bool {
    &&& start_pos + 4 <= usize::MAX
    &&& dst_len + stride + 4 <= usize::MAX
}

fn write_plain_samples(src: &[Sample], dst: &mut [u8], start_pos: usize, stride: usize, width: usize)
    requires
        2 <= width <= 4,
        writable(old(dst)@.len() as int, start_pos as int, stride as int),
    ensures
        final(dst)@ == samples_written(src@, old(dst)@, start_pos as int, stride as int, width as int),
{
    let mut pos: usize = start_pos;
    let mut i: usize = 0;
    assert(src@.skip(0) =~= src@);
    while i < src.len() && pos + width <= dst.len()
        invariant
            2 <= width <= 4,
            i <= src@.len(),
            pos + 4 <= usize::MAX,
            dst@.len() == old(dst)@.len(),
            old(dst)@.len() + stride + 4 <= usize::MAX,
            samples_written(src@, old(dst)@, start_pos as int, stride as int, width as int) == samples_written(
                src@.skip(i as int),
                dst@,
                pos as int,
                stride as int,
                width as int,
            ),
        decreases src@.len() - i,
    {
        put_sample(dst, pos, src[i], width);
        assert(src@.skip(i as int).drop_first() =~= src@.skip(i as int + 1));
        pos = pos + stride;
        i = i + 1;
    }
}

/// Whether `dst` is what `dst0` becomes when the samples are written to it with noise added.
pub open spec fn written_with_noise(
    src: Seq<Sample>,
    dst0: Seq<u8>,
    dst: Seq<u8>,
    pos: int,
    stride: int,
    width: int,
    half_step: int,
) -> bool {
    exists|out: Seq<Sample>| #[trigger]
        dithered(src, out, half_step) && dst == samples_written(out, dst0, pos, stride, width)
}

fn write_dithered_samples(
    src: &[Sample],
    dst: &mut [u8],
    start_pos: usize,
    stride: usize,
    width: usize,
    rng: &mut SmallRng,
    half_step: u16,
)
    requires
        2 <= width <= 4,
        half_step == 0x8000 || half_step == 0x80,
        writable(old(dst)@.len() as int, start_pos as int, stride as int),
    ensures
        written_with_noise(
            src@,
            old(dst)@,
            final(dst)@,
            start_pos as int,
            stride as int,
            width as int,
            half_step as int,
        ),
{
    let ghost mut noisy: Seq<Sample> = Seq::empty();
    let ghost dst0 = dst@;
    let mut pos: usize = start_pos;
    let mut i: usize = 0;
    assert forall|tail: Seq<Sample>|
        #[trigger] samples_written(noisy + tail, dst0, start_pos as int, stride as int, width as int)
            == samples_written(tail, dst0, pos as int, stride as int, width as int) by {
        assert(noisy + tail =~= tail);
    }
    while i < src.len() && pos + width <= dst.len()
        invariant
            half_step == 0x8000 || half_step == 0x80,
            2 <= width <= 4,
            i <= src@.len(),
            pos + 4 <= usize::MAX,
            dst0 == old(dst)@,
            dst@.len() == dst0.len(),
            dst0.len() + stride + 4 <= usize::MAX,
            noisy.len() == i,
            forall|j: int| 0 <= j < i ==> is_dithered(src@[j], #[trigger] noisy[j], half_step as int),
            forall|tail: Seq<Sample>|
                #[trigger] samples_written(
                    noisy + tail,
                    dst0,
                    start_pos as int,
                    stride as int,
                    width as int,
                ) == samples_written(tail, dst@, pos as int, stride as int, width as int),
        decreases src@.len() - i,
    {
        let a: u16 = random_step(rng, half_step);
        let b: u16 = random_step(rng, half_step);
        let sample: Sample = dither(src[i], a, b, half_step);
        assert(sample == dither_sum(src@[i as int], a as int, b as int, half_step as int));
        let ghost before = dst@;
        put_sample(dst, pos, sample, width);
        proof {
            let noisy0 = noisy;
            noisy = noisy.push(sample);
            assert forall|tail: Seq<Sample>|
                #[trigger] samples_written(
                    noisy + tail,
                    dst0,
                    start_pos as int,
                    stride as int,
                    width as int,
                ) == samples_written(tail, dst@, pos + stride, stride as int, width as int) by {
                let rest = seq![sample] + tail;
                assert(noisy + tail =~= noisy0 + rest);
                assert(rest.drop_first() =~= tail);
                assert(samples_written(rest, before, pos as int, stride as int, width as int)
                    == samples_written(tail, dst@, pos + stride, stride as int, width as int));
            }
        }
        pos = pos + stride;
        i = i + 1;
    }
    proof {
        let tail = Seq::new(
            (src@.len() - i) as nat,
            |j: int| dither_sum(src@[i + j], 0, 0, half_step as int) as Sample,
        );
        let out = noisy + tail;
        assert forall|j: int| 0 <= j < src@.len() implies is_dithered(
            src@[j],
            #[trigger] out[j],
            half_step as int,
        ) by {
            if j >= i {
                assert(out[j] == dither_sum(src@[j], 0, 0, half_step as int));
            } else {
                assert(out[j] == noisy[j]);
            }
        }
        assert(dithered(src@, out, half_step as int));
        assert(samples_written(out, dst0, start_pos as int, stride as int, width as int) == dst@);
    }
}

/// Writes 16-bit samples to a packet; with a source of random numbers, dithers them.
pub fn write_s16_samples(
    src: &[Sample],
    dst: &mut [u8],
    start_pos: usize,
    stride: usize,
    dither_rng: Option<&mut SmallRng>,
)
    requires
        writable(old(dst)@.len() as int, start_pos as int, stride as int),
    ensures
        dither_rng is None ==> final(dst)@ == samples_written(
            src@,
            old(dst)@,
            start_pos as int,
            stride as int,
            2,
        ),
        dither_rng is Some ==> written_with_noise(
            src@,
            old(dst)@,
            final(dst)@,
            start_pos as int,
            stride as int,
            2,
            0x8000,
        ),
{
    match dither_rng {
        Some(rng) => write_dithered_samples(src, dst, start_pos, stride, 2, rng, 0x8000),
        None => write_plain_samples(src, dst, start_pos, stride, 2),
    }
}

/// Writes 24-bit samples to a packet; with a source of random numbers, dithers them.
pub fn write_s24_samples(
    src: &[Sample],
    dst: &mut [u8],
    start_pos: usize,
    stride: usize,
    dither_rng: Option<&mut SmallRng>,
)
    requires
        writable(old(dst)@.len() as int, start_pos as int, stride as int),
    ensures
        dither_rng is None ==> final(dst)@ == samples_written(
            src@,
            old(dst)@,
            start_pos as int,
            stride as int,
            3,
        ),
        dither_rng is Some ==> written_with_noise(
            src@,
            old(dst)@,
            final(dst)@,
            start_pos as int,
            stride as int,
            3,
            0x80,
        ),
{
    match dither_rng {
        Some(rng) => write_dithered_samples(src, dst, start_pos, stride, 3, rng, 0x80),
        None => write_plain_samples(src, dst, start_pos, stride, 3),
    }
}

/// Writes 32-bit samples to a packet. They are never dithered.
pub fn write_s32_samples(
    src: &[Sample],
    dst: &mut [u8],
    start_pos: usize,
    stride: usize,
    _dither_rng: Option<&mut SmallRng>,
)
    requires
        writable(old(dst)@.len() as int, start_pos as int, stride as int),
    ensures
        final(dst)@ == samples_written(src@, old(dst)@, start_pos as int, stride as int, 4),
{
    write_plain_samples(src, dst, start_pos, stride, 4)
}

/// Writing samples changes neither the length of the packet nor what stands before them.
pub proof fn writing_samples_keeps_what_is_before(
    src: Seq<Sample>,
    dst: Seq<u8>,
    pos: int,
    stride: int,
    width: int,
)
    requires
        0 <= pos,
        0 <= stride,
        0 <= width <= 4,
    ensures
        samples_written(src, dst, pos, stride, width).len() == dst.len(),
        forall|j: int|
            0 <= j < pos && j < dst.len() ==> #[trigger] samples_written(src, dst, pos, stride, width)[j]
                == dst[j],
    decreases src.len(),
{
    if src.len() > 0 && pos + width <= dst.len() {
        writing_samples_keeps_what_is_before(
            src.drop_first(),
            overwrite(dst, pos, sample_bytes(src[0]).take(width)),
            pos + stride,
            stride,
            width,
        );
    }
}

/// Samples written to a packet without overlapping are read back, each of them from where it was
/// written, with the bits cleared that a sample of that width does not have.
pub proof fn written_samples_are_read_back(
    src: Seq<Sample>,
    dst: Seq<u8>,
    pos: int,
    stride: int,
    width: int,
    i: int,
)
    requires
        0 <= pos,
        2 <= width <= 4,
        width <= stride,
        0 <= i < src.len(),
        pos + i * stride + width <= dst.len(),
    ensures
        ({
            let at = pos + i * stride;
            let bytes = samples_written(src, dst, pos, stride, width).subrange(at, at + width);
            &&& bytes == sample_bytes(src[i]).take(width)
            &&& sample_from_bytes(bytes) == src[i] - src[i] as int % (if width == 2 {
                65536int
            } else if width == 3 {
                256int
            } else {
                1int
            })
        }),
    decreases src.len(),
{
    let result = samples_written(src, dst, pos, stride, width);
    let at = pos + i * stride;
    assert(0 <= i * stride) by (nonlinear_arith)
        requires
            0 <= i,
            0 <= stride,
    ;
    let dst1 = overwrite(dst, pos, sample_bytes(src[0]).take(width));
    writing_samples_keeps_what_is_before(src, dst, pos, stride, width);
    if i == 0 {
        writing_samples_keeps_what_is_before(src.drop_first(), dst1, pos + stride, stride, width);
        assert(result.subrange(at, at + width) =~= sample_bytes(src[0]).take(width));
    } else {
        assert(i * stride == (i - 1) * stride + stride) by (nonlinear_arith);
        assert((i - 1) * stride >= 0) by (nonlinear_arith)
            requires
                0 <= i - 1,
                0 <= stride,
        ;
        written_samples_are_read_back(src.drop_first(), dst1, pos + stride, stride, width, i - 1);
    }
    sample_is_read_back(src[i]);
    assert(sample_bytes(src[i]).take(4) =~= sample_bytes(src[i]));
}

} // verus!

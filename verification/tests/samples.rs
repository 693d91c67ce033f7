use inferno_aoip::samples_utils::{
    bytes_of_sample, dither, write_s16_samples, write_s24_samples, write_s32_samples, S16ReaderIterator,
    S24ReaderIterator, S32ReaderIterator, SamplesReader,
};
use rand::rngs::SmallRng;
use rand::SeedableRng;

fn reader(bytes: &[u8], read_pos: usize, stride: usize, remaining_samples: usize) -> SamplesReader<'_> {
    SamplesReader { bytes, read_pos, stride, remaining_samples }
}

#[test]
fn samples_of_16_bits_are_read() {
    let bytes = [0x12, 0x34, 0xaa, 0xaa, 0xff, 0xfe];
    let mut it = S16ReaderIterator(reader(&bytes, 0, 4, 2));
    assert_eq!(it.size_hint(), (2, Some(2)));
    assert_eq!(it.next(), Some(0x1234_0000));
    assert_eq!(it.next(), Some(-0x0002_0000));
    assert_eq!(it.next(), None);
    assert_eq!(it.size_hint(), (0, Some(0)));
}

#[test]
fn samples_of_24_bits_are_read() {
    let bytes = [0x12, 0x34, 0x56, 0x80, 0x00, 0x01];
    let mut it = S24ReaderIterator(reader(&bytes, 0, 3, 2));
    assert_eq!(it.collect(), vec![0x1234_5600, -0x7fff_ff00]);
}

#[test]
fn samples_of_32_bits_are_read() {
    let bytes = [0x12, 0x34, 0x56, 0x78, 0xff, 0xff, 0xff, 0xff];
    let mut it = S32ReaderIterator(reader(&bytes, 0, 4, 2));
    assert_eq!(it.collect(), vec![0x1234_5678, -1]);
}

#[test]
fn reader_hands_out_slices() {
    let bytes = [1u8, 2, 3, 4, 5];
    let mut r = reader(&bytes, 1, 2, 2);
    assert_eq!(r.get_next_bytes(2), Some(&bytes[1..3]));
    assert_eq!(r.read_pos, 3);
    assert_eq!(r.get_next_bytes(2), Some(&bytes[3..5]));
    assert_eq!(r.size_hint(), (0, Some(0)));
    assert_eq!(r.get_next_bytes(2), None);
}

#[test]
fn plain_samples_are_written_with_a_stride() {
    let samples = [0x1234_5678, -1];
    let mut dst = [9u8; 9];
    write_s16_samples(&samples, &mut dst, 1, 4, None);
    assert_eq!(dst, [9, 0x12, 0x34, 9, 9, 0xff, 0xff, 9, 9]);
    let mut dst = [9u8; 9];
    write_s24_samples(&samples, &mut dst, 1, 4, None);
    assert_eq!(dst, [9, 0x12, 0x34, 0x56, 9, 0xff, 0xff, 0xff, 9]);
    let mut dst = [9u8; 9];
    write_s32_samples(&samples, &mut dst, 1, 4, None);
    assert_eq!(dst, [9, 0x12, 0x34, 0x56, 0x78, 0xff, 0xff, 0xff, 0xff]);
}

#[test]
fn samples_without_place_are_dropped() {
    let mut dst = [9u8; 3];
    write_s16_samples(&[0x0102_0000, 0x0304_0000], &mut dst, 0, 2, None);
    assert_eq!(&dst[..2], &[1, 2]);
    assert_eq!(dst[2], 9);
}

#[test]
fn written_samples_are_read_back() {
    let samples = [0, 1 << 16, -(1 << 16), i32::MIN, 0x7fff_0000];
    let mut dst = [0u8; 10];
    write_s16_samples(&samples, &mut dst, 0, 2, None);
    assert_eq!(S16ReaderIterator(reader(&dst, 0, 2, 5)).collect(), samples.to_vec());
    let mut dst = [0u8; 15];
    write_s24_samples(&samples, &mut dst, 0, 3, None);
    assert_eq!(S24ReaderIterator(reader(&dst, 0, 3, 5)).collect(), samples.to_vec());
    let mut dst = [0u8; 20];
    write_s32_samples(&samples, &mut dst, 0, 4, None);
    assert_eq!(S32ReaderIterator(reader(&dst, 0, 4, 5)).collect(), samples.to_vec());
    assert_eq!(bytes_of_sample(0x0102_0304), [1, 2, 3, 4]);
}

#[test]
fn dither_adds_triangular_noise() {
    assert_eq!(dither(1000, 0, 0, 0x80), 1000 + 0x80);
    assert_eq!(dither(1000, 0xff, 0, 0x80), 1000 + 0xff + 0x80);
    assert_eq!(dither(1000, 0, 0xff, 0x80), 1000 - 0xff + 0x80);
    assert_eq!(dither(i32::MAX, 0xffff, 0, 0x8000), i32::MAX);
    assert_eq!(dither(i32::MIN, 0, 0xffff, 0x8000), i32::MIN);
}

#[test]
fn dithered_samples_are_close_to_plain_ones() {
    let mut rng = SmallRng::seed_from_u64(1);
    let samples = [1000i32 << 16; 200];
    let mut dst = [0u8; 400];
    write_s16_samples(&samples, &mut dst, 0, 2, Some(&mut rng));
    let read = S16ReaderIterator(reader(&dst, 0, 2, 200)).collect();
    let mut differing = 0;
    for s in read {
        let step = s >> 16;
        assert!((999..=1001).contains(&step));
        if step != 1000 {
            differing += 1;
        }
    }
    assert!(differing > 0);
    let samples = [1000i32 << 8; 200];
    let mut dst = [0u8; 600];
    write_s24_samples(&samples, &mut dst, 0, 3, Some(&mut rng));
    let read = S24ReaderIterator(reader(&dst, 0, 3, 200)).collect();
    let mut differing = 0;
    for s in read {
        let step = s >> 8;
        assert!((999..=1001).contains(&step));
        if step != 1000 {
            differing += 1;
        }
    }
    assert!(differing > 0);
}

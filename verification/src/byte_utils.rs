//! Big-endian numbers and zero-terminated strings in byte buffers.

use vstd::prelude::*;
use vstd::utf8::{decode_utf8, encode_utf8, valid_utf8};

verus! {

/// The two bytes of a 16-bit number, the most significant one first.
pub open spec fn be16(v: u16) -> Seq<u8> {
    seq![(v / 256) as u8, (v % 256) as u8]
}

/// The four bytes of a 32-bit number, the most significant one first.
pub open spec fn be32(v: u32) -> Seq<u8> {
    seq![
        (v / 0x100_0000) as u8,
        (v / 0x1_0000 % 256) as u8,
        (v / 0x100 % 256) as u8,
        (v % 256) as u8,
    ]
}

/// The 16-bit number whose bytes stand at `offset`, the most significant one first.
pub open spec fn be16_at(bytes: Seq<u8>, offset: int) -> int {
    bytes[offset] * 256 + bytes[offset + 1]
}

/// The 32-bit number whose bytes stand at `offset`, the most significant one first.
pub open spec fn be32_at(bytes: Seq<u8>, offset: int) -> int {
    bytes[offset] * 0x100_0000 + bytes[offset + 1] * 0x1_0000 + bytes[offset + 2] * 0x100
        + bytes[offset + 3]
}

/// `dst` with the bytes `src` at `pos`.
pub open spec fn overwrite(dst: Seq<u8>, pos: int, src: Seq<u8>) -> Seq<u8> {
    Seq::new(
        dst.len(),
        |j: int|
            if pos <= j < pos + src.len() {
                src[j - pos]
            } else {
                dst[j]
            },
    )
}

/// Sequences can be put together in either order.
pub proof fn lemma_concat(a: Seq<u8>, b: Seq<u8>, c: Seq<u8>)
    ensures
        a + b + c == a + (b + c),
{
    assert(a + b + c =~= a + (b + c));
}

/// Copies the bytes `src` to the buffer.
pub fn copy_to_buffer(buffer: &mut [u8], offset: usize, src: &[u8])
    requires
        offset + src@.len() <= old(buffer)@.len(),
    ensures
        final(buffer)@ == overwrite(old(buffer)@, offset as int, src@),
{
    let size: usize = buffer.len();
    let mut i: usize = 0;
    while i < src.len()
        invariant
            i <= src@.len(),
            offset + src@.len() <= size,
            size == old(buffer)@.len(),
            buffer@ == overwrite(old(buffer)@, offset as int, src@.take(i as int)),
        decreases src@.len() - i,
    {
        buffer[offset + i] = src[i];
        i = i + 1;
        assert(buffer@ =~= overwrite(old(buffer)@, offset as int, src@.take(i as int)));
    }
    assert(src@.take(i as int) =~= src@);
}

/// The most significant byte.
#[allow(non_snake_case)]
pub fn H(u: u16) -> (h: u8)
    ensures
        h == u / 256,
{
    assert(u >> 8 == u / 256) by (bit_vector);
    (u >> 8) as u8
}

/// The least significant byte.
#[allow(non_snake_case)]
pub fn L(u: u16) -> (l: u8)
    ensures
        l == u % 256,
{
    assert(u as u8 == u % 256) by (bit_vector);
    u as u8
}

pub fn make_u16(h: u8, l: u8) -> (u: u16)
    ensures
        u == h * 256 + l,
{
    assert(((h as u16) << 8) | (l as u16) == h * 256 + l) by (bit_vector);
    ((h as u16) << 8) | (l as u16)
}

/// Splitting a number into its bytes and putting them together gives the number, and the other
/// way round.
pub proof fn bytes_make_the_number(u: u16, h: u8, l: u8)
    ensures
        (u / 256) * 256 + u % 256 == u,
        (h * 256 + l) / 256 == h,
        (h * 256 + l) % 256 == l,
        be16_at(be16(u), 0) == u,
        be16((h * 256 + l) as u16) == seq![h, l],
{
}

/// A 32-bit number is read back from its bytes.
pub proof fn bytes_make_the_long_number(u: u32)
    ensures
        be32_at(be32(u), 0) == u,
{
}

/// The number whose four bytes are given, the most significant one first.
pub fn make_u32(b0: u8, b1: u8, b2: u8, b3: u8) -> (u: u32)
    ensures
        u == b0 * 0x100_0000 + b1 * 0x1_0000 + b2 * 0x100 + b3,
{
    (b0 as u32) * 0x100_0000 + (b1 as u32) * 0x1_0000 + (b2 as u32) * 0x100 + (b3 as u32)
}

/// How many bytes `write_str_to_buffer` copies.
pub open spec fn written_len(max_len: int, s: Seq<u8>) -> int {
    if max_len < s.len() {
        max_len
    } else {
        s.len() as int
    }
}

/// Copies the bytes of the string to the buffer, no more than `max_len` of them.
pub fn write_str_to_buffer(buffer: &mut [u8], offset: usize, max_len: usize, s: &str)
    requires
        offset + written_len(max_len as int, encode_utf8(s@)) <= old(buffer)@.len(),
    ensures
        final(buffer)@ == overwrite(
            old(buffer)@,
            offset as int,
            encode_utf8(s@).take(written_len(max_len as int, encode_utf8(s@))),
        ),
{
    let bytes: &[u8] = s.as_bytes();
    let len: usize = if max_len < bytes.len() {
        max_len
    } else {
        bytes.len()
    };
    copy_to_buffer(buffer, offset, &bytes[0..len]);
    assert(bytes@.subrange(0, len as int) =~= encode_utf8(s@).take(len as int));
}

/// Why no string was read.
#[derive(Debug, Clone, Copy, PartialEq, Eq, Structural)]
pub enum ReadStrError {
    /// The offset lies outside of the buffer.
    UnexpectedEof,
    /// The bytes are not UTF-8.
    InvalidUtf8,
}

#[verifier::external_type_specification]
#[verifier::external_body]
pub struct ExUtf8Error(std::str::Utf8Error);

/// `std::str::from_utf8`: the bytes as a string if they are UTF-8, else an error.
#[verifier::external_body]
pub(crate) fn from_utf8(bytes: &[u8]) -> (r: Result<&str, std::str::Utf8Error>)
    ensures
        r is Ok <==> valid_utf8(bytes@),
        r is Ok ==> encode_utf8(r->Ok_0@) == bytes@ && r->Ok_0@ == decode_utf8(bytes@),
{
    std::str::from_utf8(bytes)
}

/// Whether a zero byte stands at `offset` or after it.
pub open spec fn terminated(bytes: Seq<u8>, offset: int) -> bool {
    exists|i: int| offset <= i < bytes.len() && #[trigger] bytes[i] == 0
}

/// The first zero byte at `offset` or after it; the end of the buffer if there is none.
pub open spec fn terminator(bytes: Seq<u8>, offset: int) -> int
    decreases bytes.len() - offset,
{
    if offset >= bytes.len() || bytes[offset] == 0 {
        offset
    } else {
        terminator(bytes, offset + 1)
    }
}

/// Whether a zero-terminated string can be looked for at `offset`: only the string at the very
/// start of the buffer may go without the terminator.
pub open spec fn str_readable(bytes: Seq<u8>, offset: int) -> bool {
    offset == 0 || offset >= bytes.len() || terminated(bytes, offset)
}

proof fn lemma_terminator(bytes: Seq<u8>, offset: int)
    requires
        0 <= offset <= bytes.len(),
    ensures
        offset <= terminator(bytes, offset) <= bytes.len(),
        forall|i: int| offset <= i < terminator(bytes, offset) ==> #[trigger] bytes[i] != 0,
        terminator(bytes, offset) < bytes.len() ==> bytes[terminator(bytes, offset)] == 0,
    decreases bytes.len() - offset,
{
    if offset < bytes.len() && bytes[offset] != 0 {
        lemma_terminator(bytes, offset + 1);
    }
}

/// The first zero byte at `offset` or after it; the end of the buffer if there is none.
fn find_terminator(buffer: &[u8], offset: usize) -> (end: usize)
    requires
        offset <= buffer@.len(),
    ensures
        end == terminator(buffer@, offset as int),
        offset <= end <= buffer@.len(),
{
    let mut i: usize = offset;
    while i < buffer.len() && buffer[i] != 0
        invariant
            offset <= i <= buffer@.len(),
            terminator(buffer@, offset as int) == terminator(buffer@, i as int),
        decreases buffer@.len() - i,
    {
        i = i + 1;
    }
    i
}

/// Whether `read_0term_str_from_buffer` may be called.
pub fn is_str_readable(buffer: &[u8], offset: usize) -> (readable: bool)
    ensures
        readable == str_readable(buffer@, offset as int),
{
    if offset == 0 || offset >= buffer.len() {
        return true;
    }
    let end: usize = find_terminator(buffer, offset);
    proof {
        lemma_terminator(buffer@, offset as int);
    }
    end < buffer.len()
}

pub fn read_0term_str_from_buffer(buffer: &[u8], offset: usize) -> (r: Result<&str, ReadStrError>)
    requires
        str_readable(buffer@, offset as int),
    ensures
        offset >= buffer@.len() <==> r == Err::<&str, _>(ReadStrError::UnexpectedEof),
        offset < buffer@.len() ==> {
            let found = buffer@.subrange(offset as int, terminator(buffer@, offset as int));
            match r {
                Ok(s) => valid_utf8(found) && encode_utf8(s@) == found && s@ == decode_utf8(found),
                Err(_) => !valid_utf8(found),
            }
        },
{
    if offset >= buffer.len() {
        return Err(ReadStrError::UnexpectedEof);
    }
    let end: usize = find_terminator(buffer, offset);
    match from_utf8(&buffer[offset..end]) {
        Ok(s) => Ok(s),
        Err(_) => Err(ReadStrError::InvalidUtf8),
    }
}

/// A string without zero characters which was written to a buffer and is followed by a zero is
/// found again in full.
pub proof fn written_string_is_found(bytes: Seq<u8>, offset: int, s: Seq<u8>)
    requires
        0 <= offset,
        offset + s.len() < bytes.len(),
        forall|i: int| 0 <= i < s.len() ==> #[trigger] s[i] != 0,
        bytes.subrange(offset, offset + s.len()) == s,
        bytes[offset + s.len()] == 0,
    ensures
        str_readable(bytes, offset),
        terminator(bytes, offset) == offset + s.len(),
        bytes.subrange(offset, terminator(bytes, offset)) == s,
{
    lemma_terminator(bytes, offset);
    let t = terminator(bytes, offset);
    if t < offset + s.len() {
        assert(bytes.subrange(offset, offset + s.len())[t - offset] == s[t - offset]);
    }
    if t > offset + s.len() {
        assert(bytes[offset + s.len()] != 0);
    }
}

} // verus!

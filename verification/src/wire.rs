//! Building of packet contents with `bytebuffer::ByteBuffer`.

use crate::byte_utils::{be16, be32};
use bytebuffer::ByteBuffer;
use vstd::prelude::*;

verus! {

#[verifier::external_type_specification]
#[verifier::external_body]
pub struct ExByteBuffer(ByteBuffer);

/// All bytes held by a `ByteBuffer`.
pub uninterp spec fn bytes_of(buffer: ByteBuffer) -> Seq<u8>;

/// Whether what is written next to a `ByteBuffer` goes after all bytes which it holds, on a whole
/// byte, with the most significant byte of numbers first.
pub uninterp spec fn appends(buffer: ByteBuffer) -> bool;

/// `ByteBuffer::new`: the buffer is empty, its write cursor stands at the end, and its byte order
/// is big-endian.
#[verifier::external_body]
pub(crate) fn new_buffer() -> (buffer: ByteBuffer)
    ensures
        appends(buffer),
        bytes_of(buffer) == Seq::<u8>::empty(),
{
    ByteBuffer::new()
}

/// `ByteBuffer::write_bytes`: with the write cursor at the end, the bytes are appended and the
/// cursor is moved to the new end.
#[verifier::external_body]
pub(crate) fn write_bytes(buffer: &mut ByteBuffer, bytes: &[u8])
    requires
        appends(*old(buffer)),
    ensures
        appends(*final(buffer)),
        bytes_of(*final(buffer)) == bytes_of(*old(buffer)) + bytes@,
{
    buffer.write_bytes(bytes)
}

/// `ByteBuffer::write_u8`: appends one byte.
#[verifier::external_body]
pub(crate) fn write_u8(buffer: &mut ByteBuffer, value: u8)
    requires
        appends(*old(buffer)),
    ensures
        appends(*final(buffer)),
        bytes_of(*final(buffer)) == bytes_of(*old(buffer)).push(value),
{
    buffer.write_u8(value)
}

/// `ByteBuffer::write_u16`: appends the two bytes of the number, in big-endian order for a buffer
/// with that byte order.
#[verifier::external_body]
pub(crate) fn write_u16(buffer: &mut ByteBuffer, value: u16)
    requires
        appends(*old(buffer)),
    ensures
        appends(*final(buffer)),
        bytes_of(*final(buffer)) == bytes_of(*old(buffer)) + be16(value),
{
    buffer.write_u16(value)
}

/// `ByteBuffer::write_u32`: appends the four bytes of the number, in big-endian order for a buffer
/// with that byte order.
#[verifier::external_body]
pub(crate) fn write_u32(buffer: &mut ByteBuffer, value: u32)
    requires
        appends(*old(buffer)),
    ensures
        appends(*final(buffer)),
        bytes_of(*final(buffer)) == bytes_of(*old(buffer)) + be32(value),
{
    buffer.write_u32(value)
}

/// `ByteBuffer::get_wpos`: with the write cursor at the end, its position is the number of bytes,
/// which are kept in a `Vec` and so are no more than `isize::MAX`.
#[verifier::external_body]
pub(crate) fn write_position(buffer: &ByteBuffer) -> (position: usize)
    requires
        appends(*buffer),
    ensures
        position == bytes_of(*buffer).len(),
        position <= isize::MAX,
{
    buffer.get_wpos()
}

/// `ByteBuffer::as_bytes`: all bytes of the buffer.
#[verifier::external_body]
pub(crate) fn buffer_bytes(buffer: &ByteBuffer) -> (bytes: &[u8])
    ensures
        bytes@ == bytes_of(*buffer),
{
    buffer.as_bytes()
}

/// `ByteBuffer::into_vec`: all bytes of the buffer.
#[verifier::external_body]
pub(crate) fn into_bytes(buffer: ByteBuffer) -> (bytes: Vec<u8>)
    ensures
        bytes@ == bytes_of(buffer),
{
    buffer.into_vec()
}

} // verus!

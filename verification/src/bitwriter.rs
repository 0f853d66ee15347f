//! The bit-level output sink.  The writer inside is `bitbit`'s, writing
//! into an in-memory byte buffer; each call the codec makes goes through
//! one trusted wrapper whose contract states, over the bit-string model of
//! `crate::bits`, what that call appends.  Everything layered on top
//! (sample shapes, padding policy) is verified.
use crate::bits::bytes_of_bits;
use crate::bits::field_bits;
use crate::bits::zero_bits;
use vstd::prelude::*;

verus! {

/// A most-significant-bit-first bit sink over an owned byte buffer.
/// Verus sees it only through `sink_bits` and the wrappers below.
#[verifier::external_body]
pub struct BitSink {
    inner: bitbit::BitWriter<Vec<u8>>,
}

/// The bits handed to the sink so far, in order.
pub uninterp spec fn sink_bits(s: BitSink) -> Seq<bool>;

/// Relies on bitbit::BitWriter::new over an empty Vec sink: a fresh writer
/// holds no bits.
#[verifier::external_body]
pub fn sink_new() -> (s: BitSink)
    ensures
        sink_bits(s) == Seq::<bool>::empty(),
{
    BitSink { inner: bitbit::BitWriter::new(Vec::new()) }
}

/// Relies on bitbit::BitWriter::write_bit: appends exactly one bit.  A Vec
/// sink accepts every write, so the call cannot fail.
#[verifier::external_body]
pub fn write_bit(s: &mut BitSink, bit: bool)
    ensures
        sink_bits(*final(s)) == sink_bits(*old(s)).push(bit),
{
    s.inner.write_bit(bit).unwrap();
}

/// Relies on bitbit::BitWriter::write_bits: appends the low `nbits` bits of
/// `val`, most significant of the field first.  An `nbits` of zero would
/// underflow inside the callee and is kept out.
#[verifier::external_body]
pub fn write_bits(s: &mut BitSink, val: u32, nbits: usize)
    requires
        1 <= nbits <= 32,
    ensures
        sink_bits(*final(s)) == sink_bits(*old(s)) + field_bits(val, nbits as nat),
{
    s.inner.write_bits(val, nbits).unwrap();
}

/// Relies on bitbit::BitWriter::write_byte: appends the eight bits of one
/// byte, most significant first.
#[verifier::external_body]
pub fn write_byte(s: &mut BitSink, byte: u8)
    ensures
        sink_bits(*final(s)) == sink_bits(*old(s)) + field_bits(byte as u32, 8),
{
    s.inner.write_byte(byte).unwrap();
}

/// Relies on bitbit::BitWriter::pad_to_byte: appends zero bits until the
/// bit count is a multiple of eight.
#[verifier::external_body]
pub fn pad_to_byte(s: &mut BitSink)
    ensures
        sink_bits(*final(s)) == sink_bits(*old(s)) + zero_bits(
            ((8 - sink_bits(*old(s)).len() % 8) % 8) as nat,
        ),
{
    s.inner.pad_to_byte().unwrap();
}

/// Relies on bitbit::BitWriter::get_ref: the sink buffer holds exactly the
/// completed bytes of the bits written so far.
#[verifier::external_body]
pub fn sink_bytes(s: &mut BitSink) -> (r: Vec<u8>)
    ensures
        sink_bits(*final(s)) == sink_bits(*old(s)),
        r@ == bytes_of_bits(sink_bits(*old(s))),
{
    s.inner.get_ref().clone()
}

/// Relies on bitbit::BitWriter::get_ref: the sink buffer length counts the
/// completed bytes of the bits written so far.
#[verifier::external_body]
pub fn sink_len(s: &mut BitSink) -> (r: usize)
    ensures
        sink_bits(*final(s)) == sink_bits(*old(s)),
        r == sink_bits(*old(s)).len() / 8,
{
    s.inner.get_ref().len()
}

} // verus!

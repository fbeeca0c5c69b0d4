//! The bit writer of `bitstream_io`, as far as the encoder uses it, and the
//! fields that the encoder writes through it.

use crate::bits::{
    le_bits, lemma_bias_bits_wide, lemma_le_bits_zero_extend, pad_to_byte, packed_bytes,
    repeat_bit,
};
use crate::error::{EncodeError, Field};
use crate::field::{bias, bias_value, check_signed, fits_signed, fits_unsigned, overflow};
use bitstream_io::{BitWrite, BitWriter, LittleEndian};
use vstd::arithmetic::power2::{lemma2_to64, lemma_pow2_strictly_increases, pow2};
use vstd::prelude::*;

verus! {

/// `std::io::Error`, which the calls of the writer return. It is handed on
/// and never looked into.
#[verifier::external_type_specification]
#[verifier::external_body]
pub struct ExIoError(std::io::Error);

/// A `bitstream_io::BitWriter` over a byte vector that writes the least
/// significant bit first. What is known of it is the sequence of bits that
/// were written to it.
#[verifier::external_body]
pub struct LeBitWriter {
    inner: BitWriter<Vec<u8>, LittleEndian>,
}

/// Every bit written to `w` so far, in the order of writing.
pub uninterp spec fn written_bits(w: LeBitWriter) -> Seq<bool>;

/// `BitWriter::new` over an empty vector: nothing has been written yet.
#[verifier::external_body]
pub(crate) fn new_writer() -> (w: LeBitWriter)
    ensures
        written_bits(w) == Seq::<bool>::empty(),
{
    LeBitWriter { inner: BitWriter::new(Vec::new()) }
}

/// `BitWrite::write` for a `u32`. It refuses more than 32 bits and a value
/// that does not fit in `bits` bits, and then writes nothing. Otherwise it
/// appends the lowest `bits` bits of `value`, least significant first.
#[verifier::external_body]
pub(crate) fn write_bits(w: &mut LeBitWriter, bits: u32, value: u32) -> (res: Result<
    (),
    std::io::Error,
>)
    ensures
        res.is_ok() == (bits <= 32 && value < pow2(bits as nat)),
        res.is_ok() ==> written_bits(*final(w)) == written_bits(*old(w)) + le_bits(
            value as int,
            bits as nat,
        ),
        res.is_err() ==> written_bits(*final(w)) == written_bits(*old(w)),
{
    w.inner.write(bits, value)
}

/// `BitWrite::write_bit`: appends one bit. Writing into a vector cannot fail.
#[verifier::external_body]
pub(crate) fn write_bit(w: &mut LeBitWriter, bit: bool) -> (res: Result<(), std::io::Error>)
    ensures
        res.is_ok(),
        written_bits(*final(w)) == written_bits(*old(w)).push(bit),
{
    w.inner.write_bit(bit)
}

/// `BitWrite::byte_align`: appends zero bits until the count of bits written
/// is a multiple of eight, and none if it already is.
#[verifier::external_body]
pub(crate) fn byte_align(w: &mut LeBitWriter) -> (res: Result<(), std::io::Error>)
    ensures
        res.is_ok(),
        written_bits(*final(w)) == pad_to_byte(written_bits(*old(w))),
{
    w.inner.byte_align()
}

/// `BitWriter::into_writer`: the vector of the whole bytes written. The
/// first bit written to a byte is its least significant; bits after the last
/// whole byte are dropped.
#[verifier::external_body]
pub(crate) fn into_bytes(w: LeBitWriter) -> (out: Vec<u8>)
    ensures
        out@ == packed_bytes(written_bits(w)),
{
    w.inner.into_writer()
}

impl LeBitWriter {
    /// The bits written so far, in the order of writing.
    pub open spec fn view(&self) -> Seq<bool> {
        written_bits(*self)
    }

    /// A writer to which nothing has been written.
    pub fn new() -> (w: LeBitWriter)
        ensures
            w@ == Seq::<bool>::empty(),
    {
        new_writer()
    }

    /// Writes the eight bits of `byte`.
    pub fn put_byte(&mut self, byte: u8)
        ensures
            final(self)@ == old(self)@ + le_bits(byte as int, 8),
    {
        proof {
            lemma2_to64();
        }
        let _ = write_bits(self, 8, byte as u32);
    }

    /// Writes `value` as an unsigned field of `bits` bits, or reports that it
    /// does not fit and writes nothing.
    pub fn put_unsigned(&mut self, field: Field, bits: u8, value: u32) -> (res: Result<
        (),
        EncodeError,
    >)
        ensures
            res.is_ok() == fits_unsigned(value as int, bits as nat),
            res.is_ok() ==> final(self)@ == old(self)@ + le_bits(value as int, bits as nat),
            res.is_err() ==> res.unwrap_err() == overflow(field, value as int, bits),
            res.is_err() ==> final(self)@ == old(self)@,
    {
        if bits <= 32 {
            match write_bits(self, bits as u32, value) {
                Ok(()) => Ok(()),
                Err(_) => Err(EncodeError::FieldOverflow { field, value: value as i128, bits }),
            }
        } else {
            proof {
                lemma2_to64();
            }
            let _ = write_bits(self, 32, value);
            let mut i: u8 = 32;
            while i < bits
                invariant
                    32 <= i <= bits,
                    self@ == old(self)@ + le_bits(value as int, 32) + repeat_bit(
                        false,
                        (i - 32) as nat,
                    ),
                decreases bits - i,
            {
                let _ = write_bit(self, false);
                i = i + 1;
            }
            proof {
                lemma_le_bits_zero_extend(value as int, 32, bits as nat);
                lemma_pow2_strictly_increases(32, bits as nat);
            }
            Ok(())
        }
    }

    /// Writes the signed `value` in its biased form as a field of `bits`
    /// bits, or reports that it lies outside the field's range and writes
    /// nothing.
    pub fn put_biased(&mut self, field: Field, bits: u8, value: i32) -> (res: Result<
        (),
        EncodeError,
    >)
        ensures
            res.is_ok() == fits_signed(value as int, bits as nat),
            res.is_ok() ==> final(self)@ == old(self)@ + le_bits(
                bias(value as int, bits as nat),
                bits as nat,
            ),
            res.is_err() ==> res.unwrap_err() == overflow(field, value as int, bits),
            res.is_err() ==> final(self)@ == old(self)@,
    {
        if !check_signed(value, bits) {
            return Err(EncodeError::FieldOverflow { field, value: value as i128, bits });
        }
        if bits <= 32 {
            let biased: u32 = bias_value(value, bits);
            let _ = write_bits(self, bits as u32, biased);
            Ok(())
        } else {
            proof {
                lemma2_to64();
            }
            // Above 32 bits the biased form is the two's complement form with
            // copies of the sign bit and, at the top, the inverse of it.
            let negative = value < 0;
            let low: u32 = if negative {
                (value as i64 + 0x1_0000_0000i64) as u32
            } else {
                value as u32
            };
            let _ = write_bits(self, 32, low);
            let mut i: u8 = 33;
            while i < bits
                invariant
                    33 <= i <= bits,
                    self@ == old(self)@ + le_bits(low as int, 32) + repeat_bit(
                        negative,
                        (i - 33) as nat,
                    ),
                decreases bits - i,
            {
                let _ = write_bit(self, negative);
                i = i + 1;
            }
            let _ = write_bit(self, !negative);
            proof {
                lemma_bias_bits_wide(value as int, bits as nat);
            }
            Ok(())
        }
    }

    /// Writes `count` in unary: that many one bits, then a zero bit.
    pub fn put_unary(&mut self, count: u32)
        ensures
            final(self)@ == old(self)@ + repeat_bit(true, count as nat).push(false),
    {
        let mut i: u32 = 0;
        while i < count
            invariant
                i <= count,
                self@ == old(self)@ + repeat_bit(true, i as nat),
            decreases count - i,
        {
            let _ = write_bit(self, true);
            i = i + 1;
        }
        let _ = write_bit(self, false);
    }

    /// Fills the last byte up with zero bits and gives the bytes written,
    /// the first bit of each byte being its least significant.
    pub fn finish(self) -> (bytes: Vec<u8>)
        ensures
            bytes@ == packed_bytes(pad_to_byte(self@)),
    {
        let mut w = self;
        let _ = byte_align(&mut w);
        into_bytes(w)
    }
}

} // verus!

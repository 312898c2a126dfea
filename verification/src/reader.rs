//! A fallible, bit-level cursor over an RBSP buffer.

use vstd::arithmetic::power2::{
    lemma2_to64, lemma_pow2_strictly_increases, lemma_pow2_unfold, pow2,
};
use vstd::bits::lemma_u32_shl_is_mul;
use vstd::prelude::*;

use crate::code_laws::lemma_bits_value_bound;
use crate::error::{BitstreamError, InvalidReason};
use crate::model::{
    bit_at, bit_len, bits_value, locates_last_one_bit, read_bit_outcome, read_bits_outcome,
    skip_bits_outcome, invalid_at, truncated_at, zero_run, read_ue_outcome, read_se_outcome,
    read_te_outcome, signed_of_code, MAX_LEADING_ZEROS, one_bit_after, align_up8,
    read_trailing_bits_outcome,
};

verus! {

/// Reads bits, and the syntax element encodings built on them, from a buffer.
///
/// The buffer is expected to be an RBSP: a NAL unit payload with emulation
/// prevention bytes already removed. Nothing here interprets the bits, but
/// every read refuses to run past the end of the buffer, loop unboundedly, or
/// overflow. Each read is specified by the matching outcome in
/// [`crate::model`], applied to [`BitReader::bytes`] and
/// [`BitReader::cursor`].
#[derive(Debug)]
pub struct BitReader<'a> {
    data: &'a [u8],
    /// Bits consumed so far, from the start of `data`.
    pos: u64,
    /// Total bits in `data`.
    len: u64,
    /// Absolute index of the final set bit, which in a well-formed RBSP is the
    /// `rbsp_stop_one_bit`. Computed once so that
    /// [`BitReader::has_more_rbsp_data`] takes constant time.
    stop_bit: Option<u64>,
}

impl<'a> BitReader<'a> {
    #[verifier::type_invariant]
    spec fn well_formed(self) -> bool {
        &&& self.len == bit_len(self.data@)
        &&& self.pos <= self.len
        &&& locates_last_one_bit(self.data@, self.stop_bit)
    }

    /// The buffer being read.
    pub closed spec fn bytes(self) -> Seq<u8> {
        self.data@
    }

    /// Bits consumed so far.
    pub closed spec fn cursor(self) -> int {
        self.pos as int
    }

    /// Creates a reader over `data`, with the cursor at its first bit.
    ///
    /// Bit offsets are `u64`, so the buffer's bit count must fit in one.
    pub fn new(data: &'a [u8]) -> (r: Self)
        requires
            bit_len(data@) <= u64::MAX,
        ensures
            r.bytes() == data@,
            r.cursor() == 0,
    {
        let stop_bit = Self::find_stop_bit(data);
        BitReader { data, pos: 0, len: (data.len() as u64) * 8, stop_bit }
    }

    /// Locates the last set bit in `data`.
    ///
    /// Scanning backwards means this normally stops at the final byte, since a
    /// well-formed RBSP ends with the stop bit followed only by alignment zeros.
    fn find_stop_bit(data: &[u8]) -> (r: Option<u64>)
        requires
            bit_len(data@) <= u64::MAX,
        ensures
            locates_last_one_bit(data@, r),
    {
        let mut index = data.len();
        while index > 0
            invariant
                index <= data.len(),
                bit_len(data@) <= u64::MAX,
                forall|j: int| 8 * index <= j < bit_len(data@) ==> !#[trigger] bit_at(data@, j),
            decreases index,
        {
            let byte = data[index - 1];
            if byte != 0 {
                let zeros = byte.trailing_zeros();
                proof {
                    vstd::std_specs::bits::axiom_u8_trailing_zeros(byte);
                }
                let bit_in_byte = 7 - zeros as u64;
                let stop = ((index - 1) as u64) * 8 + bit_in_byte;
                proof {
                    let b = index - 1;
                    lemma_bit_of_byte(data@, b as int, bit_in_byte as int);
                    lemma_mask_is_shift(byte, bit_in_byte as u8);
                    assert forall|j: int| stop < j < bit_len(data@) implies !#[trigger] bit_at(
                        data@,
                        j,
                    ) by {
                        if j < 8 * index {
                            let k = j - 8 * b;
                            lemma_bit_of_byte(data@, b as int, k);
                            lemma_mask_is_shift(byte, k as u8);
                            assert(((byte >> (7 - k) as u8) & 1u8) == 0u8);
                        }
                    }
                }
                return Some(stop);
            }
            proof {
                let b = index - 1;
                assert forall|j: int| 8 * b <= j < bit_len(data@) implies !#[trigger] bit_at(
                    data@,
                    j,
                ) by {
                    if j < 8 * index {
                        let k = j - 8 * b;
                        lemma_bit_of_byte(data@, b as int, k);
                        lemma_zero_byte_has_no_bits(k as u8);
                    }
                }
            }
            index = index - 1;
        }
        None
    }

    /// Bits consumed so far.
    pub fn bit_position(&self) -> (r: u64)
        ensures
            r == self.cursor(),
            r <= bit_len(self.bytes()),
    {
        proof {
            use_type_invariant(self);
        }
        self.pos
    }

    /// Bits not yet consumed.
    pub fn bits_remaining(&self) -> (r: u64)
        ensures
            r == bit_len(self.bytes()) - self.cursor(),
    {
        proof {
            use_type_invariant(self);
        }
        self.len - self.pos
    }

    /// Whether the cursor sits on a byte boundary.
    pub fn is_byte_aligned(&self) -> (r: bool)
        ensures
            r <==> self.cursor() % 8 == 0,
    {
        self.pos % 8 == 0
    }

    fn truncated(&self, needed_bits: u32) -> (r: BitstreamError)
        ensures
            r == truncated_at(self.bytes(), self.cursor(), needed_bits as int),
    {
        proof {
            use_type_invariant(self);
        }
        BitstreamError::Truncated {
            at_bit: self.pos,
            needed_bits,
            available_bits: self.bits_remaining(),
        }
    }

    fn invalid(&self, at_bit: u64, reason: InvalidReason) -> (r: BitstreamError)
        ensures
            r == invalid_at(at_bit as int, reason),
    {
        BitstreamError::Invalid { at_bit, reason }
    }

    /// Reads a single bit — ITU-T H.264 clause 7.2, `u(1)`.
    ///
    /// Returns [`BitstreamError::Truncated`] at the end of the buffer.
    pub fn read_bit(&mut self) -> (r: Result<bool, BitstreamError>)
        ensures
            final(self).bytes() == old(self).bytes(),
            (r, final(self).cursor()) == read_bit_outcome(old(self).bytes(), old(self).cursor()),
            final(self).cursor() <= bit_len(final(self).bytes()),
    {
        proof {
            use_type_invariant(&*self);
        }
        let byte_index = self.pos / 8;
        if byte_index >= self.data.len() as u64 {
            return Err(self.truncated(1));
        }
        let byte = self.data[byte_index as usize];
        // `pos % 8` is in 0..=7, so the mask selects one bit, MSB first.
        let mask = 0x80u8 >> ((self.pos % 8) as u8);
        self.pos = self.pos + 1;
        Ok(byte & mask != 0)
    }

    /// Reads `n` bits as an unsigned value, first bit most significant —
    /// ITU-T H.264 clause 7.2, `u(n)`. This also covers `f(n)`.
    ///
    /// Returns [`InvalidReason::BitCountOutOfRange`] if `n` exceeds 32 and
    /// [`BitstreamError::Truncated`] if fewer than `n` bits remain; either way
    /// the cursor does not move.
    pub fn read_bits(&mut self, n: u32) -> (r: Result<u32, BitstreamError>)
        ensures
            final(self).bytes() == old(self).bytes(),
            (r, final(self).cursor()) == read_bits_outcome(
                old(self).bytes(),
                old(self).cursor(),
                n,
            ),
            final(self).cursor() <= bit_len(final(self).bytes()),
    {
        proof {
            use_type_invariant(&*self);
        }
        if n > 32 {
            return Err(self.invalid(self.pos, InvalidReason::BitCountOutOfRange));
        }
        if n as u64 > self.bits_remaining() {
            return Err(self.truncated(n));
        }
        let ghost bytes = self.bytes();
        let ghost start = self.cursor();
        let mut value: u32 = 0;
        let mut i: u32 = 0;
        proof {
            lemma2_to64();
        }
        while i < n
            invariant
                self.bytes() == bytes,
                i <= n <= 32,
                start + n <= bit_len(bytes),
                self.cursor() == start + i,
                value == bits_value(bytes, start, i as nat),
                value < pow2(i as nat),
            decreases n - i,
        {
            let bit = match self.read_bit() {
                Ok(b) => b,
                Err(e) => {
                    return Err(e);
                },
            };
            proof {
                lemma_pow2_unfold((i + 1) as nat);
                lemma_pow2_no_more_than_32((i + 1) as nat);
            }
            value = value * 2 + if bit {
                1u32
            } else {
                0u32
            };
            i = i + 1;
        }
        Ok(value)
    }

    /// Advances the cursor by `n` bits without decoding them.
    ///
    /// Returns [`BitstreamError::Truncated`] if fewer than `n` bits remain, in
    /// which case the cursor does not move.
    pub fn skip_bits(&mut self, n: u64) -> (r: Result<(), BitstreamError>)
        ensures
            final(self).bytes() == old(self).bytes(),
            (r, final(self).cursor()) == skip_bits_outcome(
                old(self).bytes(),
                old(self).cursor(),
                n,
            ),
            final(self).cursor() <= bit_len(final(self).bytes()),
    {
        proof {
            use_type_invariant(&*self);
        }
        if n > self.bits_remaining() {
            let needed = if n > u32::MAX as u64 {
                u32::MAX
            } else {
                n as u32
            };
            return Err(self.truncated(needed));
        }
        self.pos = self.pos + n;
        Ok(())
    }
}

impl<'a> BitReader<'a> {
    /// Reads an unsigned Exp-Golomb code — ITU-T H.264 clause 9.1, `ue(v)`.
    ///
    /// Returns [`BitstreamError::Truncated`] if the code runs off the end, and
    /// [`InvalidReason::ExpGolombTooLong`] if it begins with 32 or more zero
    /// bits, which cannot encode a representable value. The value read is at
    /// most `2^32 - 2`.
    pub fn read_ue(&mut self) -> (r: Result<u32, BitstreamError>)
        ensures
            final(self).bytes() == old(self).bytes(),
            (r, final(self).cursor()) == read_ue_outcome(old(self).bytes(), old(self).cursor()),
            final(self).cursor() <= bit_len(final(self).bytes()),
            r matches Ok(v) ==> v <= u32::MAX - 1,
    {
        proof {
            use_type_invariant(&*self);
        }
        let ghost bytes = self.bytes();
        let start = self.pos;
        let mut leading_zeros: u32 = 0;
        loop
            invariant_except_break
                self.cursor() == start + leading_zeros,
                zero_run(bytes, start as int) == leading_zeros + zero_run(bytes, self.cursor()),
            invariant
                self.bytes() == bytes,
                bytes == old(self).bytes(),
                start == old(self).cursor(),
                leading_zeros <= MAX_LEADING_ZEROS,
                start <= bit_len(bytes),
                self.cursor() <= bit_len(bytes),
            ensures
                self.cursor() == start + leading_zeros + 1,
                zero_run(bytes, start as int) == leading_zeros,
                start + leading_zeros < bit_len(bytes),
            decreases MAX_LEADING_ZEROS - leading_zeros,
        {
            match self.read_bit() {
                Err(e) => {
                    return Err(e);
                },
                Ok(true) => {
                    break ;
                },
                Ok(false) => {
                    leading_zeros = leading_zeros + 1;
                    if leading_zeros > MAX_LEADING_ZEROS {
                        return Err(self.invalid(start, InvalidReason::ExpGolombTooLong));
                    }
                },
            }
        }
        if leading_zeros == 0 {
            proof {
                lemma2_to64();
            }
            return Ok(0);
        }
        let suffix = match self.read_bits(leading_zeros) {
            Ok(v) => v,
            Err(e) => {
                return Err(e);
            },
        };
        proof {
            let k = leading_zeros as nat;
            lemma_bits_value_bound(bytes, start + k + 1, k);
            lemma_pow2_no_more_than_32(k);
            lemma_pow2_strictly_increases(k, 32);
            lemma2_to64();
            lemma_u32_shl_is_mul(1, leading_zeros);
        }
        // `leading_zeros <= 31`, so `1 << leading_zeros` is at most `2^31`
        // and the sum is at most `2^32 - 2`.
        let base = (1u32 << leading_zeros) - 1;
        Ok(base + suffix)
    }

    /// Reads a signed Exp-Golomb code — ITU-T H.264 clause 9.1.1, `se(v)`.
    ///
    /// Errors as [`BitReader::read_ue`]. The value read lies in
    /// `[-(2^31 - 1), 2^31 - 1]`.
    pub fn read_se(&mut self) -> (r: Result<i32, BitstreamError>)
        ensures
            final(self).bytes() == old(self).bytes(),
            (r, final(self).cursor()) == read_se_outcome(old(self).bytes(), old(self).cursor()),
            final(self).cursor() <= bit_len(final(self).bytes()),
            r matches Ok(v) ==> -i32::MAX <= v,
    {
        let code_num = match self.read_ue() {
            Ok(c) => c,
            Err(e) => {
                return Err(e);
            },
        };
        // The magnitude is `ceil(code_num / 2)`, at most `2^31 - 1`.
        let magnitude = code_num / 2 + code_num % 2;
        let value: i64 = if code_num % 2 == 0 {
            -(magnitude as i64)
        } else {
            magnitude as i64
        };
        assert(value == signed_of_code(code_num as int));
        Ok(value as i32)
    }

    /// Reads a truncated Exp-Golomb code — ITU-T H.264 clause 9.1.1, `te(v)`.
    ///
    /// `max_value` is the largest value the syntax element may take (`cMax`).
    /// When it is 1 the element is a single inverted bit; otherwise it is a
    /// plain `ue(v)`. The `cMax == 0` case is not reachable from valid H.264
    /// syntax; it yields 0 and consumes no bits.
    ///
    /// Errors as [`BitReader::read_ue`].
    pub fn read_te(&mut self, max_value: u32) -> (r: Result<u32, BitstreamError>)
        ensures
            final(self).bytes() == old(self).bytes(),
            (r, final(self).cursor()) == read_te_outcome(
                old(self).bytes(),
                old(self).cursor(),
                max_value,
            ),
            final(self).cursor() <= bit_len(final(self).bytes()),
    {
        proof {
            use_type_invariant(&*self);
        }
        if max_value == 0 {
            Ok(0)
        } else if max_value == 1 {
            match self.read_bit() {
                Ok(b) => Ok(if b {
                    0
                } else {
                    1
                }),
                Err(e) => Err(e),
            }
        } else {
            self.read_ue()
        }
    }
}

impl<'a> BitReader<'a> {
    /// Whether any RBSP data precedes the trailing bits — ITU-T H.264 clause
    /// 7.2, `more_rbsp_data()`.
    ///
    /// A well-formed RBSP ends with an `rbsp_stop_one_bit` followed by zero or
    /// more alignment zeros, so the final set bit in the buffer marks the end
    /// of the payload: there is more data exactly while some set bit lies after
    /// the cursor. A buffer with no set bit holds nothing that can be parsed.
    pub fn has_more_rbsp_data(&self) -> (r: bool)
        ensures
            r == one_bit_after(self.bytes(), self.cursor()),
            r <==> exists|i: int|
                self.cursor() < i < bit_len(self.bytes()) && #[trigger] bit_at(self.bytes(), i),
    {
        proof {
            use_type_invariant(self);
        }
        let r = match self.stop_bit {
            None => false,
            Some(stop) => self.pos < stop,
        };
        assert(r == one_bit_after(self.bytes(), self.cursor()));
        r
    }

    /// Consumes the RBSP trailing bits — ITU-T H.264 clause 7.3.2.11.
    ///
    /// Returns [`InvalidReason::MissingRbspStopBit`] if the stop bit is zero,
    /// [`InvalidReason::NonZeroRbspAlignmentBit`] if an alignment bit is one,
    /// and [`BitstreamError::Truncated`] if the buffer ends first. On success
    /// the cursor is byte aligned.
    pub fn read_rbsp_trailing_bits(&mut self) -> (r: Result<(), BitstreamError>)
        ensures
            final(self).bytes() == old(self).bytes(),
            (r, final(self).cursor()) == read_trailing_bits_outcome(
                old(self).bytes(),
                old(self).cursor(),
            ),
            final(self).cursor() <= bit_len(final(self).bytes()),
            r is Ok ==> final(self).cursor() % 8 == 0,
    {
        proof {
            use_type_invariant(&*self);
        }
        let ghost bytes = self.bytes();
        let start = self.pos;
        match self.read_bit() {
            Err(e) => {
                return Err(e);
            },
            Ok(false) => {
                return Err(self.invalid(start, InvalidReason::MissingRbspStopBit));
            },
            Ok(true) => {},
        }
        while !self.is_byte_aligned()
            invariant
                self.bytes() == bytes,
                bytes == old(self).bytes(),
                start == old(self).cursor(),
                start < bit_len(bytes),
                bit_at(bytes, start as int),
                start + 1 <= self.cursor() <= align_up8(start + 1),
                self.cursor() <= bit_len(bytes),
                zero_run(bytes, start + 1) == (self.cursor() - start - 1) + zero_run(
                    bytes,
                    self.cursor(),
                ),
            decreases bit_len(bytes) - self.cursor(),
        {
            proof {
                use_type_invariant(&*self);
            }
            let at = self.pos;
            match self.read_bit() {
                Err(e) => {
                    return Err(e);
                },
                Ok(true) => {
                    return Err(self.invalid(at, InvalidReason::NonZeroRbspAlignmentBit));
                },
                Ok(false) => {},
            }
        }
        Ok(())
    }
}

impl<'a> Clone for BitReader<'a> {
    /// A second reader over the same buffer, at the same cursor.
    fn clone(&self) -> (r: Self)
        ensures
            r == *self,
    {
        proof {
            use_type_invariant(self);
        }
        BitReader { data: self.data, pos: self.pos, len: self.len, stop_bit: self.stop_bit }
    }
}

/// Bit `8 * b + k` of a buffer is bit `k`, from the most significant end, of
/// byte `b`.
proof fn lemma_bit_of_byte(bytes: Seq<u8>, b: int, k: int)
    requires
        0 <= b,
        0 <= k < 8,
    ensures
        bit_at(bytes, 8 * b + k) == (bytes[b] & (0x80u8 >> (k as u8)) != 0),
{
    assert((8 * b + k) / 8 == b);
    assert((8 * b + k) % 8 == k);
}

/// Masking with `0x80 >> k` tests the bit that `>> (7 - k)` brings to the bottom.
proof fn lemma_mask_is_shift(x: u8, k: u8)
    requires
        k < 8,
    ensures
        (x & (0x80u8 >> k) != 0) == (((x >> ((7 - k) as u8)) & 1u8) == 1u8),
{
    assert((x & (0x80u8 >> k) != 0) == (((x >> ((7 - k) as u8)) & 1u8) == 1u8)) by (bit_vector)
        requires
            k < 8,
    ;
}

/// A zero byte has no set bit.
proof fn lemma_zero_byte_has_no_bits(k: u8)
    requires
        k < 8,
    ensures
        (0u8 & (0x80u8 >> k)) == 0u8,
{
    assert((0u8 & (0x80u8 >> k)) == 0u8) by (bit_vector);
}

/// `2^n` for `n <= 32` is at most `2^32`.
proof fn lemma_pow2_no_more_than_32(n: nat)
    requires
        n <= 32,
    ensures
        pow2(n) <= 0x1_0000_0000,
{
    lemma2_to64();
    if n < 32 {
        lemma_pow2_strictly_increases(n, 32);
    }
}

} // verus!

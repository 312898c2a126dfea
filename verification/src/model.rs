//! The mathematical model of an RBSP buffer and of every read on it.
//!
//! A buffer is a `Seq<u8>` read most-significant bit first, so bit `i` of the
//! buffer is bit `7 - i % 8` of byte `i / 8`. Each read of the bit reader is
//! described here as an *outcome*: the value or error it returns and the
//! cursor it leaves behind, as a function of the bytes and the cursor it
//! started from.

use vstd::arithmetic::power2::pow2;
use vstd::prelude::*;

use crate::error::{BitstreamError, InvalidReason};

verus! {

/// The largest number of leading zero bits an Exp-Golomb code may have.
///
/// ITU-T H.264 clause 9.1 gives `ue(v)` the range `[0, 2^32 - 2]`. With `n`
/// leading zeros the decoded value is `2^n - 1 + read_bits(n)`, so `n = 31`
/// yields exactly `2^32 - 2` and `n = 32` cannot be represented.
pub const MAX_LEADING_ZEROS: u32 = 31;

/// Number of bits in a buffer.
pub open spec fn bit_len(bytes: Seq<u8>) -> int {
    8 * bytes.len() as int
}

/// Bit `i` of the buffer, most significant bit of each byte first.
pub open spec fn bit_at(bytes: Seq<u8>, i: int) -> bool {
    bytes[i / 8] & (0x80u8 >> ((i % 8) as u8)) != 0
}

/// The unsigned value of the `n` bits starting at bit `start`, first bit most
/// significant.
pub open spec fn bits_value(bytes: Seq<u8>, start: int, n: nat) -> nat
    decreases n,
{
    if n == 0 {
        0
    } else {
        2 * bits_value(bytes, start, (n - 1) as nat) + if bit_at(bytes, start + n - 1) {
            1nat
        } else {
            0nat
        }
    }
}

/// How many consecutive zero bits start at bit `from`: the run stops at the
/// first one bit or at the end of the buffer.
pub open spec fn zero_run(bytes: Seq<u8>, from: int) -> nat
    decreases bit_len(bytes) - from,
{
    if 0 <= from < bit_len(bytes) && !bit_at(bytes, from) {
        1 + zero_run(bytes, from + 1)
    } else {
        0
    }
}

/// Some bit strictly after `pos` is set.
pub open spec fn one_bit_after(bytes: Seq<u8>, pos: int) -> bool {
    exists|i: int| pos < i < bit_len(bytes) && #[trigger] bit_at(bytes, i)
}

/// `s` is the index of the last set bit of the buffer.
pub open spec fn is_last_one_bit(bytes: Seq<u8>, s: int) -> bool {
    &&& 0 <= s < bit_len(bytes)
    &&& bit_at(bytes, s)
    &&& forall|j: int| s < j < bit_len(bytes) ==> !#[trigger] bit_at(bytes, j)
}

/// `stop` locates the last set bit of the buffer, or is `None` when no bit is set.
pub open spec fn locates_last_one_bit(bytes: Seq<u8>, stop: Option<u64>) -> bool {
    match stop {
        Some(s) => is_last_one_bit(bytes, s as int),
        None => forall|j: int| 0 <= j < bit_len(bytes) ==> !#[trigger] bit_at(bytes, j),
    }
}

/// The smallest multiple of 8 that is at least `x`.
pub open spec fn align_up8(x: int) -> int {
    if x % 8 == 0 {
        x
    } else {
        x - x % 8 + 8
    }
}

/// The signed value that `se(v)` maps an Exp-Golomb code number to —
/// ITU-T H.264 clause 9.1.1: `(-1)^(k+1) * ceil(k / 2)`.
pub open spec fn signed_of_code(code: int) -> int {
    if code % 2 == 0 {
        -(code / 2)
    } else {
        (code + 1) / 2
    }
}

/// The error for a read at bit `pos` that needed `needed` bits but found the
/// end of the buffer first.
pub open spec fn truncated_at(bytes: Seq<u8>, pos: int, needed: int) -> BitstreamError {
    BitstreamError::Truncated {
        at_bit: pos as u64,
        needed_bits: needed as u32,
        available_bits: (bit_len(bytes) - pos) as u64,
    }
}

/// The error for data at bit `pos` that violates the specification.
pub open spec fn invalid_at(pos: int, reason: InvalidReason) -> BitstreamError {
    BitstreamError::Invalid { at_bit: pos as u64, reason }
}

/// `u(1)` at cursor `pos`: the bit, or truncation at the end of the buffer.
pub open spec fn read_bit_outcome(bytes: Seq<u8>, pos: int) -> (Result<bool, BitstreamError>, int) {
    if pos < bit_len(bytes) {
        (Ok(bit_at(bytes, pos)), pos + 1)
    } else {
        (Err(truncated_at(bytes, pos, 1)), pos)
    }
}

/// `u(n)` at cursor `pos`. A refused read leaves the cursor where it was.
pub open spec fn read_bits_outcome(bytes: Seq<u8>, pos: int, n: u32) -> (
    Result<u32, BitstreamError>,
    int,
) {
    if n > 32 {
        (Err(invalid_at(pos, InvalidReason::BitCountOutOfRange)), pos)
    } else if n > bit_len(bytes) - pos {
        (Err(truncated_at(bytes, pos, n as int)), pos)
    } else {
        (Ok(bits_value(bytes, pos, n as nat) as u32), pos + n)
    }
}

/// Advancing the cursor by `n` bits. A refused skip leaves the cursor where it
/// was and reports the request, capped at `u32::MAX`, as the bits needed.
pub open spec fn skip_bits_outcome(bytes: Seq<u8>, pos: int, n: u64) -> (Result<(), BitstreamError>, int) {
    if n > bit_len(bytes) - pos {
        (Err(truncated_at(bytes, pos, if n > u32::MAX { u32::MAX as int } else { n as int })), pos)
    } else {
        (Ok(()), pos + n)
    }
}

/// `ue(v)` at cursor `pos` — ITU-T H.264 clause 9.1.
///
/// With `k` zero bits before the first one bit, the code is those zeros, the
/// one, and a `k`-bit suffix, and its value is `2^k - 1 + suffix`. More than
/// [`MAX_LEADING_ZEROS`] zeros is invalid, reported at the start of the code
/// after 32 zeros have been consumed; a code cut short by the end of the buffer
/// is truncated, reported where the missing bits begin.
pub open spec fn read_ue_outcome(bytes: Seq<u8>, pos: int) -> (Result<u32, BitstreamError>, int) {
    let k = zero_run(bytes, pos);
    if k > MAX_LEADING_ZEROS {
        (Err(invalid_at(pos, InvalidReason::ExpGolombTooLong)), pos + 32)
    } else if pos + k >= bit_len(bytes) {
        (Err(truncated_at(bytes, pos + k, 1)), pos + k)
    } else {
        let suffix_start = pos + k + 1;
        if k > bit_len(bytes) - suffix_start {
            (Err(truncated_at(bytes, suffix_start, k as int)), suffix_start)
        } else {
            (
                Ok((pow2(k) - 1 + bits_value(bytes, suffix_start, k)) as u32),
                suffix_start + k,
            )
        }
    }
}

/// `se(v)` at cursor `pos` — ITU-T H.264 clause 9.1.1: a `ue(v)` code number
/// mapped to a signed value.
pub open spec fn read_se_outcome(bytes: Seq<u8>, pos: int) -> (Result<i32, BitstreamError>, int) {
    match read_ue_outcome(bytes, pos) {
        (Ok(code), next) => (Ok(signed_of_code(code as int) as i32), next),
        (Err(e), next) => (Err(e), next),
    }
}

/// `te(v)` with range `cMax` at cursor `pos` — ITU-T H.264 clause 9.1.1.
///
/// With `cMax` 1 the element is one inverted bit; with `cMax` 0 it is 0 and
/// takes no bits; otherwise it is a `ue(v)`.
pub open spec fn read_te_outcome(bytes: Seq<u8>, pos: int, max_value: u32) -> (
    Result<u32, BitstreamError>,
    int,
) {
    if max_value == 0 {
        (Ok(0u32), pos)
    } else if max_value == 1 {
        match read_bit_outcome(bytes, pos) {
            (Ok(b), next) => (Ok(if b { 0u32 } else { 1u32 }), next),
            (Err(e), next) => (Err(e), next),
        }
    } else {
        read_ue_outcome(bytes, pos)
    }
}

/// `rbsp_trailing_bits()` at cursor `pos` — ITU-T H.264 clause 7.3.2.11: a
/// one bit, then zero bits up to the next byte boundary.
pub open spec fn read_trailing_bits_outcome(bytes: Seq<u8>, pos: int) -> (
    Result<(), BitstreamError>,
    int,
) {
    if pos >= bit_len(bytes) {
        (Err(truncated_at(bytes, pos, 1)), pos)
    } else if !bit_at(bytes, pos) {
        (Err(invalid_at(pos, InvalidReason::MissingRbspStopBit)), pos + 1)
    } else {
        let first_one = pos + 1 + zero_run(bytes, pos + 1);
        if first_one < align_up8(pos + 1) {
            (Err(invalid_at(first_one, InvalidReason::NonZeroRbspAlignmentBit)), first_one + 1)
        } else {
            (Ok(()), align_up8(pos + 1))
        }
    }
}

} // verus!

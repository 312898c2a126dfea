//! What each read decodes, stated over the bits of the buffer.
//!
//! These laws pin the outcomes of [`crate::model`] to the definitions of
//! ITU-T H.264: a `u(n)` value is its bits read most significant first; a
//! `ue(v)` code with `k` leading zeros is worth `2^k - 1` plus its `k`-bit
//! suffix; `se(v)` maps odd code numbers to positive values and even ones to
//! non-positive values; `te(v)` with `cMax > 1` is `ue(v)`; trailing bits are a
//! one bit and zero bits up to the byte boundary; and the stop bit that
//! `more_rbsp_data()` looks for is the last set bit of the whole buffer.

use vstd::arithmetic::div_mod::lemma_div_denominator;
use vstd::arithmetic::power2::{
    lemma2_to64, lemma_pow2_pos, lemma_pow2_strictly_increases, lemma_pow2_unfold, pow2,
};
use vstd::prelude::*;

use crate::error::{BitstreamError, InvalidReason};
use crate::laws::lemma_zero_run_bits;
use crate::model::{
    bit_at, bit_len, bits_value, is_last_one_bit, locates_last_one_bit, read_bit_outcome,
    read_bits_outcome, read_se_outcome, read_te_outcome, read_trailing_bits_outcome,
    read_ue_outcome, skip_bits_outcome, zero_run, MAX_LEADING_ZEROS,
};

verus! {

/// Bit `j` (counted from the most significant end) of the `n`-bit number `v`.
pub open spec fn digit_of(v: nat, n: nat, j: int) -> bool {
    (v / pow2((n - 1 - j) as nat)) % 2 == 1
}

/// The `n` bits from `start` spell out `v`, most significant bit first.
pub open spec fn spells(bytes: Seq<u8>, start: int, n: nat, v: nat) -> bool {
    &&& v < pow2(n)
    &&& forall|j: int| 0 <= j < n ==> #[trigger] bit_at(bytes, start + j) == digit_of(v, n, j)
}

/// The value of `n` bits is below `2^n`.
pub proof fn lemma_bits_value_bound(bytes: Seq<u8>, start: int, n: nat)
    ensures
        bits_value(bytes, start, n) < pow2(n),
    decreases n,
{
    if n == 0 {
        lemma2_to64();
    } else {
        lemma_bits_value_bound(bytes, start, (n - 1) as nat);
        lemma_pow2_unfold(n);
    }
}

/// The model's value of `n` bits is the number they spell.
pub proof fn lemma_bits_value_spells(bytes: Seq<u8>, start: int, n: nat, v: nat)
    requires
        spells(bytes, start, n, v),
    ensures
        bits_value(bytes, start, n) == v,
    decreases n,
{
    if n == 0 {
        lemma2_to64();
    } else {
        let h = v / 2;
        lemma_pow2_unfold(n);
        assert forall|j: int| 0 <= j < n - 1 implies #[trigger] bit_at(bytes, start + j)
            == digit_of(h, (n - 1) as nat, j) by {
            let e = (n - 2 - j) as nat;
            lemma_pow2_pos(e);
            lemma_div_denominator(v as int, 2, pow2(e) as int);
            lemma_pow2_unfold((n - 1 - j) as nat);
            assert(bit_at(bytes, start + j) == digit_of(v, n, j));
        }
        lemma_bits_value_spells(bytes, start, (n - 1) as nat, h);
        assert(bit_at(bytes, start + (n - 1)) == digit_of(v, n, n - 1));
        lemma2_to64();
        assert(start + (n - 1) == start + n - 1);
        assert(v == 2 * h + v % 2);
    }
}

/// `k` zero bits followed by a one bit make a zero run of exactly `k`.
proof fn lemma_zero_run_of_zeros(bytes: Seq<u8>, p: int, k: nat)
    requires
        0 <= p,
        p + k < bit_len(bytes),
        forall|j: int| 0 <= j < k ==> !#[trigger] bit_at(bytes, p + j),
        bit_at(bytes, p + k),
    ensures
        zero_run(bytes, p) == k,
    decreases k,
{
    if k > 0 {
        assert(!bit_at(bytes, p + 0));
        assert forall|j: int| 0 <= j < k - 1 implies !#[trigger] bit_at(bytes, (p + 1) + j) by {
            assert(!bit_at(bytes, p + (j + 1)));
        }
        assert(bit_at(bytes, (p + 1) + (k - 1) as nat));
        lemma_zero_run_of_zeros(bytes, p + 1, (k - 1) as nat);
    } else {
        assert(bit_at(bytes, p + 0));
    }
}

/// `m` zero bits make a zero run of at least `m`.
proof fn lemma_zero_run_at_least(bytes: Seq<u8>, p: int, m: nat)
    requires
        0 <= p,
        p + m <= bit_len(bytes),
        forall|j: int| 0 <= j < m ==> !#[trigger] bit_at(bytes, p + j),
    ensures
        zero_run(bytes, p) >= m,
    decreases m,
{
    if m > 0 {
        assert(!bit_at(bytes, p + 0));
        assert forall|j: int| 0 <= j < m - 1 implies !#[trigger] bit_at(bytes, (p + 1) + j) by {
            assert(!bit_at(bytes, p + (j + 1)));
        }
        lemma_zero_run_at_least(bytes, p + 1, (m - 1) as nat);
    }
}

/// `u(n)`: when `n <= 32` bits are present from the cursor, the read returns
/// the number they spell, most significant bit first, and moves past them.
pub proof fn law_read_bits_value(bytes: Seq<u8>, p: int, n: u32, v: nat)
    requires
        0 <= p,
        n <= 32,
        p + n <= bit_len(bytes),
        spells(bytes, p, n as nat, v),
    ensures
        read_bits_outcome(bytes, p, n) == (Ok::<u32, BitstreamError>(v as u32), p + n),
        v <= u32::MAX,
{
    lemma_bits_value_spells(bytes, p, n as nat, v);
    lemma2_to64();
    if n < 32 {
        lemma_pow2_strictly_increases(n as nat, 32);
    }
}

/// `u(1)`: a present bit is returned as is and the cursor moves one bit.
pub proof fn law_read_bit_value(bytes: Seq<u8>, p: int)
    requires
        0 <= p < bit_len(bytes),
    ensures
        read_bit_outcome(bytes, p) == (Ok::<bool, BitstreamError>(bit_at(bytes, p)), p + 1),
{
}

/// `ue(v)`: for every `k <= 31`, a code of `k` zero bits, a one bit and a
/// complete `k`-bit suffix decodes to `2^k - 1 + suffix`, a value of at most
/// `2^32 - 2`, and the cursor moves `2k + 1` bits.
pub proof fn law_read_ue_value(bytes: Seq<u8>, p: int, k: nat, suffix: nat)
    requires
        0 <= p,
        k <= 31,
        p + 2 * k + 1 <= bit_len(bytes),
        forall|j: int| 0 <= j < k ==> !#[trigger] bit_at(bytes, p + j),
        bit_at(bytes, p + k),
        spells(bytes, p + k + 1, k, suffix),
    ensures
        pow2(k) - 1 + suffix <= u32::MAX - 1,
        read_ue_outcome(bytes, p) == (
            Ok::<u32, BitstreamError>((pow2(k) - 1 + suffix) as u32),
            p + 2 * k + 1,
        ),
{
    lemma_zero_run_of_zeros(bytes, p, k);
    lemma_bits_value_spells(bytes, p + k + 1, k, suffix);
    lemma2_to64();
    if k < 31 {
        lemma_pow2_strictly_increases(k, 31);
    }
}

/// `ue(v)`: 32 zero bits at the cursor are an overlong code, reported at the
/// cursor, with those 32 bits consumed.
pub proof fn law_read_ue_overlong(bytes: Seq<u8>, p: int)
    requires
        0 <= p,
        p + 32 <= bit_len(bytes),
        forall|j: int| 0 <= j < 32 ==> !#[trigger] bit_at(bytes, p + j),
    ensures
        read_ue_outcome(bytes, p) == (
            Err::<u32, BitstreamError>(
                BitstreamError::Invalid {
                    at_bit: p as u64,
                    reason: InvalidReason::ExpGolombTooLong,
                },
            ),
            p + 32,
        ),
{
    lemma_zero_run_at_least(bytes, p, 32);
    assert(zero_run(bytes, p) > MAX_LEADING_ZEROS);
}

/// Every successful `ue(v)` value is at most `2^32 - 2`.
pub proof fn lemma_read_ue_bound(bytes: Seq<u8>, p: int)
    ensures
        read_ue_outcome(bytes, p).0 matches Ok(c) ==> c <= u32::MAX - 1,
{
    let k = zero_run(bytes, p);
    if k <= 31 {
        let s = bits_value(bytes, p + k + 1, k);
        lemma_bits_value_bound(bytes, p + k + 1, k);
        lemma2_to64();
        if k < 31 {
            lemma_pow2_strictly_increases(k, 31);
        }
        assert(pow2(k) - 1 + s <= u32::MAX - 1);
    }
}

/// `se(v)`: the code number `c` that `ue(v)` reads at the cursor becomes
/// `+(c + 1) / 2` when `c` is odd and `-(c / 2)` when `c` is even, so the
/// mapping is a bijection from code numbers onto the integers, positive
/// exactly for odd codes, with magnitude `ceil(c / 2)`. Errors and the cursor
/// are those of `ue(v)`.
pub proof fn law_read_se_mapping(bytes: Seq<u8>, p: int)
    ensures
        match (read_ue_outcome(bytes, p), read_se_outcome(bytes, p)) {
            ((Ok(c), q), (Ok(v), q2)) => {
                &&& q2 == q
                &&& c % 2 == 1 ==> v as int == (c + 1) / 2
                &&& c % 2 == 0 ==> v as int == -(c / 2)
                &&& v > 0 <==> c % 2 == 1
                &&& c as int == if v > 0 {
                    2 * v - 1
                } else {
                    -2 * v
                }
            },
            ((Err(e), q), (Err(e2), q2)) => e2 == e && q2 == q,
            _ => false,
        },
{
    lemma_read_ue_bound(bytes, p);
}

/// `te(v)` with `cMax > 1` is exactly `ue(v)`: the same value and cursor, or
/// the same error. Nothing clamps the value to `cMax`.
pub proof fn law_read_te_is_ue(bytes: Seq<u8>, p: int, max_value: u32)
    requires
        max_value > 1,
    ensures
        read_te_outcome(bytes, p, max_value) == read_ue_outcome(bytes, p),
{
}

/// `te(v)` with `cMax == 1` is one inverted bit, and with `cMax == 0` it is 0
/// and takes no bits.
pub proof fn law_read_te_small_ranges(bytes: Seq<u8>, p: int)
    requires
        0 <= p < bit_len(bytes),
    ensures
        read_te_outcome(bytes, p, 1) == (
            Ok::<u32, BitstreamError>(if bit_at(bytes, p) { 0u32 } else { 1u32 }),
            p + 1,
        ),
        read_te_outcome(bytes, p, 0) == (Ok::<u32, BitstreamError>(0u32), p),
{
}

/// Trailing bits read successfully from cursor `p` are a set bit at `p` and
/// zero bits up to the next byte boundary, where the cursor stops.
pub proof fn law_trailing_bits_accepted(bytes: Seq<u8>, p: int)
    requires
        0 <= p <= bit_len(bytes),
        read_trailing_bits_outcome(bytes, p).0 is Ok,
    ensures
        ({
            let q = read_trailing_bits_outcome(bytes, p).1;
            &&& bit_at(bytes, p)
            &&& p < q <= p + 8
            &&& q % 8 == 0
            &&& q <= bit_len(bytes)
            &&& forall|j: int| p < j < q ==> !#[trigger] bit_at(bytes, j)
        }),
{
    let q = read_trailing_bits_outcome(bytes, p).1;
    let z = zero_run(bytes, p + 1);
    assert(bit_len(bytes) % 8 == 0);
    assert forall|j: int| p < j < q implies !#[trigger] bit_at(bytes, j) by {
        lemma_zero_run_bits(bytes, p + 1, j - (p + 1));
        assert(bit_at(bytes, (p + 1) + (j - (p + 1))) == bit_at(bytes, j));
    }
}

/// A zero where the stop bit belongs is reported at the cursor, with one bit
/// consumed.
pub proof fn law_trailing_bits_missing_stop(bytes: Seq<u8>, p: int)
    requires
        0 <= p < bit_len(bytes),
        !bit_at(bytes, p),
    ensures
        read_trailing_bits_outcome(bytes, p) == (
            Err::<(), BitstreamError>(
                BitstreamError::Invalid {
                    at_bit: p as u64,
                    reason: InvalidReason::MissingRbspStopBit,
                },
            ),
            p + 1,
        ),
{
}

/// After a stop bit at `p`, a one bit at `j0` in the same byte, with only
/// zeros between them, is reported as a non-zero alignment bit at `j0`, with
/// the cursor just past it. Every alignment bit is checked, not only the first.
pub proof fn law_trailing_bits_rejects_one(bytes: Seq<u8>, p: int, j0: int)
    requires
        0 <= p < j0 < bit_len(bytes),
        j0 / 8 == p / 8,
        bit_at(bytes, p),
        bit_at(bytes, j0),
        forall|j: int| p < j < j0 ==> !#[trigger] bit_at(bytes, j),
    ensures
        read_trailing_bits_outcome(bytes, p) == (
            Err::<(), BitstreamError>(
                BitstreamError::Invalid {
                    at_bit: j0 as u64,
                    reason: InvalidReason::NonZeroRbspAlignmentBit,
                },
            ),
            j0 + 1,
        ),
{
    let k = (j0 - p - 1) as nat;
    assert forall|j: int| 0 <= j < k implies !#[trigger] bit_at(bytes, (p + 1) + j) by {
        assert(p < (p + 1) + j < j0);
    }
    assert(bit_at(bytes, (p + 1) + k));
    lemma_zero_run_of_zeros(bytes, p + 1, k);
}

/// The stop bit located for a buffer is at or after every set bit of the
/// whole buffer, whichever byte that bit lies in; when none is located, no bit
/// of the buffer is set.
pub proof fn law_stop_bit_is_last_set_bit(bytes: Seq<u8>, stop: Option<u64>, i: int)
    requires
        locates_last_one_bit(bytes, stop),
        0 <= i < bit_len(bytes),
        bit_at(bytes, i),
    ensures
        stop matches Some(s) && i <= s && bit_at(bytes, s as int) && s < bit_len(bytes),
{
    match stop {
        Some(s) => {
            assert(is_last_one_bit(bytes, s as int));
        },
        None => {
            assert(!bit_at(bytes, i));
        },
    }
}

/// Bits are numbered most significant first: bit `k` of byte `i` is bit
/// `8 * i + k` of the buffer.
pub proof fn law_bit_order(bytes: Seq<u8>, i: int, k: int)
    requires
        0 <= i < bytes.len(),
        0 <= k < 8,
    ensures
        bit_at(bytes, 8 * i + k) == (((bytes[i] >> ((7 - k) as u8)) & 1u8) == 1u8),
{
    assert((8 * i + k) / 8 == i);
    assert((8 * i + k) % 8 == k);
    let x = bytes[i];
    let kk = k as u8;
    assert((x & (0x80u8 >> kk) != 0) == (((x >> ((7 - kk) as u8)) & 1u8) == 1u8)) by (bit_vector)
        requires
            kk < 8,
    ;
}

/// `u(1)` at the end of the buffer is truncated and does not move the cursor.
pub proof fn law_read_bit_at_end(bytes: Seq<u8>)
    ensures
        read_bit_outcome(bytes, bit_len(bytes)) == (
            Err::<bool, BitstreamError>(
                BitstreamError::Truncated {
                    at_bit: bit_len(bytes) as u64,
                    needed_bits: 1,
                    available_bits: 0,
                },
            ),
            bit_len(bytes),
        ),
{
}

/// `u(n)` with `n > 32` is refused at the cursor, and with fewer than `n` bits
/// left it is truncated; either way the cursor stays put.
pub proof fn law_read_bits_refused(bytes: Seq<u8>, p: int, n: u32)
    requires
        0 <= p <= bit_len(bytes),
        bit_len(bytes) <= u64::MAX,
        n > 32 || p + n > bit_len(bytes),
    ensures
        read_bits_outcome(bytes, p, n).1 == p,
        n > 32 ==> read_bits_outcome(bytes, p, n).0 == Err::<u32, BitstreamError>(
            BitstreamError::Invalid { at_bit: p as u64, reason: InvalidReason::BitCountOutOfRange },
        ),
        n <= 32 ==> read_bits_outcome(bytes, p, n).0 == Err::<u32, BitstreamError>(
            BitstreamError::Truncated {
                at_bit: p as u64,
                needed_bits: n,
                available_bits: (bit_len(bytes) - p) as u64,
            },
        ),
{
}

/// A skip moves the cursor exactly `n` bits when they are present, and is
/// otherwise truncated with the cursor left in place.
pub proof fn law_skip_bits(bytes: Seq<u8>, p: int, n: u64)
    requires
        0 <= p <= bit_len(bytes),
        bit_len(bytes) <= u64::MAX,
    ensures
        p + n <= bit_len(bytes) ==> skip_bits_outcome(bytes, p, n) == (
            Ok::<(), BitstreamError>(()),
            p + n,
        ),
        p + n > bit_len(bytes) ==> skip_bits_outcome(bytes, p, n).1 == p
            && skip_bits_outcome(bytes, p, n).0 is Err,
{
}

/// `ue(v)`: fewer than 32 zero bits running to the end of the buffer are
/// truncated at the end, with the cursor there.
pub proof fn law_read_ue_prefix_truncated(bytes: Seq<u8>, p: int)
    requires
        0 <= p <= bit_len(bytes) < p + 32,
        bit_len(bytes) <= u64::MAX,
        forall|j: int| p <= j < bit_len(bytes) ==> !#[trigger] bit_at(bytes, j),
    ensures
        read_ue_outcome(bytes, p) == (
            Err::<u32, BitstreamError>(
                BitstreamError::Truncated {
                    at_bit: bit_len(bytes) as u64,
                    needed_bits: 1,
                    available_bits: 0,
                },
            ),
            bit_len(bytes),
        ),
{
    let m = (bit_len(bytes) - p) as nat;
    assert forall|j: int| 0 <= j < m implies !#[trigger] bit_at(bytes, p + j) by {
        assert(p <= p + j < bit_len(bytes));
    }
    lemma_zero_run_at_least(bytes, p, m);
    lemma_zero_run_bounded(bytes, p);
}

/// A zero run never extends past the end of the buffer.
proof fn lemma_zero_run_bounded(bytes: Seq<u8>, p: int)
    requires
        0 <= p,
    ensures
        p + zero_run(bytes, p) <= bit_len(bytes) || zero_run(bytes, p) == 0,
    decreases bit_len(bytes) - p,
{
    if 0 <= p < bit_len(bytes) && !bit_at(bytes, p) {
        lemma_zero_run_bounded(bytes, p + 1);
    }
}

/// `ue(v)`: a code whose `k`-bit suffix is cut short by the end of the buffer
/// is truncated where the suffix begins, with the cursor there.
pub proof fn law_read_ue_suffix_truncated(bytes: Seq<u8>, p: int, k: nat)
    requires
        0 <= p,
        k <= 31,
        p + k < bit_len(bytes) < p + 2 * k + 1,
        bit_len(bytes) <= u64::MAX,
        forall|j: int| 0 <= j < k ==> !#[trigger] bit_at(bytes, p + j),
        bit_at(bytes, p + k),
    ensures
        read_ue_outcome(bytes, p) == (
            Err::<u32, BitstreamError>(
                BitstreamError::Truncated {
                    at_bit: (p + k + 1) as u64,
                    needed_bits: k as u32,
                    available_bits: (bit_len(bytes) - (p + k + 1)) as u64,
                },
            ),
            p + k + 1,
        ),
{
    lemma_zero_run_of_zeros(bytes, p, k);
}

} // verus!

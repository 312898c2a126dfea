//! What holds of every read across buffers: the truncated/invalid taxonomy.
//!
//! A read that succeeds, or that finds the data invalid, has seen everything it
//! depends on: appending more bytes to the buffer does not change its outcome.
//! Only a truncated read depends on what follows, and for a truncated read some
//! continuation of the buffer makes it succeed.

use vstd::arithmetic::power2::lemma2_to64;
use vstd::prelude::*;

use crate::error::BitstreamError;
use crate::model::{
    align_up8, bit_at, bit_len, bits_value, read_bit_outcome, read_bits_outcome,
    read_se_outcome, read_te_outcome, read_trailing_bits_outcome, read_ue_outcome,
    skip_bits_outcome, zero_run,
};

verus! {

/// The result of a read is final: it succeeded, or it found invalid data.
pub open spec fn is_settled<T>(r: Result<T, BitstreamError>) -> bool {
    !(r matches Err(e) && e is Truncated)
}

/// The result of a read is a truncation.
pub open spec fn is_truncation<T>(r: Result<T, BitstreamError>) -> bool {
    r matches Err(e) && e is Truncated
}

/// Appending bytes does not change the bits already present.
pub proof fn lemma_bit_at_extend(b: Seq<u8>, c: Seq<u8>, i: int)
    requires
        0 <= i < bit_len(b),
    ensures
        bit_at(b + c, i) == bit_at(b, i),
{
    assert((b + c)[i / 8] == b[i / 8]);
}

/// Appending bytes does not change the value of bits already present.
pub proof fn lemma_bits_value_extend(b: Seq<u8>, c: Seq<u8>, start: int, n: nat)
    requires
        0 <= start,
        start + n <= bit_len(b),
    ensures
        bits_value(b + c, start, n) == bits_value(b, start, n),
    decreases n,
{
    if n > 0 {
        lemma_bits_value_extend(b, c, start, (n - 1) as nat);
        lemma_bit_at_extend(b, c, start + n - 1);
    }
}

/// Appending bytes can only lengthen a run of zeros, and leaves unchanged a run
/// that a one bit ends inside the original buffer.
pub proof fn lemma_zero_run_extend(b: Seq<u8>, c: Seq<u8>, p: int)
    requires
        0 <= p,
    ensures
        zero_run(b + c, p) >= zero_run(b, p),
        p + zero_run(b, p) < bit_len(b) ==> zero_run(b + c, p) == zero_run(b, p),
    decreases bit_len(b) - p,
{
    if p < bit_len(b) {
        lemma_bit_at_extend(b, c, p);
        if !bit_at(b, p) {
            lemma_zero_run_extend(b, c, p + 1);
        }
    }
}

/// A run of `k` zeros from `p` is `k` zero bits inside the buffer.
pub proof fn lemma_zero_run_bits(b: Seq<u8>, p: int, j: int)
    requires
        0 <= p,
        0 <= j < zero_run(b, p),
    ensures
        p + zero_run(b, p) <= bit_len(b),
        !bit_at(b, p + j),
    decreases j,
{
    if j > 0 {
        lemma_zero_run_bits(b, p + 1, j - 1);
    } else {
        lemma_zero_run_end(b, p);
    }
}

/// A run of zeros ends inside the buffer, or exactly at its end.
proof fn lemma_zero_run_end(b: Seq<u8>, p: int)
    requires
        0 <= p,
    ensures
        zero_run(b, p) > 0 ==> p + zero_run(b, p) <= bit_len(b),
        p + zero_run(b, p) < bit_len(b) ==> bit_at(b, p + zero_run(b, p)),
    decreases bit_len(b) - p,
{
    if 0 <= p < bit_len(b) && !bit_at(b, p) {
        lemma_zero_run_end(b, p + 1);
    }
}

/// Reading a bit that is present does not depend on the bytes after it.
pub proof fn law_read_bit_extension(b: Seq<u8>, c: Seq<u8>, p: int)
    requires
        0 <= p <= bit_len(b),
        is_settled(read_bit_outcome(b, p).0),
    ensures
        read_bit_outcome(b + c, p) == read_bit_outcome(b, p),
{
    lemma_bit_at_extend(b, c, p);
}

/// A `u(n)` read that succeeds, or that is refused as wider than 32 bits, does
/// not depend on the bytes after it.
pub proof fn law_read_bits_extension(b: Seq<u8>, c: Seq<u8>, p: int, n: u32)
    requires
        0 <= p <= bit_len(b),
        is_settled(read_bits_outcome(b, p, n).0),
    ensures
        read_bits_outcome(b + c, p, n) == read_bits_outcome(b, p, n),
{
    if n <= 32 {
        lemma_bits_value_extend(b, c, p, n as nat);
    }
}

/// A skip that succeeds does not depend on the bytes after it.
pub proof fn law_skip_bits_extension(b: Seq<u8>, c: Seq<u8>, p: int, n: u64)
    requires
        0 <= p <= bit_len(b),
        is_settled(skip_bits_outcome(b, p, n).0),
    ensures
        skip_bits_outcome(b + c, p, n) == skip_bits_outcome(b, p, n),
{
}

/// A `ue(v)` read that succeeds, or that finds an overlong code, does not
/// depend on the bytes after it.
pub proof fn law_read_ue_extension(b: Seq<u8>, c: Seq<u8>, p: int)
    requires
        0 <= p <= bit_len(b),
        is_settled(read_ue_outcome(b, p).0),
    ensures
        read_ue_outcome(b + c, p) == read_ue_outcome(b, p),
{
    lemma_zero_run_extend(b, c, p);
    let k = zero_run(b, p);
    if k <= 31 {
        lemma_bits_value_extend(b, c, p + k + 1, k);
    }
}

/// A `se(v)` read that succeeds, or that finds an overlong code, does not
/// depend on the bytes after it.
pub proof fn law_read_se_extension(b: Seq<u8>, c: Seq<u8>, p: int)
    requires
        0 <= p <= bit_len(b),
        is_settled(read_se_outcome(b, p).0),
    ensures
        read_se_outcome(b + c, p) == read_se_outcome(b, p),
{
    law_read_ue_extension(b, c, p);
}

/// A `te(v)` read that succeeds, or that finds an overlong code, does not
/// depend on the bytes after it.
pub proof fn law_read_te_extension(b: Seq<u8>, c: Seq<u8>, p: int, max_value: u32)
    requires
        0 <= p <= bit_len(b),
        is_settled(read_te_outcome(b, p, max_value).0),
    ensures
        read_te_outcome(b + c, p, max_value) == read_te_outcome(b, p, max_value),
{
    if max_value == 1 {
        law_read_bit_extension(b, c, p);
    } else if max_value > 1 {
        law_read_ue_extension(b, c, p);
    }
}

/// Trailing bits that are well formed, or that are found invalid, do not
/// depend on the bytes after them.
pub proof fn law_read_trailing_bits_extension(b: Seq<u8>, c: Seq<u8>, p: int)
    requires
        0 <= p <= bit_len(b),
        is_settled(read_trailing_bits_outcome(b, p).0),
    ensures
        read_trailing_bits_outcome(b + c, p) == read_trailing_bits_outcome(b, p),
{
    if p < bit_len(b) {
        lemma_bit_at_extend(b, c, p);
        if bit_at(b, p) {
            lemma_zero_run_extend(b, c, p + 1);
            assert(bit_len(b) % 8 == 0);
            assert(align_up8(p + 1) <= bit_len(b));
        }
    }
}

/// Five bytes of ones.
pub open spec fn ones_tail() -> Seq<u8> {
    seq![0xFFu8, 0xFFu8, 0xFFu8, 0xFFu8, 0xFFu8]
}

/// Every bit of the appended ones is set.
proof fn lemma_ones_tail_bits(b: Seq<u8>, i: int)
    requires
        bit_len(b) <= i < bit_len(b) + 40,
    ensures
        bit_at(b + ones_tail(), i),
{
    let k = (i % 8) as u8;
    assert((b + ones_tail())[i / 8] == 0xFFu8);
    assert(0xFFu8 & (0x80u8 >> k) != 0) by (bit_vector)
        requires
            k < 8,
    ;
}

/// A truncated `u(n)` read succeeds once enough bytes follow.
pub proof fn law_truncated_read_bits_can_complete(b: Seq<u8>, p: int, n: u32)
    requires
        0 <= p <= bit_len(b),
        is_truncation(read_bits_outcome(b, p, n).0),
    ensures
        exists|c: Seq<u8>| #[trigger] read_bits_outcome(b + c, p, n).0 is Ok,
{
    assert(read_bits_outcome(b + ones_tail(), p, n).0 is Ok);
}

/// A truncated `u(1)` read succeeds once a byte follows.
pub proof fn law_truncated_read_bit_can_complete(b: Seq<u8>, p: int)
    requires
        0 <= p <= bit_len(b),
        is_truncation(read_bit_outcome(b, p).0),
    ensures
        exists|c: Seq<u8>| #[trigger] read_bit_outcome(b + c, p).0 is Ok,
{
    assert(read_bit_outcome(b + ones_tail(), p).0 is Ok);
}

/// A truncated skip succeeds once enough bytes follow.
pub proof fn law_truncated_skip_bits_can_complete(b: Seq<u8>, p: int, n: u64)
    requires
        0 <= p <= bit_len(b),
        is_truncation(skip_bits_outcome(b, p, n).0),
    ensures
        exists|c: Seq<u8>| #[trigger] skip_bits_outcome(b + c, p, n).0 is Ok,
{
    let c = Seq::new((n / 8 + 1) as nat, |i: int| 0u8);
    assert(skip_bits_outcome(b + c, p, n).0 is Ok);
}

/// A truncated `ue(v)` read succeeds once enough bytes follow.
pub proof fn law_truncated_read_ue_can_complete(b: Seq<u8>, p: int)
    requires
        0 <= p <= bit_len(b),
        is_truncation(read_ue_outcome(b, p).0),
    ensures
        exists|c: Seq<u8>| #[trigger] read_ue_outcome(b + c, p).0 is Ok,
{
    let c = ones_tail();
    let k = zero_run(b, p);
    lemma_zero_run_extend(b, c, p);
    lemma_zero_run_end(b, p);
    if p + k < bit_len(b) {
        // The code's one bit is present; only its suffix was cut short.
        assert(zero_run(b + c, p) == k);
    } else {
        // The zeros ran to the end of the buffer; the first appended bit ends them.
        lemma_ones_tail_bits(b, p + k);
        lemma_zero_run_end(b + c, p);
        if zero_run(b + c, p) > k {
            lemma_zero_run_bits(b + c, p, k as int);
        }
        assert(zero_run(b + c, p) == k);
    }
    lemma2_to64();
    assert(read_ue_outcome(b + c, p).0 is Ok);
}

/// A truncated `se(v)` read succeeds once enough bytes follow.
pub proof fn law_truncated_read_se_can_complete(b: Seq<u8>, p: int)
    requires
        0 <= p <= bit_len(b),
        is_truncation(read_se_outcome(b, p).0),
    ensures
        exists|c: Seq<u8>| #[trigger] read_se_outcome(b + c, p).0 is Ok,
{
    law_truncated_read_ue_can_complete(b, p);
    let c = choose|c: Seq<u8>| #[trigger] read_ue_outcome(b + c, p).0 is Ok;
    assert(read_se_outcome(b + c, p).0 is Ok);
}

/// A truncated `te(v)` read succeeds once enough bytes follow.
pub proof fn law_truncated_read_te_can_complete(b: Seq<u8>, p: int, max_value: u32)
    requires
        0 <= p <= bit_len(b),
        is_truncation(read_te_outcome(b, p, max_value).0),
    ensures
        exists|c: Seq<u8>| #[trigger] read_te_outcome(b + c, p, max_value).0 is Ok,
{
    if max_value == 1 {
        assert(read_te_outcome(b + ones_tail(), p, max_value).0 is Ok);
    } else {
        law_truncated_read_ue_can_complete(b, p);
        let c = choose|c: Seq<u8>| #[trigger] read_ue_outcome(b + c, p).0 is Ok;
        assert(read_te_outcome(b + c, p, max_value).0 is Ok);
    }
}

/// Truncated trailing bits are completed by a stop bit and alignment zeros.
pub proof fn law_truncated_trailing_bits_can_complete(b: Seq<u8>, p: int)
    requires
        0 <= p <= bit_len(b),
        is_truncation(read_trailing_bits_outcome(b, p).0),
    ensures
        exists|c: Seq<u8>| #[trigger] read_trailing_bits_outcome(b + c, p).0 is Ok,
{
    let c = seq![0x80u8];
    let bc = b + c;
    assert(p == bit_len(b));
    assert(bc[p / 8] == 0x80u8);
    assert(0x80u8 & (0x80u8 >> 0u8) != 0) by (bit_vector);
    assert(bit_at(bc, p));
    assert forall|j: int| 0 <= j < 7 implies !#[trigger] bit_at(bc, (p + 1) + j) by {
        assert(bc[(p + 1 + j) / 8] == 0x80u8);
        let k = (j + 1) as u8;
        assert(0x80u8 & (0x80u8 >> k) == 0) by (bit_vector)
            requires
                1 <= k < 8,
        ;
    }
    lemma_zero_run_exact(bc, p + 1, 7);
    assert(read_trailing_bits_outcome(bc, p).0 is Ok);
}

/// A run of `n` zero bits that reaches the end of the buffer has length `n`.
proof fn lemma_zero_run_exact(b: Seq<u8>, p: int, n: nat)
    requires
        0 <= p,
        p + n == bit_len(b),
        forall|j: int| 0 <= j < n ==> !#[trigger] bit_at(b, p + j),
    ensures
        zero_run(b, p) == n,
    decreases n,
{
    if n > 0 {
        assert(!bit_at(b, p + 0));
        assert forall|j: int| 0 <= j < n - 1 implies !#[trigger] bit_at(b, (p + 1) + j) by {
            assert(!bit_at(b, p + (j + 1)));
        }
        lemma_zero_run_exact(b, p + 1, (n - 1) as nat);
    }
}

} // verus!

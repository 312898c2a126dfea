//! Errors produced while reading an H.264 bitstream.

use vstd::prelude::*;

verus! {

/// Something went wrong reading the bitstream.
///
/// The taxonomy separates *truncated* from *invalid*. A truncated stream may
/// simply not have arrived yet and a caller may choose to wait for more bytes;
/// an invalid one violates the specification and will not become valid however
/// much more data follows.
///
/// Every variant carries the bit offset at which the problem was detected.
#[derive(Debug, Clone, Copy, PartialEq, Eq, Structural)]
#[non_exhaustive]
pub enum BitstreamError {
    /// The read ran past the end of the available data.
    Truncated {
        /// Bit offset from the start of the buffer at which the read began.
        at_bit: u64,
        /// How many bits the read needed.
        needed_bits: u32,
        /// How many bits remained.
        available_bits: u64,
    },
    /// The data is present but violates ITU-T H.264.
    Invalid {
        /// Bit offset from the start of the buffer at which the problem begins.
        at_bit: u64,
        /// What specifically is wrong.
        reason: InvalidReason,
    },
}

/// Why a bitstream is invalid.
#[derive(Debug, Clone, Copy, PartialEq, Eq, Structural)]
#[non_exhaustive]
pub enum InvalidReason {
    /// An Exp-Golomb code began with 32 or more zero bits.
    ExpGolombTooLong,
    /// `rbsp_stop_one_bit` was zero — ITU-T H.264 clause 7.3.2.11.
    MissingRbspStopBit,
    /// An `rbsp_alignment_zero_bit` was one — ITU-T H.264 clause 7.3.2.11.
    NonZeroRbspAlignmentBit,
    /// More than 32 bits were requested from a single read.
    BitCountOutOfRange,
}

impl BitstreamError {
    /// The bit offset carried by the error, whichever variant it is.
    pub open spec fn spec_at_bit(self) -> u64 {
        match self {
            BitstreamError::Truncated { at_bit, .. } => at_bit,
            BitstreamError::Invalid { at_bit, .. } => at_bit,
        }
    }

    /// The bit offset at which the problem was detected.
    pub fn at_bit(&self) -> (r: u64)
        ensures
            r == self.spec_at_bit(),
    {
        match *self {
            BitstreamError::Truncated { at_bit, .. } => at_bit,
            BitstreamError::Invalid { at_bit, .. } => at_bit,
        }
    }

    /// The byte offset at which the problem was detected.
    ///
    /// This is an offset into the RBSP, the NAL unit payload after emulation
    /// prevention bytes have been removed.
    pub fn at_byte(&self) -> (r: u64)
        ensures
            r == self.spec_at_bit() / 8,
    {
        self.at_bit() / 8
    }

    /// Whether more data could make this read succeed.
    pub fn is_truncated(&self) -> (r: bool)
        ensures
            r <==> self is Truncated,
    {
        matches!(*self, BitstreamError::Truncated { .. })
    }
}

impl InvalidReason {
    /// The human-readable description of the reason.
    pub open spec fn spec_text(self) -> Seq<char> {
        match self {
            InvalidReason::ExpGolombTooLong => "Exp-Golomb code has 32 or more leading zero bits"@,
            InvalidReason::MissingRbspStopBit => "rbsp_stop_one_bit is zero"@,
            InvalidReason::NonZeroRbspAlignmentBit => "rbsp_alignment_zero_bit is one"@,
            InvalidReason::BitCountOutOfRange => "more than 32 bits requested in a single read"@,
        }
    }

    /// The human-readable description of the reason, as a static string.
    pub fn text(&self) -> (r: &'static str)
        ensures
            r@ == self.spec_text(),
    {
        match *self {
            InvalidReason::ExpGolombTooLong => "Exp-Golomb code has 32 or more leading zero bits",
            InvalidReason::MissingRbspStopBit => "rbsp_stop_one_bit is zero",
            InvalidReason::NonZeroRbspAlignmentBit => "rbsp_alignment_zero_bit is one",
            InvalidReason::BitCountOutOfRange => "more than 32 bits requested in a single read",
        }
    }

    /// The human-readable description of the reason.
    pub fn to_string(&self) -> (r: String)
        ensures
            r@ == self.spec_text(),
    {
        String::from_str(self.text())
    }
}

/// The decimal digit `d`, for `d < 10`.
pub open spec fn digit_char(d: nat) -> char {
    if d == 0 {
        '0'
    } else if d == 1 {
        '1'
    } else if d == 2 {
        '2'
    } else if d == 3 {
        '3'
    } else if d == 4 {
        '4'
    } else if d == 5 {
        '5'
    } else if d == 6 {
        '6'
    } else if d == 7 {
        '7'
    } else if d == 8 {
        '8'
    } else {
        '9'
    }
}

/// The decimal representation of `n`, without leading zeros.
pub open spec fn decimal(n: nat) -> Seq<char>
    decreases n,
{
    if n < 10 {
        seq![digit_char(n)]
    } else {
        decimal(n / 10).push(digit_char(n % 10))
    }
}

impl BitstreamError {
    /// The human-readable description of the error: where it happened and why.
    pub open spec fn spec_text(self) -> Seq<char> {
        match self {
            BitstreamError::Truncated { at_bit, needed_bits, available_bits } => "truncated bitstream at bit "@
                + decimal(at_bit as nat) + ": needed "@ + decimal(needed_bits as nat)
                + " bits, "@ + decimal(available_bits as nat) + " available"@,
            BitstreamError::Invalid { at_bit, reason } => "invalid bitstream at bit "@ + decimal(
                at_bit as nat,
            ) + ": "@ + reason.spec_text(),
        }
    }

    /// The human-readable description of the error: where it happened and why.
    pub fn to_string(&self) -> (r: String)
        ensures
            r@ == self.spec_text(),
    {
        match *self {
            BitstreamError::Truncated { at_bit, needed_bits, available_bits } => {
                let mut s = String::from_str("truncated bitstream at bit ");
                push_decimal(&mut s, at_bit);
                s.append(": needed ");
                push_decimal(&mut s, needed_bits as u64);
                s.append(" bits, ");
                push_decimal(&mut s, available_bits);
                s.append(" available");
                s
            },
            BitstreamError::Invalid { at_bit, reason } => {
                let mut s = String::from_str("invalid bitstream at bit ");
                push_decimal(&mut s, at_bit);
                s.append(": ");
                s.append(reason.text());
                s
            },
        }
    }
}

/// The one-character string of the decimal digit `d`.
fn digit_str(d: u64) -> (r: &'static str)
    requires
        d < 10,
    ensures
        r@ == seq![digit_char(d as nat)],
{
    proof {
        reveal_strlit("0");
        reveal_strlit("1");
        reveal_strlit("2");
        reveal_strlit("3");
        reveal_strlit("4");
        reveal_strlit("5");
        reveal_strlit("6");
        reveal_strlit("7");
        reveal_strlit("8");
        reveal_strlit("9");
    }
    match d {
        0 => "0",
        1 => "1",
        2 => "2",
        3 => "3",
        4 => "4",
        5 => "5",
        6 => "6",
        7 => "7",
        8 => "8",
        _ => "9",
    }
}

/// Appends the decimal representation of `n` to `s`.
fn push_decimal(s: &mut String, n: u64)
    ensures
        final(s)@ == old(s)@ + decimal(n as nat),
    decreases n,
{
    if n >= 10 {
        push_decimal(s, n / 10);
    }
    s.append(digit_str(n % 10));
    assert(s@ =~= old(s)@ + decimal(n as nat));
}

} // verus!

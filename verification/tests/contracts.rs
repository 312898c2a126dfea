//! Concrete checks of the reader's contracts, its error values and messages,
//! and the truncated/invalid taxonomy.

use h264_bitstream::{BitReader, BitstreamError, InvalidReason};

#[test]
fn new_reader_starts_at_bit_zero_with_every_bit_remaining() {
    let data = [0x12, 0x34, 0x56];
    let reader = BitReader::new(&data);
    assert_eq!(reader.bit_position(), 0);
    assert_eq!(reader.bits_remaining(), 24);
    assert!(reader.is_byte_aligned());
}

#[test]
fn read_bits_value_is_msb_first() {
    let data = [0b1010_0000, 0b0000_0001];
    let mut reader = BitReader::new(&data);
    assert_eq!(reader.read_bits(3).unwrap(), 0b101);
    assert!(!reader.is_byte_aligned());
    assert_eq!(reader.read_bits(13).unwrap(), 1);
    assert_eq!(reader.bit_position(), 16);
}

#[test]
fn truncated_read_bits_reports_need_and_leaves_cursor() {
    let data = [0xAB];
    let mut reader = BitReader::new(&data);
    reader.skip_bits(3).unwrap();
    assert_eq!(
        reader.read_bits(6),
        Err(BitstreamError::Truncated {
            at_bit: 3,
            needed_bits: 6,
            available_bits: 5,
        })
    );
    assert_eq!(reader.bit_position(), 3);
    assert_eq!(reader.read_bits(5).unwrap(), 0b01011);
}

#[test]
fn over_wide_read_leaves_cursor_put() {
    let data = [0xFF; 8];
    let mut reader = BitReader::new(&data);
    reader.skip_bits(5).unwrap();
    assert_eq!(
        reader.read_bits(40),
        Err(BitstreamError::Invalid {
            at_bit: 5,
            reason: InvalidReason::BitCountOutOfRange,
        })
    );
    assert_eq!(reader.bit_position(), 5);
}

#[test]
fn huge_skip_caps_needed_bits_at_u32_max() {
    let data = [0u8; 2];
    let mut reader = BitReader::new(&data);
    assert_eq!(
        reader.skip_bits(u64::MAX),
        Err(BitstreamError::Truncated {
            at_bit: 0,
            needed_bits: u32::MAX,
            available_bits: 16,
        })
    );
    assert_eq!(reader.bit_position(), 0);
    reader.skip_bits(16).unwrap();
    assert_eq!(reader.bits_remaining(), 0);
}

#[test]
fn ue_value_formula_for_three_leading_zeros() {
    // 0001 + 101: 2^3 - 1 + 5 = 12.
    let data = [0b0001_1010, 0b1000_0000];
    let mut reader = BitReader::new(&data);
    assert_eq!(reader.read_ue().unwrap(), 12);
    assert_eq!(reader.bit_position(), 7);
}

#[test]
fn ue_with_one_leading_zero_reads_a_one_bit_suffix() {
    // From bit 2: `01` then the suffix `1`, so 2^1 - 1 + 1 = 2.
    let data = [0b0001_1100];
    let mut reader = BitReader::new(&data);
    reader.skip_bits(2).unwrap();
    assert_eq!(reader.read_ue().unwrap(), 2);
    assert_eq!(reader.bit_position(), 5);
}

#[test]
fn ue_suffix_truncation_is_reported_after_the_prefix() {
    // Five zeros, a one at bit 5, then a five-bit suffix of which two bits remain.
    let data = [0b0000_0110];
    let mut reader = BitReader::new(&data);
    assert_eq!(
        reader.read_ue(),
        Err(BitstreamError::Truncated {
            at_bit: 6,
            needed_bits: 5,
            available_bits: 2,
        })
    );
    assert_eq!(reader.bit_position(), 6);
}

#[test]
fn ue_prefix_running_off_the_end_is_truncated_at_the_end() {
    let data = [0u8; 3];
    let mut reader = BitReader::new(&data);
    assert_eq!(
        reader.read_ue(),
        Err(BitstreamError::Truncated {
            at_bit: 24,
            needed_bits: 1,
            available_bits: 0,
        })
    );
    assert_eq!(reader.bit_position(), 24);
}

#[test]
fn overlong_ue_consumes_thirty_two_zeros() {
    let data = [0u8; 5];
    let mut reader = BitReader::new(&data);
    reader.skip_bits(1).unwrap();
    assert_eq!(
        reader.read_ue(),
        Err(BitstreamError::Invalid {
            at_bit: 1,
            reason: InvalidReason::ExpGolombTooLong,
        })
    );
    assert_eq!(reader.bit_position(), 33);
}

#[test]
fn se_maps_code_numbers_alternately() {
    // Codes 5 (00110) and 6 (00111): +3 and -3.
    let data = [0b0011_0001, 0b1100_0000];
    let mut reader = BitReader::new(&data);
    assert_eq!(reader.read_se().unwrap(), 3);
    assert_eq!(reader.read_se().unwrap(), -3);
}

#[test]
fn te_with_larger_range_reads_ue_and_propagates_errors() {
    let data = [0u8; 1];
    let mut reader = BitReader::new(&data);
    assert!(reader.read_te(5).unwrap_err().is_truncated());
    let mut empty = BitReader::new(&[]);
    assert_eq!(
        empty.read_te(1),
        Err(BitstreamError::Truncated {
            at_bit: 0,
            needed_bits: 1,
            available_bits: 0,
        })
    );
}

#[test]
fn trailing_bits_with_stop_bit_last_in_byte() {
    let data = [0b0000_0001];
    let mut reader = BitReader::new(&data);
    reader.skip_bits(7).unwrap();
    reader.read_rbsp_trailing_bits().unwrap();
    assert_eq!(reader.bit_position(), 8);
}

#[test]
fn trailing_bits_at_the_end_are_truncated() {
    let data = [0b1000_0000];
    let mut reader = BitReader::new(&data);
    reader.skip_bits(8).unwrap();
    assert_eq!(
        reader.read_rbsp_trailing_bits(),
        Err(BitstreamError::Truncated {
            at_bit: 8,
            needed_bits: 1,
            available_bits: 0,
        })
    );
}

#[test]
fn more_rbsp_data_looks_past_the_current_byte() {
    let data = [0x00, 0x80, 0x00];
    let mut reader = BitReader::new(&data);
    assert!(reader.has_more_rbsp_data());
    reader.skip_bits(8).unwrap();
    assert!(!reader.has_more_rbsp_data());
}

#[test]
fn clone_reads_the_same_as_the_original() {
    let data = [0b0101_1010];
    let mut reader = BitReader::new(&data);
    reader.skip_bits(1).unwrap();
    let mut copy = reader.clone();
    assert_eq!(copy.bit_position(), 1);
    assert_eq!(copy.read_ue().unwrap(), reader.read_ue().unwrap());
    assert_eq!(copy.bit_position(), reader.bit_position());
}

#[test]
fn error_offsets_and_kinds() {
    let truncated = BitstreamError::Truncated {
        at_bit: 19,
        needed_bits: 3,
        available_bits: 1,
    };
    assert_eq!(truncated.at_bit(), 19);
    assert_eq!(truncated.at_byte(), 2);
    assert!(truncated.is_truncated());

    let invalid = BitstreamError::Invalid {
        at_bit: 7,
        reason: InvalidReason::MissingRbspStopBit,
    };
    assert_eq!(invalid.at_bit(), 7);
    assert_eq!(invalid.at_byte(), 0);
    assert!(!invalid.is_truncated());
}

#[test]
fn error_messages_name_the_position_and_cause() {
    let truncated = BitstreamError::Truncated {
        at_bit: 1234,
        needed_bits: 32,
        available_bits: 0,
    };
    assert_eq!(
        truncated.to_string(),
        "truncated bitstream at bit 1234: needed 32 bits, 0 available"
    );
    let invalid = BitstreamError::Invalid {
        at_bit: 10,
        reason: InvalidReason::NonZeroRbspAlignmentBit,
    };
    assert_eq!(
        invalid.to_string(),
        "invalid bitstream at bit 10: rbsp_alignment_zero_bit is one"
    );
    let big = BitstreamError::Invalid {
        at_bit: u64::MAX,
        reason: InvalidReason::BitCountOutOfRange,
    };
    assert_eq!(
        big.to_string(),
        "invalid bitstream at bit 18446744073709551615: more than 32 bits requested in a single read"
    );
}

#[test]
fn invalid_reason_texts() {
    assert_eq!(
        InvalidReason::ExpGolombTooLong.text(),
        "Exp-Golomb code has 32 or more leading zero bits"
    );
    assert_eq!(
        InvalidReason::MissingRbspStopBit.to_string(),
        "rbsp_stop_one_bit is zero"
    );
    assert_eq!(
        InvalidReason::NonZeroRbspAlignmentBit.text(),
        "rbsp_alignment_zero_bit is one"
    );
    assert_eq!(
        InvalidReason::BitCountOutOfRange.to_string(),
        "more than 32 bits requested in a single read"
    );
}

/// A successful or invalid read gives the same answer when more bytes follow;
/// a truncated one can succeed once they arrive.
#[test]
fn more_data_changes_only_truncated_reads() {
    // `00111` (ue 6) fits in one byte: appending bytes changes nothing.
    let short = [0b0011_1000];
    let long = [0b0011_1000, 0xFF, 0x00];
    let mut a = BitReader::new(&short);
    let mut b = BitReader::new(&long);
    assert_eq!(a.read_ue(), Ok(6));
    assert_eq!(b.read_ue(), Ok(6));
    assert_eq!(a.bit_position(), b.bit_position());

    // An overlong code stays invalid.
    let zeros = [0u8; 4];
    let more_zeros = [0, 0, 0, 0, 0xFF];
    assert_eq!(
        BitReader::new(&zeros).read_ue(),
        BitReader::new(&more_zeros).read_ue()
    );

    // A truncated code completes.
    let cut = [0b0000_0001];
    let done = [0b0000_0001, 0b0100_0000];
    assert!(BitReader::new(&cut).read_ue().unwrap_err().is_truncated());
    // Seven zeros, a one, then the suffix 0100000: 2^7 - 1 + 32 = 159.
    assert_eq!(BitReader::new(&done).read_ue(), Ok(159));
}

#[test]
fn cursor_never_passes_the_end() {
    let data = [0xFF, 0x00];
    let mut reader = BitReader::new(&data);
    let _ = reader.read_bits(12);
    let _ = reader.read_ue();
    let _ = reader.read_ue();
    let _ = reader.read_rbsp_trailing_bits();
    let _ = reader.read_bit();
    assert!(reader.bit_position() <= 16);
    assert_eq!(reader.bits_remaining(), 16 - reader.bit_position());
}

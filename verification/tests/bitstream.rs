use h264bsd::defs::{END_OF_STREAM, HANTRO_FALSE, HANTRO_NOK, HANTRO_OK, HANTRO_TRUE};
use h264bsd::stream::{
    h264bsdFlushBits, h264bsdGetBits, h264bsdIsByteAligned, h264bsdShowBits32, show_bits_at, strmDataCopy,
    strmData_t,
};
use h264bsd::util::{h264bsdCountLeadingZeros, h264bsdMoreRbspData, h264bsdRbspTrailingBits, udiv, urem};
use h264bsd::vlc::{
    h264bsdDecodeExpGolombMapped, h264bsdDecodeExpGolombSigned, h264bsdDecodeExpGolombTruncated,
    h264bsdDecodeExpGolombUnsigned,
};

fn stream(bytes: &[u8]) -> strmData_t {
    strmData_t::new(bytes.to_vec(), bytes.len() as u32)
}

#[test]
fn get_bits_reads_msb_first() {
    let mut s = stream(&[0xA5, 0x0F]);
    assert_eq!(h264bsdGetBits(&mut s, 4), 0xA);
    assert_eq!(h264bsdGetBits(&mut s, 8), 0x50);
    assert_eq!(s.strmBuffReadBits, 12);
    assert_eq!(s.bitPosInWord, 4);
    assert_eq!(h264bsdGetBits(&mut s, 4), 0xF);
    assert_eq!(h264bsdIsByteAligned(&s), HANTRO_TRUE);
}

#[test]
fn get_bits_past_the_end_is_end_of_stream() {
    let mut s = stream(&[0xFF]);
    assert_eq!(h264bsdGetBits(&mut s, 9), END_OF_STREAM);
    assert_eq!(s.strmBuffReadBits, 9);
}

#[test]
fn show_bits_pads_with_zeros() {
    let s = stream(&[0x12, 0x34, 0x56, 0x78]);
    assert_eq!(h264bsdShowBits32(&s), 0x1234_5678);
    let t = stream(&[0xFF]);
    assert_eq!(h264bsdShowBits32(&t), 0xFF00_0000);
    assert_eq!(show_bits_at(&s, 4, 8), 0x23);
}

#[test]
fn flush_bits_reports_end_of_stream() {
    let mut s = stream(&[0x00, 0x00]);
    assert_eq!(h264bsdFlushBits(&mut s, 16), HANTRO_OK);
    assert_eq!(h264bsdFlushBits(&mut s, 1), END_OF_STREAM);
    assert_eq!(h264bsdIsByteAligned(&s), HANTRO_FALSE);
}

#[test]
fn copy_keeps_position() {
    let mut s = stream(&[0xAB, 0xCD]);
    h264bsdGetBits(&mut s, 3);
    let c = strmDataCopy(&s);
    assert_eq!(c.strmBuffReadBits, 3);
    assert_eq!(c.strmBuff, vec![0xAB, 0xCD]);
}

#[test]
fn count_leading_zeros() {
    assert_eq!(h264bsdCountLeadingZeros(0x0F, 8), 4);
    assert_eq!(h264bsdCountLeadingZeros(0, 5), 5);
    assert_eq!(h264bsdCountLeadingZeros(0x8000_0000, 32), 0);
}

#[test]
fn guarded_division() {
    assert_eq!(udiv(17, 5), 3);
    assert_eq!(urem(17, 5), 2);
    assert_eq!(udiv(17, 0), 0);
    assert_eq!(urem(17, 0), 0);
}

#[test]
fn trailing_bits_checked_and_consumed() {
    let mut s = stream(&[0x80]);
    assert_eq!(h264bsdRbspTrailingBits(&mut s), HANTRO_OK);
    assert_eq!(s.strmBuffReadBits, 8);
    let mut t = stream(&[0xA0]);
    h264bsdGetBits(&mut t, 2);
    /* remaining bits 100000 form valid trailing bits */
    assert_eq!(h264bsdRbspTrailingBits(&mut t), HANTRO_OK);
    let mut u = stream(&[0xC0]);
    assert_eq!(h264bsdRbspTrailingBits(&mut u), HANTRO_NOK);
}

#[test]
fn more_rbsp_data_sees_only_trailing_bits() {
    let s = stream(&[0x80]);
    assert_eq!(h264bsdMoreRbspData(&s), HANTRO_FALSE);
    let t = stream(&[0xC0]);
    assert_eq!(h264bsdMoreRbspData(&t), HANTRO_TRUE);
    let u = stream(&[0x12, 0x80]);
    assert_eq!(h264bsdMoreRbspData(&u), HANTRO_TRUE);
    let mut v = stream(&[0x12]);
    h264bsdGetBits(&mut v, 8);
    assert_eq!(h264bsdMoreRbspData(&v), HANTRO_FALSE);
}

#[test]
fn unsigned_exp_golomb_code_numbers() {
    /* 1 010 011 00100 00101 -> 0 1 2 3 4 */
    let mut s = stream(&[0b1010_0110, 0b0100_0010, 0b1000_0000]);
    let mut v = 99;
    for expected in 0..5u32 {
        assert_eq!(h264bsdDecodeExpGolombUnsigned(&mut s, &mut v), HANTRO_OK);
        assert_eq!(v, expected);
    }
    assert_eq!(s.strmBuffReadBits, 17);
}

#[test]
fn unsigned_exp_golomb_without_one_bit_fails() {
    let mut s = stream(&[0, 0, 0, 0, 0]);
    let mut v = 7;
    assert_eq!(h264bsdDecodeExpGolombUnsigned(&mut s, &mut v), HANTRO_NOK);
}

#[test]
fn signed_exp_golomb_mapping() {
    /* code numbers 1 2 3 4 -> 1 -1 2 -2 */
    let mut s = stream(&[0b0100_1100, 0b1000_0101, 0b0000_0000]);
    let mut v = 0;
    for expected in [1, -1, 2, -2] {
        assert_eq!(h264bsdDecodeExpGolombSigned(&mut s, &mut v), HANTRO_OK);
        assert_eq!(v, expected);
    }
}

#[test]
fn mapped_exp_golomb_coded_block_pattern() {
    let mut s = stream(&[0b1100_0000]);
    let mut v = 0;
    assert_eq!(h264bsdDecodeExpGolombMapped(&mut s, &mut v, 1), HANTRO_OK);
    assert_eq!(v, 47);
    assert_eq!(h264bsdDecodeExpGolombMapped(&mut s, &mut v, 0), HANTRO_OK);
    assert_eq!(v, 0);
}

#[test]
fn truncated_exp_golomb() {
    /* range of one: a single inverted bit */
    let mut s = stream(&[0b0010_0000]);
    let mut v = 0;
    assert_eq!(h264bsdDecodeExpGolombTruncated(&mut s, &mut v, 0), HANTRO_OK);
    assert_eq!(v, 1);
    /* larger range: an ordinary code word (010 -> 1) */
    assert_eq!(h264bsdDecodeExpGolombTruncated(&mut s, &mut v, 1), HANTRO_OK);
    assert_eq!(v, 1);
}

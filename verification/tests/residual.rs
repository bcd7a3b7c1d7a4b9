use h264bsd::cavlc::h264bsdDecodeResidualBlockCavlc;
use h264bsd::defs::HANTRO_NOK;
use h264bsd::stream::{h264bsdGetBits, strmData_t};

fn decode(bytes: &[u8], nc: i32, max: u32) -> (u32, Vec<i32>, u32) {
    let mut s = strmData_t::new(bytes.to_vec(), bytes.len() as u32);
    let mut coeff = vec![0i32; 16];
    let r = h264bsdDecodeResidualBlockCavlc(&mut s, &mut coeff, nc, max);
    (r, coeff, s.strmBuffReadBits)
}

#[test]
fn empty_block() {
    /* coeff_token 1: no coefficients */
    let (r, coeff, pos) = decode(&[0b1000_0000], 0, 16);
    assert_eq!(r, 0);
    assert_eq!(coeff, vec![0; 16]);
    assert_eq!(pos, 1);
}

#[test]
fn single_trailing_one() {
    /* coeff_token 01 (one coefficient, a trailing one), sign +, total_zeros 1 (= 0) */
    let (r, coeff, pos) = decode(&[0b0101_0000], 0, 16);
    assert_eq!(r, (1 << 4) | (1 << 16));
    assert_eq!(coeff[0], 1);
    assert_eq!(coeff[1..], [0; 15]);
    assert_eq!(pos, 4);
}

#[test]
fn negative_trailing_one_after_a_zero() {
    /* sign -, total_zeros 011 (= 1): the coefficient lands at position 1 */
    let (r, coeff, pos) = decode(&[0b0110_1100], 0, 16);
    assert_eq!(r, (1 << 4) | (1 << 17));
    assert_eq!(coeff[1], -1);
    assert_eq!(coeff[0], 0);
    assert_eq!(pos, 6);
}

#[test]
fn level_that_is_not_a_trailing_one() {
    /* coeff_token 000101 (one coefficient, no trailing ones), level_prefix 1
     * (level code 0, plus 2 for the first level) = +2, total_zeros 1 */
    let (r, coeff, pos) = decode(&[0b0001_0111], 0, 16);
    assert_eq!(r, (1 << 4) | (1 << 16));
    assert_eq!(coeff[0], 2);
    assert_eq!(pos, 8);
}

#[test]
fn two_coefficients_with_a_run() {
    /* coeff_token 001 (two trailing ones), signs + -, total_zeros for two
     * coefficients 110 (= 1); coefficients in decoding order: +1 then -1; one zero in total, all of
     * it before the last one: run_before of the first is 0 (code 1) */
    let bits: u32 = 0b001_0_1_110_1 << (32 - 9);
    let bytes = bits.to_be_bytes();
    let (r, coeff, pos) = decode(&bytes, 0, 16);
    assert_eq!(pos, 9);
    assert_eq!(r, (2 << 4) | (((1 << 1) | (1 << 2)) << 16));
    assert_eq!(coeff[0], 0);
    assert_eq!(coeff[1], -1);
    assert_eq!(coeff[2], 1);
}

#[test]
fn chroma_dc_block() {
    /* chroma DC coeff_token 1 (one trailing one), sign +, total_zeros 1 */
    let (r, coeff, pos) = decode(&[0b1010_0000], -1, 4);
    assert_eq!(r, (1 << 4) | (1 << 16));
    assert_eq!(coeff[0], 1);
    assert_eq!(pos, 3);
}

#[test]
fn invalid_coeff_token() {
    let (r, _, _) = decode(&[0, 0, 0, 0], 0, 16);
    assert_eq!(r, HANTRO_NOK);
}

#[test]
fn block_running_past_the_stream() {
    /* after three bits: coeff_token 01, sign +, total_zeros 010 whose last
     * bit lies past the end of the stream */
    let mut s = strmData_t::new(vec![0b0000_1001], 1);
    h264bsdGetBits(&mut s, 3);
    let mut coeff = vec![0i32; 16];
    assert_eq!(h264bsdDecodeResidualBlockCavlc(&mut s, &mut coeff, 0, 16), HANTRO_NOK);
}

use h264bsd::byte_stream::h264bsdExtractNalUnit;
use h264bsd::defs::{nalUnit_t, HANTRO_NOK, HANTRO_OK, IS_IDR_NAL_UNIT, NAL_CODED_SLICE_IDR, NAL_SEQ_PARAM_SET};
use h264bsd::nal::h264bsdDecodeNalUnit;
use h264bsd::stream::strmData_t;

fn stream(bytes: &[u8]) -> strmData_t {
    strmData_t::new(bytes.to_vec(), bytes.len() as u32)
}

fn header(byte: u8) -> (u32, nalUnit_t) {
    let mut s = stream(&[byte]);
    let mut nal = nalUnit_t { nalUnitType: 0, nalRefIdc: 0 };
    let r = h264bsdDecodeNalUnit(&mut s, &mut nal);
    assert_eq!(s.strmBuffReadBits, 8);
    (r, nal)
}

#[test]
fn nal_header_fields() {
    let (r, nal) = header(0x67);
    assert_eq!(r, HANTRO_OK);
    assert_eq!(nal.nalRefIdc, 3);
    assert_eq!(nal.nalUnitType, NAL_SEQ_PARAM_SET);
    let (r, nal) = header(0x65);
    assert_eq!(r, HANTRO_OK);
    assert_eq!(nal.nalUnitType, NAL_CODED_SLICE_IDR);
    assert!(IS_IDR_NAL_UNIT(&nal));
}

#[test]
fn nal_header_ref_idc_rules() {
    /* SEI must not be a reference, IDR slices must be */
    assert_eq!(header(0x06).0, HANTRO_OK);
    assert_eq!(header(0x26).0, HANTRO_NOK);
    assert_eq!(header(0x05).0, HANTRO_NOK);
    /* data partitions are not supported */
    assert_eq!(header(0x62).0, HANTRO_NOK);
}

fn extract(bytes: &[u8]) -> (u32, u32, strmData_t) {
    let mut s = strmData_t::zeroed();
    let mut read = 0;
    let r = h264bsdExtractNalUnit(bytes, bytes.len() as u32, &mut s, &mut read);
    (r, read, s)
}

#[test]
fn extract_from_byte_stream() {
    let bytes = [0, 0, 0, 1, 0x67, 0x42, 0, 0, 1, 0x68, 0xCE];
    let (r, read, s) = extract(&bytes);
    assert_eq!(r, HANTRO_OK);
    assert_eq!(read, 6);
    assert_eq!(s.strmBuff, vec![0x67, 0x42]);
    assert_eq!(s.strmBuffSize, 2);
    assert_eq!(s.strmBuffReadBits, 0);
    let (r, read, s) = extract(&bytes[6..]);
    assert_eq!(r, HANTRO_OK);
    assert_eq!(read, 5);
    assert_eq!(s.strmBuff, vec![0x68, 0xCE]);
}

#[test]
fn extract_removes_emulation_prevention() {
    let bytes = [0, 0, 1, 0x65, 0, 0, 3, 1, 0x80];
    let (r, read, s) = extract(&bytes);
    assert_eq!(r, HANTRO_OK);
    assert_eq!(read, 9);
    assert_eq!(s.strmBuff, vec![0x65, 0, 0, 1, 0x80]);
    assert_eq!(s.strmBuffSize, 5);
}

#[test]
fn extract_single_nal_unit_buffer() {
    let bytes = [0x67, 0x42, 0, 0, 3, 0];
    let (r, read, s) = extract(&bytes);
    assert_eq!(r, HANTRO_OK);
    assert_eq!(read, 6);
    assert_eq!(s.strmBuff, vec![0x67, 0x42, 0, 0, 0]);
}

#[test]
fn extract_without_start_code_fails() {
    let (r, read, _) = extract(&[0, 0, 0, 0, 0]);
    assert_eq!(r, HANTRO_NOK);
    assert_eq!(read, 5);
}

#[test]
fn extract_three_zeros_inside_nal_unit_fails() {
    let (r, read, _) = extract(&[0, 0, 1, 0x65, 0, 0, 0, 0x80]);
    assert_eq!(r, HANTRO_NOK);
    assert_eq!(read, 8);
}

#[test]
fn extract_emulation_byte_at_end_fails() {
    let (r, read, _) = extract(&[0x65, 0, 0, 3]);
    assert_eq!(r, HANTRO_NOK);
    assert_eq!(read, 4);
}

#[test]
fn extract_trailing_zeros_are_consumed_with_next_start_code() {
    /* four zeros before the next start code: the NAL unit ends before
     * them, and one of them goes with this NAL unit's bytes consumed */
    let bytes = [0, 0, 1, 0x09, 0xF0, 0, 0, 0, 0, 1, 0x67];
    let (r, read, s) = extract(&bytes);
    assert_eq!(r, HANTRO_OK);
    assert_eq!(s.strmBuff, vec![0x09, 0xF0]);
    assert_eq!(read, 6);
}

//! NAL unit header decoding.
use vstd::prelude::*;
use crate::defs::{
    nalUnitType_e, nalUnit_t, END_OF_STREAM, HANTRO_NOK, HANTRO_OK, NAL_ACCESS_UNIT_DELIMITER,
    NAL_CODED_SLICE_IDR, NAL_END_OF_SEQUENCE, NAL_END_OF_STREAM, NAL_FILLER_DATA,
    NAL_PIC_PARAM_SET, NAL_SEI, NAL_SEQ_PARAM_SET,
};
use crate::stream::{get_bits_value, h264bsdGetBits, strmData_t};

verus! {

/// Is the (nal_unit_type, nal_ref_idc) pair acceptable: no data partitioning,
/// a non-zero nal_ref_idc for parameter sets and IDR slices, and a zero one
/// for SEI, delimiters, end of sequence/stream and filler data?
pub open spec fn nal_header_valid(nalUnitType: u32, nalRefIdc: u32) -> bool {
    &&& !(nalUnitType == 2 || nalUnitType == 3 || nalUnitType == 4)
    &&& (nalUnitType == NAL_SEQ_PARAM_SET || nalUnitType == NAL_PIC_PARAM_SET || nalUnitType
        == NAL_CODED_SLICE_IDR) ==> nalRefIdc != 0
    &&& (nalUnitType == NAL_SEI || nalUnitType == NAL_ACCESS_UNIT_DELIMITER || nalUnitType
        == NAL_END_OF_SEQUENCE || nalUnitType == NAL_END_OF_STREAM || nalUnitType
        == NAL_FILLER_DATA) ==> nalRefIdc == 0
}

/// Decode the NAL unit header: forbidden_zero_bit (not checked),
/// nal_ref_idc (2 bits) and nal_unit_type (5 bits).
pub fn h264bsdDecodeNalUnit(pStrmData: &mut strmData_t, pNalUnit: &mut nalUnit_t) -> (r: u32)
    requires
        old(pStrmData).wf(),
        old(pStrmData).strmBuffReadBits + 8 <= u32::MAX,
    ensures
        final(pStrmData).wf(),
        final(pStrmData).same_stream(old(pStrmData)),
        ({
            let s = old(pStrmData);
            let p = s.pos();
            if get_bits_value(s, p, 1) == END_OF_STREAM {
                &&& r == HANTRO_NOK
                &&& final(pStrmData).pos() == p + 1
                &&& *final(pNalUnit) == *old(pNalUnit)
            } else {
                let refIdc = get_bits_value(s, p + 1, 2);
                let typ = get_bits_value(s, p + 3, 5);
                &&& final(pStrmData).pos() == p + 8
                &&& final(pNalUnit).nalRefIdc == refIdc
                &&& final(pNalUnit).nalUnitType == typ
                &&& r == (if nal_header_valid(typ, refIdc) { HANTRO_OK } else { HANTRO_NOK })
            }
        }),
{
    /* forbidden_zero_bit (not checked to be zero, errors ignored) */
    let mut tmp = h264bsdGetBits(pStrmData, 1);
    if tmp == END_OF_STREAM {
        return HANTRO_NOK;
    }
    tmp = h264bsdGetBits(pStrmData, 2);
    pNalUnit.nalRefIdc = tmp;
    tmp = h264bsdGetBits(pStrmData, 5);
    pNalUnit.nalUnitType = tmp as nalUnitType_e;
    /* data partitioning NAL units not supported */
    if (tmp == 2) || (tmp == 3) || (tmp == 4) {
        return HANTRO_NOK;
    }
    /* nal_ref_idc shall not be zero for these nal_unit_types */
    if ((tmp == NAL_SEQ_PARAM_SET) || (tmp == NAL_PIC_PARAM_SET) || (tmp == NAL_CODED_SLICE_IDR))
        && (pNalUnit.nalRefIdc == 0) {
        return HANTRO_NOK;
    }
    /* nal_ref_idc shall be zero for these nal_unit_types */
     else if ((tmp == NAL_SEI) || (tmp == NAL_ACCESS_UNIT_DELIMITER) || (tmp
        == NAL_END_OF_SEQUENCE) || (tmp == NAL_END_OF_STREAM) || (tmp == NAL_FILLER_DATA)) && (
    pNalUnit.nalRefIdc != 0) {
        return HANTRO_NOK;
    }
    HANTRO_OK
}

} // verus!

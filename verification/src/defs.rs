//! Return codes and limits shared by the decoder.
use vstd::prelude::*;

verus! {

pub const HANTRO_OK: u32 = 0;
pub const HANTRO_NOK: u32 = 1;
pub const HANTRO_TRUE: u32 = 1;
pub const HANTRO_FALSE: u32 = 0;

pub const MEMORY_ALLOCATION_ERROR: u32 = 0xFFFF;
pub const PARAM_SET_ERROR: u32 = 0xFFF0;
pub const END_OF_STREAM: u32 = 0xFFFF_FFFF;
pub const EMPTY_RESIDUAL_INDICATOR: u32 = 0xFF_FFFF;

pub const MAX_NUM_REF_PICS: usize = 16;
pub const MAX_NUM_SLICE_GROUPS: usize = 8;
pub const MAX_NUM_SEQ_PARAM_SETS: usize = 32;
pub const MAX_NUM_PIC_PARAM_SETS: usize = 256;
pub const MAX_CPB_CNT: usize = 32;

pub const NO_LONG_TERM_FRAME_INDICES: u32 = 0xFFFF;
pub const MAX_NUM_MMC_OPERATIONS: usize = 35;


pub type nalUnitType_e = u32;

pub const NAL_CODED_SLICE: u32 = 1;
pub const NAL_CODED_SLICE_IDR: u32 = 5;
pub const NAL_SEI: u32 = 6;
pub const NAL_SEQ_PARAM_SET: u32 = 7;
pub const NAL_PIC_PARAM_SET: u32 = 8;
pub const NAL_ACCESS_UNIT_DELIMITER: u32 = 9;
pub const NAL_END_OF_SEQUENCE: u32 = 10;
pub const NAL_END_OF_STREAM: u32 = 11;
pub const NAL_FILLER_DATA: u32 = 12;
pub const NAL_MAX_TYPE_VALUE: u32 = 31;

/// NAL unit header.
#[derive(Clone, Copy)]
pub struct nalUnit_t {
    pub nalUnitType: nalUnitType_e,
    pub nalRefIdc: u32,
}

/// Is the NAL unit a coded slice of an IDR picture?
pub fn IS_IDR_NAL_UNIT(pNalUnit: &nalUnit_t) -> (r: bool)
    ensures
        r == (pNalUnit.nalUnitType == NAL_CODED_SLICE_IDR),
{
    pNalUnit.nalUnitType == NAL_CODED_SLICE_IDR
}

pub const P_SLICE: u32 = 0;
pub const I_SLICE: u32 = 2;

/// Is the slice type a P slice (0 or 5)?
pub fn IS_P_SLICE(sliceType: u32) -> (r: bool)
    ensures
        r == (sliceType == 0 || sliceType == 5),
{
    sliceType == P_SLICE || sliceType == P_SLICE + 5
}

/// Is the slice type an I slice (2 or 7)?
pub fn IS_I_SLICE(sliceType: u32) -> (r: bool)
    ensures
        r == (sliceType == 2 || sliceType == 7),
{
    sliceType == I_SLICE || sliceType == I_SLICE + 5
}

} // verus!

//! Sequence and picture parameter sets, with their VUI and HRD parameters.
use vstd::prelude::*;

verus! {

pub const ASPECT_RATIO_UNSPECIFIED: u32 = 0;
pub const ASPECT_RATIO_EXTENDED_SAR: u32 = 255;

/// Hypothetical reference decoder parameters.
pub struct hrdParameters_t {
    pub cpbCnt: u32,
    pub bitRateScale: u32,
    pub cpbSizeScale: u32,
    pub bitRateValue: [u32; 32],
    pub cpbSizeValue: [u32; 32],
    pub cbrFlag: [u32; 32],
    pub initialCpbRemovalDelayLength: u32,
    pub cpbRemovalDelayLength: u32,
    pub dpbOutputDelayLength: u32,
    pub timeOffsetLength: u32,
}

/// Video usability information.
pub struct vuiParameters_t {
    pub aspectRatioPresentFlag: u32,
    pub aspectRatioIdc: u32,
    pub sarWidth: u32,
    pub sarHeight: u32,
    pub overscanInfoPresentFlag: u32,
    pub overscanAppropriateFlag: u32,
    pub videoSignalTypePresentFlag: u32,
    pub videoFormat: u32,
    pub videoFullRangeFlag: u32,
    pub colourDescriptionPresentFlag: u32,
    pub colourPrimaries: u32,
    pub transferCharacteristics: u32,
    pub matrixCoefficients: u32,
    pub chromaLocInfoPresentFlag: u32,
    pub chromaSampleLocTypeTopField: u32,
    pub chromaSampleLocTypeBottomField: u32,
    pub timingInfoPresentFlag: u32,
    pub numUnitsInTick: u32,
    pub timeScale: u32,
    pub fixedFrameRateFlag: u32,
    pub nalHrdParametersPresentFlag: u32,
    pub nalHrdParameters: hrdParameters_t,
    pub vclHrdParametersPresentFlag: u32,
    pub vclHrdParameters: hrdParameters_t,
    pub lowDelayHrdFlag: u32,
    pub picStructPresentFlag: u32,
    pub bitstreamRestrictionFlag: u32,
    pub motionVectorsOverPicBoundariesFlag: u32,
    pub maxBytesPerPicDenom: u32,
    pub maxBitsPerMbDenom: u32,
    pub log2MaxMvLengthHorizontal: u32,
    pub log2MaxMvLengthVertical: u32,
    pub numReorderFrames: u32,
    pub maxDecFrameBuffering: u32,
}

/// Sequence parameter set. `offsetForRefFrame` holds
/// `numRefFramesInPicOrderCntCycle` offsets; `vuiParameters` is meaningful
/// when `vuiParametersPresentFlag` is set.
pub struct seqParamSet_t {
    pub profileIdc: u32,
    pub levelIdc: u32,
    pub seqParameterSetId: u32,
    pub maxFrameNum: u32,
    pub picOrderCntType: u32,
    pub maxPicOrderCntLsb: u32,
    pub deltaPicOrderAlwaysZeroFlag: u32,
    pub offsetForNonRefPic: i32,
    pub offsetForTopToBottomField: i32,
    pub numRefFramesInPicOrderCntCycle: u32,
    pub offsetForRefFrame: Vec<i32>,
    pub numRefFrames: u32,
    pub gapsInFrameNumValueAllowedFlag: u32,
    pub picWidthInMbs: u32,
    pub picHeightInMbs: u32,
    pub frameCroppingFlag: u32,
    pub frameCropLeftOffset: u32,
    pub frameCropRightOffset: u32,
    pub frameCropTopOffset: u32,
    pub frameCropBottomOffset: u32,
    pub vuiParametersPresentFlag: u32,
    pub vuiParameters: vuiParameters_t,
    pub maxDpbSize: u32,
}

/// Picture parameter set. The slice group vectors hold the entries of the
/// map type that uses them (run lengths for type 0, rectangles for type 2,
/// explicit ids for type 6) and are empty otherwise.
pub struct picParamSet_t {
    pub picParameterSetId: u32,
    pub seqParameterSetId: u32,
    pub picOrderPresentFlag: u32,
    pub numSliceGroups: u32,
    pub sliceGroupMapType: u32,
    pub runLength: Vec<u32>,
    pub topLeft: Vec<u32>,
    pub bottomRight: Vec<u32>,
    pub sliceGroupChangeDirectionFlag: u32,
    pub sliceGroupChangeRate: u32,
    pub picSizeInMapUnits: u32,
    pub sliceGroupId: Vec<u32>,
    pub numRefIdxL0Active: u32,
    pub picInitQp: u32,
    pub chromaQpIndexOffset: i32,
    pub deblockingFilterControlPresentFlag: u32,
    pub constrainedIntraPredFlag: u32,
    pub redundantPicCntPresentFlag: u32,
}

} // verus!

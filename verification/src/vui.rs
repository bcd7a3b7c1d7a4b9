//! Video usability information and hypothetical reference decoder
//! parameters of a sequence parameter set.
use vstd::prelude::*;
use vstd::arithmetic::power2::*;
use crate::defs::{END_OF_STREAM, HANTRO_FALSE, HANTRO_NOK, HANTRO_OK, HANTRO_TRUE, MAX_CPB_CNT};
use crate::param_sets::{hrdParameters_t, vuiParameters_t, ASPECT_RATIO_EXTENDED_SAR};
use crate::stream::{h264bsdFlushBits, h264bsdGetBits, h264bsdShowBits32, stream_bits, strmData_t};
use crate::syntax::{in_stream, lemma_get_bits, step_done, u_ok, u_ok_at, u_val, u_val_at};
use crate::vlc::{
    h264bsdDecodeExpGolombUnsigned, lemma_ue_next, ue_next, ue_next_at, ue_ok, ue_ok_at, ue_value, ue_value_at,
};

verus! {

/// Largest DPB size in frames.
pub const MAX_DPB_SIZE: u32 = 16;
/// Bit rate bound of the highest level, in units of 1000 (VCL) or 1200
/// (NAL) bits per second.
pub const MAX_BR: u32 = 240000;
/// Coded picture buffer bound of the highest level, in the same units.
pub const MAX_CPB: u32 = 240000;

/// HRD parameters as values.
#[verifier::ext_equal]
pub struct HrdModel {
    pub cpbCnt: u32,
    pub bitRateScale: u32,
    pub cpbSizeScale: u32,
    pub bitRateValue: Seq<u32>,
    pub cpbSizeValue: Seq<u32>,
    pub cbrFlag: Seq<u32>,
    pub initialCpbRemovalDelayLength: u32,
    pub cpbRemovalDelayLength: u32,
    pub dpbOutputDelayLength: u32,
    pub timeOffsetLength: u32,
}

/// VUI parameters as values.
#[verifier::ext_equal]
pub struct VuiModel {
    pub aspectRatioPresentFlag: u32,
    pub aspectRatioIdc: u32,
    pub sarWidth: u32,
    pub sarHeight: u32,
    pub overscanInfoPresentFlag: u32,
    pub overscanAppropriateFlag: u32,
    pub videoSignalTypePresentFlag: u32,
    pub videoFormat: u32,
    pub videoFullRangeFlag: u32,
    pub colourDescriptionPresentFlag: u32,
    pub colourPrimaries: u32,
    pub transferCharacteristics: u32,
    pub matrixCoefficients: u32,
    pub chromaLocInfoPresentFlag: u32,
    pub chromaSampleLocTypeTopField: u32,
    pub chromaSampleLocTypeBottomField: u32,
    pub timingInfoPresentFlag: u32,
    pub numUnitsInTick: u32,
    pub timeScale: u32,
    pub fixedFrameRateFlag: u32,
    pub nalHrdParametersPresentFlag: u32,
    pub nalHrdParameters: HrdModel,
    pub vclHrdParametersPresentFlag: u32,
    pub vclHrdParameters: HrdModel,
    pub lowDelayHrdFlag: u32,
    pub picStructPresentFlag: u32,
    pub bitstreamRestrictionFlag: u32,
    pub motionVectorsOverPicBoundariesFlag: u32,
    pub maxBytesPerPicDenom: u32,
    pub maxBitsPerMbDenom: u32,
    pub log2MaxMvLengthHorizontal: u32,
    pub log2MaxMvLengthVertical: u32,
    pub numReorderFrames: u32,
    pub maxDecFrameBuffering: u32,
}

impl hrdParameters_t {
    pub open spec fn model(&self) -> HrdModel {
        HrdModel {
            cpbCnt: self.cpbCnt,
            bitRateScale: self.bitRateScale,
            cpbSizeScale: self.cpbSizeScale,
            bitRateValue: self.bitRateValue@,
            cpbSizeValue: self.cpbSizeValue@,
            cbrFlag: self.cbrFlag@,
            initialCpbRemovalDelayLength: self.initialCpbRemovalDelayLength,
            cpbRemovalDelayLength: self.cpbRemovalDelayLength,
            dpbOutputDelayLength: self.dpbOutputDelayLength,
            timeOffsetLength: self.timeOffsetLength,
        }
    }

    /// All parameters zero.
    pub fn zeroed() -> (r: Self)
        ensures
            r.model() == hrd_zero(),
    {
        let r = hrdParameters_t {
            cpbCnt: 0,
            bitRateScale: 0,
            cpbSizeScale: 0,
            bitRateValue: [0; 32],
            cpbSizeValue: [0; 32],
            cbrFlag: [0; 32],
            initialCpbRemovalDelayLength: 0,
            cpbRemovalDelayLength: 0,
            dpbOutputDelayLength: 0,
            timeOffsetLength: 0,
        };
        assert(r.bitRateValue@ =~= Seq::new(32, |i: int| 0u32));
        assert(r.cpbSizeValue@ =~= Seq::new(32, |i: int| 0u32));
        assert(r.cbrFlag@ =~= Seq::new(32, |i: int| 0u32));
        r
    }
}

impl vuiParameters_t {
    pub open spec fn model(&self) -> VuiModel {
        VuiModel {
            aspectRatioPresentFlag: self.aspectRatioPresentFlag,
            aspectRatioIdc: self.aspectRatioIdc,
            sarWidth: self.sarWidth,
            sarHeight: self.sarHeight,
            overscanInfoPresentFlag: self.overscanInfoPresentFlag,
            overscanAppropriateFlag: self.overscanAppropriateFlag,
            videoSignalTypePresentFlag: self.videoSignalTypePresentFlag,
            videoFormat: self.videoFormat,
            videoFullRangeFlag: self.videoFullRangeFlag,
            colourDescriptionPresentFlag: self.colourDescriptionPresentFlag,
            colourPrimaries: self.colourPrimaries,
            transferCharacteristics: self.transferCharacteristics,
            matrixCoefficients: self.matrixCoefficients,
            chromaLocInfoPresentFlag: self.chromaLocInfoPresentFlag,
            chromaSampleLocTypeTopField: self.chromaSampleLocTypeTopField,
            chromaSampleLocTypeBottomField: self.chromaSampleLocTypeBottomField,
            timingInfoPresentFlag: self.timingInfoPresentFlag,
            numUnitsInTick: self.numUnitsInTick,
            timeScale: self.timeScale,
            fixedFrameRateFlag: self.fixedFrameRateFlag,
            nalHrdParametersPresentFlag: self.nalHrdParametersPresentFlag,
            nalHrdParameters: self.nalHrdParameters.model(),
            vclHrdParametersPresentFlag: self.vclHrdParametersPresentFlag,
            vclHrdParameters: self.vclHrdParameters.model(),
            lowDelayHrdFlag: self.lowDelayHrdFlag,
            picStructPresentFlag: self.picStructPresentFlag,
            bitstreamRestrictionFlag: self.bitstreamRestrictionFlag,
            motionVectorsOverPicBoundariesFlag: self.motionVectorsOverPicBoundariesFlag,
            maxBytesPerPicDenom: self.maxBytesPerPicDenom,
            maxBitsPerMbDenom: self.maxBitsPerMbDenom,
            log2MaxMvLengthHorizontal: self.log2MaxMvLengthHorizontal,
            log2MaxMvLengthVertical: self.log2MaxMvLengthVertical,
            numReorderFrames: self.numReorderFrames,
            maxDecFrameBuffering: self.maxDecFrameBuffering,
        }
    }

    /// All parameters zero.
    pub fn zeroed() -> (r: Self)
        ensures
            r.model() == vui_zero(),
    {
        vuiParameters_t {
            aspectRatioPresentFlag: 0,
            aspectRatioIdc: 0,
            sarWidth: 0,
            sarHeight: 0,
            overscanInfoPresentFlag: 0,
            overscanAppropriateFlag: 0,
            videoSignalTypePresentFlag: 0,
            videoFormat: 0,
            videoFullRangeFlag: 0,
            colourDescriptionPresentFlag: 0,
            colourPrimaries: 0,
            transferCharacteristics: 0,
            matrixCoefficients: 0,
            chromaLocInfoPresentFlag: 0,
            chromaSampleLocTypeTopField: 0,
            chromaSampleLocTypeBottomField: 0,
            timingInfoPresentFlag: 0,
            numUnitsInTick: 0,
            timeScale: 0,
            fixedFrameRateFlag: 0,
            nalHrdParametersPresentFlag: 0,
            nalHrdParameters: hrdParameters_t::zeroed(),
            vclHrdParametersPresentFlag: 0,
            vclHrdParameters: hrdParameters_t::zeroed(),
            lowDelayHrdFlag: 0,
            picStructPresentFlag: 0,
            bitstreamRestrictionFlag: 0,
            motionVectorsOverPicBoundariesFlag: 0,
            maxBytesPerPicDenom: 0,
            maxBitsPerMbDenom: 0,
            log2MaxMvLengthHorizontal: 0,
            log2MaxMvLengthVertical: 0,
            numReorderFrames: 0,
            maxDecFrameBuffering: 0,
        }
    }
}

/// HRD parameters that are all zero.
pub open spec fn hrd_zero() -> HrdModel {
    HrdModel {
        cpbCnt: 0,
        bitRateScale: 0,
        cpbSizeScale: 0,
        bitRateValue: Seq::new(32, |i: int| 0u32),
        cpbSizeValue: Seq::new(32, |i: int| 0u32),
        cbrFlag: Seq::new(32, |i: int| 0u32),
        initialCpbRemovalDelayLength: 0,
        cpbRemovalDelayLength: 0,
        dpbOutputDelayLength: 0,
        timeOffsetLength: 0,
    }
}

/// VUI parameters that are all zero.
pub open spec fn vui_zero() -> VuiModel {
    VuiModel {
        aspectRatioPresentFlag: 0,
        aspectRatioIdc: 0,
        sarWidth: 0,
        sarHeight: 0,
        overscanInfoPresentFlag: 0,
        overscanAppropriateFlag: 0,
        videoSignalTypePresentFlag: 0,
        videoFormat: 0,
        videoFullRangeFlag: 0,
        colourDescriptionPresentFlag: 0,
        colourPrimaries: 0,
        transferCharacteristics: 0,
        matrixCoefficients: 0,
        chromaLocInfoPresentFlag: 0,
        chromaSampleLocTypeTopField: 0,
        chromaSampleLocTypeBottomField: 0,
        timingInfoPresentFlag: 0,
        numUnitsInTick: 0,
        timeScale: 0,
        fixedFrameRateFlag: 0,
        nalHrdParametersPresentFlag: 0,
        nalHrdParameters: hrd_zero(),
        vclHrdParametersPresentFlag: 0,
        vclHrdParameters: hrd_zero(),
        lowDelayHrdFlag: 0,
        picStructPresentFlag: 0,
        bitstreamRestrictionFlag: 0,
        motionVectorsOverPicBoundariesFlag: 0,
        maxBytesPerPicDenom: 0,
        maxBitsPerMbDenom: 0,
        log2MaxMvLengthHorizontal: 0,
        log2MaxMvLengthVertical: 0,
        numReorderFrames: 0,
        maxDecFrameBuffering: 0,
    }
}

// ---------------------------------------------------------------------------
// The hrd_parameters() syntax
// ---------------------------------------------------------------------------

/// A value read as `x - 1` (at most 2^32 - 2), scaled by `2^shift` modulo
/// 2^32.
pub open spec fn scaled_value(x: u32, shift: nat) -> u32 {
    ((x + 1) as u32).wrapping_mul(pow2(shift) as u32)
}

/// The bit rate, CPB size and CBR flag entries `i..cnt` at `p`, written
/// over `hm`: (decoded, parameters, end).
pub open spec fn hrd_entries(d: Seq<u8>, sz: nat, p: int, i: nat, hm: HrdModel) -> (bool, HrdModel, int)
    decreases 32 - i,
{
    if i >= hm.cpbCnt || i >= 32 {
        (true, hm, p)
    } else {
        let p2 = ue_next_at(d, sz, p);
        let p3 = ue_next_at(d, sz, p2);
        if !ue_ok_at(d, sz, p) || ue_value_at(d, sz, p) > 0xFFFF_FFFE {
            (false, hm, p2)
        } else if !ue_ok_at(d, sz, p2) || ue_value_at(d, sz, p2) > 0xFFFF_FFFE {
            (false, hm, p3)
        } else if !u_ok_at(sz, p3, 1) {
            (false, hm, p3 + 1)
        } else {
            let hm1 = HrdModel {
                bitRateValue: hm.bitRateValue.update(
                    i as int,
                    scaled_value(ue_value_at(d, sz, p), (6 + hm.bitRateScale) as nat),
                ),
                cpbSizeValue: hm.cpbSizeValue.update(
                    i as int,
                    scaled_value(ue_value_at(d, sz, p2), (4 + hm.cpbSizeScale) as nat),
                ),
                cbrFlag: hm.cbrFlag.update(i as int, u_val_at(d, sz, p3, 1)),
                ..hm
            };
            hrd_entries(d, sz, p3 + 1, i + 1, hm1)
        }
    }
}

/// The hrd_parameters() syntax at `p`, written over `hm`: (decoded,
/// parameters, end).
#[verifier::opaque]
pub open spec fn hrd_syntax(d: Seq<u8>, sz: nat, p: int, hm: HrdModel) -> (bool, HrdModel, int) {
    let cnt = ue_value_at(d, sz, p).wrapping_add(1);
    let p1 = ue_next_at(d, sz, p);
    if !ue_ok_at(d, sz, p) || cnt > MAX_CPB_CNT || !u_ok_at(sz, p1, 8) {
        (false, hm, p1)
    } else {
        let hm1 = HrdModel {
            cpbCnt: cnt,
            bitRateScale: u_val_at(d, sz, p1, 4),
            cpbSizeScale: u_val_at(d, sz, p1 + 4, 4),
            ..hm
        };
        let e = hrd_entries(d, sz, p1 + 8, 0, hm1);
        let q = e.2;
        if !e.0 || !u_ok_at(sz, q, 20) {
            (false, e.1, q)
        } else {
            (
                true,
                HrdModel {
                    initialCpbRemovalDelayLength: (u_val_at(d, sz, q, 5) + 1) as u32,
                    cpbRemovalDelayLength: (u_val_at(d, sz, q + 5, 5) + 1) as u32,
                    dpbOutputDelayLength: (u_val_at(d, sz, q + 10, 5) + 1) as u32,
                    timeOffsetLength: u_val_at(d, sz, q + 15, 5),
                    ..e.1
                },
                q + 20,
            )
        }
    }
}

/// Decode hrd_parameters() into `pHrdParameters`.
fn DecodeHrdParameters(pStrmData: &mut strmData_t, pHrdParameters: &mut hrdParameters_t) -> (r: u32)
    requires
        in_stream(old(pStrmData)),
    ensures
        final(pStrmData).wf(),
        final(pStrmData).same_stream(old(pStrmData)),
        ({
            let h = hrd_syntax(old(pStrmData).data(), old(pStrmData).size(), old(pStrmData).pos(), old(pHrdParameters).model());
            &&& r == (if h.0 { HANTRO_OK } else { HANTRO_NOK })
            &&& h.0 ==> {
                &&& final(pHrdParameters).model() == h.1
                &&& final(pStrmData).pos() == h.2
                &&& h.2 <= final(pStrmData).len_bits()
            }
        }),
{
    reveal(hrd_syntax);
    let ghost s0 = *old(pStrmData);
    let ghost p0 = s0.pos();
    let ghost hm0 = pHrdParameters.model();
    proof {
        lemma_ue_next(&s0, p0);
    }
    let tmp = h264bsdDecodeExpGolombUnsigned(pStrmData, &mut pHrdParameters.cpbCnt);
    if tmp != HANTRO_OK {
        return tmp;
    }
    pHrdParameters.cpbCnt = pHrdParameters.cpbCnt.wrapping_add(1);
    if pHrdParameters.cpbCnt > MAX_CPB_CNT as u32 {
        return HANTRO_NOK;
    }
    let ghost p1 = pStrmData.pos();
    proof {
        lemma_get_bits(pStrmData, p1, 4);
        lemma_get_bits(pStrmData, p1 + 4, 4);
        lemma2_to64();
    }
    let tmp = h264bsdGetBits(pStrmData, 4);
    if tmp == END_OF_STREAM {
        return HANTRO_NOK;
    }
    pHrdParameters.bitRateScale = tmp;
    let tmp = h264bsdGetBits(pStrmData, 4);
    if tmp == END_OF_STREAM {
        return HANTRO_NOK;
    }
    pHrdParameters.cpbSizeScale = tmp;
    let ghost hm1 = pHrdParameters.model();
    let ghost e = hrd_entries(s0.data(), s0.size(), p1 + 8, 0, hm1);
    assert(hm1 == HrdModel { cpbCnt: hm1.cpbCnt, bitRateScale: u_val(&s0, p1, 4), cpbSizeScale: u_val(&s0, p1 + 4, 4), ..hm0 });
    let mut i: u32 = 0;
    while i < pHrdParameters.cpbCnt
        invariant
            in_stream(pStrmData),
            pStrmData.same_stream(&s0),
            s0 == *old(pStrmData),
            hm0 == old(pHrdParameters).model(),
            p0 == s0.pos(),
            ue_ok(&s0, p0),
            p1 == ue_next(&s0, p0),
            u_ok(&s0, p1, 8),
            hm1.cpbCnt == ue_value(&s0, p0).wrapping_add(1),
            hm1 == (HrdModel { cpbCnt: hm1.cpbCnt, bitRateScale: u_val(&s0, p1, 4), cpbSizeScale: u_val(&s0, p1 + 4, 4), ..hm0 }),
            i <= pHrdParameters.cpbCnt <= 32,
            pHrdParameters.cpbCnt == hm1.cpbCnt,
            pHrdParameters.bitRateScale == hm1.bitRateScale,
            pHrdParameters.cpbSizeScale == hm1.cpbSizeScale,
            pHrdParameters.bitRateScale < 16,
            pHrdParameters.cpbSizeScale < 16,
            pHrdParameters.initialCpbRemovalDelayLength == hm1.initialCpbRemovalDelayLength,
            pHrdParameters.cpbRemovalDelayLength == hm1.cpbRemovalDelayLength,
            pHrdParameters.dpbOutputDelayLength == hm1.dpbOutputDelayLength,
            pHrdParameters.timeOffsetLength == hm1.timeOffsetLength,
            e == hrd_entries(s0.data(), s0.size(), p1 + 8, 0, hm1),
            e == hrd_entries(s0.data(), s0.size(), pStrmData.pos(), i as nat, pHrdParameters.model()),
        decreases pHrdParameters.cpbCnt - i,
    {
        reveal(hrd_syntax);
        let ghost q = pStrmData.pos();
        let ghost hm = pHrdParameters.model();
        proof {
            lemma_ue_next(pStrmData, q);
            lemma_ue_next(pStrmData, ue_next(pStrmData, q));
        }
        let mut value: u32 = 0;
        let tmp = h264bsdDecodeExpGolombUnsigned(pStrmData, &mut value);
        if tmp != HANTRO_OK {
            return tmp;
        }
        if value > 4294967294u32 {
            return HANTRO_NOK;
        }
        let shift = 6 + pHrdParameters.bitRateScale;
        proof {
            vstd::bits::lemma_u32_pow2_no_overflow(shift as nat);
            vstd::bits::lemma_u32_shl_is_mul(1u32, shift);
        }
        /* this may result in overflow, but this value is not used for
         * anything */
        pHrdParameters.bitRateValue[i as usize] = (value + 1).wrapping_mul(1u32 << shift);
        let mut value: u32 = 0;
        let tmp = h264bsdDecodeExpGolombUnsigned(pStrmData, &mut value);
        if tmp != HANTRO_OK {
            return tmp;
        }
        if value > 4294967294u32 {
            return HANTRO_NOK;
        }
        let shift = 4 + pHrdParameters.cpbSizeScale;
        proof {
            vstd::bits::lemma_u32_pow2_no_overflow(shift as nat);
            vstd::bits::lemma_u32_shl_is_mul(1u32, shift);
        }
        pHrdParameters.cpbSizeValue[i as usize] = (value + 1).wrapping_mul(1u32 << shift);
        let ghost q3 = pStrmData.pos();
        proof {
            lemma_get_bits(pStrmData, q3, 1);
        }
        let tmp = h264bsdGetBits(pStrmData, 1);
        if tmp == END_OF_STREAM {
            return HANTRO_NOK;
        }
        pHrdParameters.cbrFlag[i as usize] = if tmp == 1 {
            HANTRO_TRUE
        } else {
            HANTRO_FALSE
        };
        proof {
            assert(pHrdParameters.model() =~= HrdModel {
                bitRateValue: hm.bitRateValue.update(i as int, scaled_value(ue_value(&s0, q), (6 + hm.bitRateScale) as nat)),
                cpbSizeValue: hm.cpbSizeValue.update(
                    i as int,
                    scaled_value(ue_value(&s0, ue_next(&s0, q)), (4 + hm.cpbSizeScale) as nat),
                ),
                cbrFlag: hm.cbrFlag.update(i as int, u_val(&s0, q3, 1)),
                ..hm
            });
        }
        i = i + 1;
    }
    let ghost q = pStrmData.pos();
    proof {
        lemma_get_bits(pStrmData, q, 5);
        lemma_get_bits(pStrmData, q + 5, 5);
        lemma_get_bits(pStrmData, q + 10, 5);
        lemma_get_bits(pStrmData, q + 15, 5);
    }
    let tmp = h264bsdGetBits(pStrmData, 5);
    if tmp == END_OF_STREAM {
        return HANTRO_NOK;
    }
    pHrdParameters.initialCpbRemovalDelayLength = tmp + 1;
    let tmp = h264bsdGetBits(pStrmData, 5);
    if tmp == END_OF_STREAM {
        return HANTRO_NOK;
    }
    pHrdParameters.cpbRemovalDelayLength = tmp + 1;
    let tmp = h264bsdGetBits(pStrmData, 5);
    if tmp == END_OF_STREAM {
        return HANTRO_NOK;
    }
    pHrdParameters.dpbOutputDelayLength = tmp + 1;
    let tmp = h264bsdGetBits(pStrmData, 5);
    if tmp == END_OF_STREAM {
        return HANTRO_NOK;
    }
    pHrdParameters.timeOffsetLength = tmp;
    HANTRO_OK
}

// ---------------------------------------------------------------------------
// The vui_parameters() syntax, in parts
// ---------------------------------------------------------------------------

/// aspect_ratio_info and overscan_info at `p`.
#[verifier::opaque]
pub open spec fn vui_aspect(d: Seq<u8>, sz: nat, p: int, m: VuiModel) -> (bool, VuiModel, int) {
    let f = u_val_at(d, sz, p, 1);
    let m1 = VuiModel { aspectRatioPresentFlag: f, ..m };
    let a = if !u_ok_at(sz, p, 1) {
        (false, m, p + 1)
    } else if f == 0 {
        (true, m1, p + 1)
    } else if !u_ok_at(sz, p + 1, 8) {
        (false, m1, p + 9)
    } else {
        let idc = u_val_at(d, sz, p + 1, 8);
        let m2 = VuiModel { aspectRatioIdc: idc, ..m1 };
        if idc != ASPECT_RATIO_EXTENDED_SAR {
            (true, m2, p + 9)
        } else if !u_ok_at(sz, p + 9, 32) {
            (false, m2, p + 41)
        } else {
            (true, VuiModel { sarWidth: u_val_at(d, sz, p + 9, 16), sarHeight: u_val_at(d, sz, p + 25, 16), ..m2 }, p + 41)
        }
    };
    let q = a.2;
    let g = u_val_at(d, sz, q, 1);
    if !a.0 {
        a
    } else if !u_ok_at(sz, q, 1) {
        (false, a.1, q + 1)
    } else if g == 0 {
        (true, VuiModel { overscanInfoPresentFlag: g, ..a.1 }, q + 1)
    } else if !u_ok_at(sz, q + 1, 1) {
        (false, a.1, q + 2)
    } else {
        (true, VuiModel { overscanInfoPresentFlag: g, overscanAppropriateFlag: u_val_at(d, sz, q + 1, 1), ..a.1 }, q + 2)
    }
}

/// video_signal_type at `p`; the colour description defaults to 2
/// (unspecified) and the video format to 5 (unspecified) when absent.
#[verifier::opaque]
pub open spec fn vui_video_signal(d: Seq<u8>, sz: nat, p: int, m: VuiModel) -> (bool, VuiModel, int) {
    let f = u_val_at(d, sz, p, 1);
    if !u_ok_at(sz, p, 1) {
        (false, m, p + 1)
    } else if f == 0 {
        (
            true,
            VuiModel {
                videoSignalTypePresentFlag: f,
                videoFormat: 5,
                colourPrimaries: 2,
                transferCharacteristics: 2,
                matrixCoefficients: 2,
                ..m
            },
            p + 1,
        )
    } else if !u_ok_at(sz, p + 1, 5) {
        (false, m, p + 6)
    } else {
        let c = u_val_at(d, sz, p + 5, 1);
        let m1 = VuiModel {
            videoSignalTypePresentFlag: f,
            videoFormat: u_val_at(d, sz, p + 1, 3),
            videoFullRangeFlag: u_val_at(d, sz, p + 4, 1),
            colourDescriptionPresentFlag: c,
            ..m
        };
        if c == 0 {
            (true, VuiModel { colourPrimaries: 2, transferCharacteristics: 2, matrixCoefficients: 2, ..m1 }, p + 6)
        } else if !u_ok_at(sz, p + 6, 24) {
            (false, m1, p + 30)
        } else {
            (
                true,
                VuiModel {
                    colourPrimaries: u_val_at(d, sz, p + 6, 8),
                    transferCharacteristics: u_val_at(d, sz, p + 14, 8),
                    matrixCoefficients: u_val_at(d, sz, p + 22, 8),
                    ..m1
                },
                p + 30,
            )
        }
    }
}

/// chroma_loc_info and timing_info at `p`.
#[verifier::opaque]
pub open spec fn vui_chroma_timing(d: Seq<u8>, sz: nat, p: int, m: VuiModel) -> (bool, VuiModel, int) {
    let f = u_val_at(d, sz, p, 1);
    let q1 = ue_next_at(d, sz, p + 1);
    let q2 = ue_next_at(d, sz, q1);
    let a = if !u_ok_at(sz, p, 1) {
        (false, m, p + 1)
    } else if f == 0 {
        (true, VuiModel { chromaLocInfoPresentFlag: f, ..m }, p + 1)
    } else if !ue_ok_at(d, sz, p + 1) || ue_value_at(d, sz, p + 1) > 5 || !ue_ok_at(d, sz, q1) || ue_value_at(d, sz, q1) > 5 {
        (false, m, q2)
    } else {
        (
            true,
            VuiModel {
                chromaLocInfoPresentFlag: f,
                chromaSampleLocTypeTopField: ue_value_at(d, sz, p + 1),
                chromaSampleLocTypeBottomField: ue_value_at(d, sz, q1),
                ..m
            },
            q2,
        )
    };
    let q = a.2;
    let t = u_val_at(d, sz, q, 1);
    if !a.0 {
        a
    } else if !u_ok_at(sz, q, 1) {
        (false, a.1, q + 1)
    } else if t == 0 {
        (true, VuiModel { timingInfoPresentFlag: t, ..a.1 }, q + 1)
    } else if !u_ok_at(sz, q + 1, 65) || stream_bits(d, sz, q + 1, 32) == 0 || stream_bits(d, sz, q + 33, 32) == 0 {
        (false, a.1, q + 66)
    } else {
        (
            true,
            VuiModel {
                timingInfoPresentFlag: t,
                numUnitsInTick: stream_bits(d, sz, q + 1, 32) as u32,
                timeScale: stream_bits(d, sz, q + 33, 32) as u32,
                fixedFrameRateFlag: u_val_at(d, sz, q + 65, 1),
                ..a.1
            },
            q + 66,
        )
    }
}

/// HRD parameters used when the stream has none, with the bit rate and
/// CPB size of the highest level in units of `unit` bits.
#[verifier::opaque]
pub open spec fn hrd_default(hm: HrdModel, unit: u32) -> HrdModel {
    HrdModel {
        cpbCnt: 1,
        bitRateValue: hm.bitRateValue.update(0, (unit * MAX_BR + 1) as u32),
        cpbSizeValue: hm.cpbSizeValue.update(0, (unit * MAX_CPB + 1) as u32),
        initialCpbRemovalDelayLength: 24,
        cpbRemovalDelayLength: 24,
        dpbOutputDelayLength: 24,
        timeOffsetLength: 24,
        ..hm
    }
}

/// One HRD presence flag and the HRD parameters that it announces.
pub open spec fn vui_one_hrd(d: Seq<u8>, sz: nat, p: int, hm: HrdModel, unit: u32) -> (bool, u32, HrdModel, int) {
    let f = u_val_at(d, sz, p, 1);
    if !u_ok_at(sz, p, 1) {
        (false, 0, hm, p + 1)
    } else if f == 0 {
        (true, f, hrd_default(hm, unit), p + 1)
    } else {
        let h = hrd_syntax(d, sz, p + 1, hm);
        (h.0, f, h.1, h.2)
    }
}

/// NAL and VCL HRD parameters, low_delay_hrd_flag and
/// pic_struct_present_flag at `p`.
#[verifier::opaque]
pub open spec fn vui_hrd(d: Seq<u8>, sz: nat, p: int, m: VuiModel) -> (bool, VuiModel, int) {
    let n = vui_one_hrd(d, sz, p, m.nalHrdParameters, 1200);
    let mn = VuiModel { nalHrdParametersPresentFlag: n.1, nalHrdParameters: n.2, ..m };
    let v = vui_one_hrd(d, sz, n.3, m.vclHrdParameters, 1000);
    let mv = VuiModel { vclHrdParametersPresentFlag: v.1, vclHrdParameters: v.2, ..mn };
    let q = v.3;
    let low = n.1 != 0 || v.1 != 0;
    let q1 = if low { q + 1 } else { q };
    let ml = if low { VuiModel { lowDelayHrdFlag: u_val_at(d, sz, q, 1), ..mv } } else { mv };
    if !n.0 {
        (false, mn, n.3)
    } else if !v.0 {
        (false, mv, v.3)
    } else if !u_ok_at(sz, q1, 1) || (low && !u_ok_at(sz, q, 1)) {
        (false, ml, q1 + 1)
    } else {
        (true, VuiModel { picStructPresentFlag: u_val_at(d, sz, q1, 1), ..ml }, q1 + 1)
    }
}

/// bitstream_restriction at `p`, with the defaults of the standard when
/// absent.
#[verifier::opaque]
pub open spec fn vui_restriction(d: Seq<u8>, sz: nat, p: int, m: VuiModel) -> (bool, VuiModel, int) {
    let f = u_val_at(d, sz, p, 1);
    let q1 = p + 2;
    let q2 = ue_next_at(d, sz, q1);
    let q3 = ue_next_at(d, sz, q2);
    let q4 = ue_next_at(d, sz, q3);
    let q5 = ue_next_at(d, sz, q4);
    let q6 = ue_next_at(d, sz, q5);
    let q7 = ue_next_at(d, sz, q6);
    if !u_ok_at(sz, p, 1) {
        (false, m, p + 1)
    } else if f == 0 {
        (
            true,
            VuiModel {
                bitstreamRestrictionFlag: f,
                motionVectorsOverPicBoundariesFlag: HANTRO_TRUE,
                maxBytesPerPicDenom: 2,
                maxBitsPerMbDenom: 1,
                log2MaxMvLengthHorizontal: 16,
                log2MaxMvLengthVertical: 16,
                numReorderFrames: MAX_DPB_SIZE,
                maxDecFrameBuffering: MAX_DPB_SIZE,
                ..m
            },
            p + 1,
        )
    } else if !u_ok_at(sz, p + 1, 1) || !ue_ok_at(d, sz, q1) || ue_value_at(d, sz, q1) > 16 || !ue_ok_at(d, sz, q2) || ue_value_at(d, sz, q2) > 16
        || !ue_ok_at(d, sz, q3) || ue_value_at(d, sz, q3) > 16 || !ue_ok_at(d, sz, q4) || ue_value_at(d, sz, q4) > 16 || !ue_ok_at(d, sz, q5)
        || !ue_ok_at(d, sz, q6) {
        (false, m, q7)
    } else {
        (
            true,
            VuiModel {
                bitstreamRestrictionFlag: f,
                motionVectorsOverPicBoundariesFlag: u_val_at(d, sz, p + 1, 1),
                maxBytesPerPicDenom: ue_value_at(d, sz, q1),
                maxBitsPerMbDenom: ue_value_at(d, sz, q2),
                log2MaxMvLengthHorizontal: ue_value_at(d, sz, q3),
                log2MaxMvLengthVertical: ue_value_at(d, sz, q4),
                numReorderFrames: ue_value_at(d, sz, q5),
                maxDecFrameBuffering: ue_value_at(d, sz, q6),
                ..m
            },
            q7,
        )
    }
}

/// The vui_parameters() syntax at `p`: (decoded, parameters, end).
pub open spec fn vui_syntax(d: Seq<u8>, sz: nat, p: int) -> (bool, VuiModel, int) {
    let a = vui_aspect(d, sz, p, vui_zero());
    let b = vui_video_signal(d, sz, a.2, a.1);
    let c = vui_chroma_timing(d, sz, b.2, b.1);
    let h = vui_hrd(d, sz, c.2, c.1);
    let e = vui_restriction(d, sz, h.2, h.1);
    if !a.0 {
        a
    } else if !b.0 {
        b
    } else if !c.0 {
        c
    } else if !h.0 {
        h
    } else {
        e
    }
}

// ---------------------------------------------------------------------------
// Decoding
// ---------------------------------------------------------------------------

fn read_aspect(pStrmData: &mut strmData_t, v: &mut vuiParameters_t) -> (r: u32)
    requires
        in_stream(old(pStrmData)),
    ensures
        final(pStrmData).wf(),
        final(pStrmData).same_stream(old(pStrmData)),
        step_done(r, vui_aspect(old(pStrmData).data(), old(pStrmData).size(), old(pStrmData).pos(), old(v).model()), final(v).model(), final(pStrmData)),
{
    reveal(vui_aspect);
    let ghost s0 = *pStrmData;
    let ghost p = s0.pos();
    proof {
        lemma_get_bits(&s0, p, 1);
        lemma_get_bits(&s0, p + 1, 8);
        lemma_get_bits(&s0, p + 9, 16);
        lemma_get_bits(&s0, p + 25, 16);
    }
    let tmp = h264bsdGetBits(pStrmData, 1);
    if tmp == END_OF_STREAM {
        return HANTRO_NOK;
    }
    v.aspectRatioPresentFlag = if tmp == 1 {
        HANTRO_TRUE
    } else {
        HANTRO_FALSE
    };
    if v.aspectRatioPresentFlag != 0 {
        let tmp = h264bsdGetBits(pStrmData, 8);
        if tmp == END_OF_STREAM {
            return HANTRO_NOK;
        }
        v.aspectRatioIdc = tmp;
        if v.aspectRatioIdc == ASPECT_RATIO_EXTENDED_SAR {
            let tmp = h264bsdGetBits(pStrmData, 16);
            if tmp == END_OF_STREAM {
                return HANTRO_NOK;
            }
            v.sarWidth = tmp;
            let tmp = h264bsdGetBits(pStrmData, 16);
            if tmp == END_OF_STREAM {
                return HANTRO_NOK;
            }
            v.sarHeight = tmp;
        }
    }
    let ghost q = pStrmData.pos();
    proof {
        lemma_get_bits(&s0, q, 1);
        lemma_get_bits(&s0, q + 1, 1);
    }
    let tmp = h264bsdGetBits(pStrmData, 1);
    if tmp == END_OF_STREAM {
        return HANTRO_NOK;
    }
    v.overscanInfoPresentFlag = if tmp == 1 {
        HANTRO_TRUE
    } else {
        HANTRO_FALSE
    };
    if v.overscanInfoPresentFlag != 0 {
        let tmp = h264bsdGetBits(pStrmData, 1);
        if tmp == END_OF_STREAM {
            return HANTRO_NOK;
        }
        v.overscanAppropriateFlag = if tmp == 1 {
            HANTRO_TRUE
        } else {
            HANTRO_FALSE
        };
    }
    HANTRO_OK
}

fn read_video_signal(pStrmData: &mut strmData_t, v: &mut vuiParameters_t) -> (r: u32)
    requires
        in_stream(old(pStrmData)),
    ensures
        final(pStrmData).wf(),
        final(pStrmData).same_stream(old(pStrmData)),
        step_done(r, vui_video_signal(old(pStrmData).data(), old(pStrmData).size(), old(pStrmData).pos(), old(v).model()), final(v).model(), final(pStrmData)),
{
    reveal(vui_video_signal);
    let ghost s0 = *pStrmData;
    let ghost p = s0.pos();
    proof {
        lemma_get_bits(&s0, p, 1);
        lemma_get_bits(&s0, p + 1, 3);
        lemma_get_bits(&s0, p + 4, 1);
        lemma_get_bits(&s0, p + 5, 1);
        lemma_get_bits(&s0, p + 6, 8);
        lemma_get_bits(&s0, p + 14, 8);
        lemma_get_bits(&s0, p + 22, 8);
    }
    let tmp = h264bsdGetBits(pStrmData, 1);
    if tmp == END_OF_STREAM {
        return HANTRO_NOK;
    }
    v.videoSignalTypePresentFlag = if tmp == 1 {
        HANTRO_TRUE
    } else {
        HANTRO_FALSE
    };
    if v.videoSignalTypePresentFlag != 0 {
        let tmp = h264bsdGetBits(pStrmData, 3);
        if tmp == END_OF_STREAM {
            return HANTRO_NOK;
        }
        v.videoFormat = tmp;
        let tmp = h264bsdGetBits(pStrmData, 1);
        if tmp == END_OF_STREAM {
            return HANTRO_NOK;
        }
        v.videoFullRangeFlag = if tmp == 1 {
            HANTRO_TRUE
        } else {
            HANTRO_FALSE
        };
        let tmp = h264bsdGetBits(pStrmData, 1);
        if tmp == END_OF_STREAM {
            return HANTRO_NOK;
        }
        v.colourDescriptionPresentFlag = if tmp == 1 {
            HANTRO_TRUE
        } else {
            HANTRO_FALSE
        };
        if v.colourDescriptionPresentFlag != 0 {
            let tmp = h264bsdGetBits(pStrmData, 8);
            if tmp == END_OF_STREAM {
                return HANTRO_NOK;
            }
            v.colourPrimaries = tmp;
            let tmp = h264bsdGetBits(pStrmData, 8);
            if tmp == END_OF_STREAM {
                return HANTRO_NOK;
            }
            v.transferCharacteristics = tmp;
            let tmp = h264bsdGetBits(pStrmData, 8);
            if tmp == END_OF_STREAM {
                return HANTRO_NOK;
            }
            v.matrixCoefficients = tmp;
        } else {
            v.colourPrimaries = 2;
            v.transferCharacteristics = 2;
            v.matrixCoefficients = 2;
        }
    } else {
        v.videoFormat = 5;
        v.colourPrimaries = 2;
        v.transferCharacteristics = 2;
        v.matrixCoefficients = 2;
    }
    HANTRO_OK
}

/// Read a 32-bit field that must not be zero; 0 on failure.
fn read_nonzero_u32(pStrmData: &mut strmData_t) -> (r: u32)
    requires
        in_stream(old(pStrmData)),
    ensures
        final(pStrmData).wf(),
        final(pStrmData).same_stream(old(pStrmData)),
        final(pStrmData).pos() == old(pStrmData).pos() + 32,
        r == (if u_ok(old(pStrmData), old(pStrmData).pos(), 32) {
            old(pStrmData).bits_at(old(pStrmData).pos(), 32) as u32
        } else {
            0
        }),
{
    let ghost s0 = *pStrmData;
    proof {
        crate::stream::lemma_stream_bits_bound(s0.data(), s0.size(), s0.pos(), 32);
        lemma2_to64();
    }
    let tmp = h264bsdShowBits32(pStrmData);
    if h264bsdFlushBits(pStrmData, 32) == END_OF_STREAM {
        return 0;
    }
    tmp
}

fn read_chroma_timing(pStrmData: &mut strmData_t, v: &mut vuiParameters_t) -> (r: u32)
    requires
        in_stream(old(pStrmData)),
    ensures
        final(pStrmData).wf(),
        final(pStrmData).same_stream(old(pStrmData)),
        step_done(r, vui_chroma_timing(old(pStrmData).data(), old(pStrmData).size(), old(pStrmData).pos(), old(v).model()), final(v).model(), final(pStrmData)),
{
    reveal(vui_chroma_timing);
    let ghost s0 = *pStrmData;
    let ghost p = s0.pos();
    proof {
        lemma_get_bits(&s0, p, 1);
        lemma_ue_next(&s0, p + 1);
        lemma_ue_next(&s0, ue_next(&s0, p + 1));
    }
    let tmp = h264bsdGetBits(pStrmData, 1);
    if tmp == END_OF_STREAM {
        return HANTRO_NOK;
    }
    v.chromaLocInfoPresentFlag = if tmp == 1 {
        HANTRO_TRUE
    } else {
        HANTRO_FALSE
    };
    if v.chromaLocInfoPresentFlag != 0 {
        let tmp = h264bsdDecodeExpGolombUnsigned(pStrmData, &mut v.chromaSampleLocTypeTopField);
        if tmp != HANTRO_OK {
            return tmp;
        }
        if v.chromaSampleLocTypeTopField > 5 {
            return HANTRO_NOK;
        }
        let tmp = h264bsdDecodeExpGolombUnsigned(pStrmData, &mut v.chromaSampleLocTypeBottomField);
        if tmp != HANTRO_OK {
            return tmp;
        }
        if v.chromaSampleLocTypeBottomField > 5 {
            return HANTRO_NOK;
        }
    }
    let ghost q = pStrmData.pos();
    proof {
        lemma_get_bits(&s0, q, 1);
        lemma_get_bits(&s0, q + 65, 1);
        crate::stream::lemma_stream_bits_bound(s0.data(), s0.size(), q + 1, 32);
        crate::stream::lemma_stream_bits_bound(s0.data(), s0.size(), q + 33, 32);
        lemma2_to64();
    }
    let tmp = h264bsdGetBits(pStrmData, 1);
    if tmp == END_OF_STREAM {
        return HANTRO_NOK;
    }
    v.timingInfoPresentFlag = if tmp == 1 {
        HANTRO_TRUE
    } else {
        HANTRO_FALSE
    };
    if v.timingInfoPresentFlag != 0 {
        let tmp = read_nonzero_u32(pStrmData);
        if tmp == 0 {
            return HANTRO_NOK;
        }
        v.numUnitsInTick = tmp;
        let tmp = read_nonzero_u32(pStrmData);
        if tmp == 0 {
            return HANTRO_NOK;
        }
        v.timeScale = tmp;
        let tmp = h264bsdGetBits(pStrmData, 1);
        if tmp == END_OF_STREAM {
            return HANTRO_NOK;
        }
        v.fixedFrameRateFlag = if tmp == 1 {
            HANTRO_TRUE
        } else {
            HANTRO_FALSE
        };
    }
    HANTRO_OK
}

/// Overwrite `h` with the parameters used when the stream has none.
fn set_hrd_default(h: &mut hrdParameters_t, unit: u32)
    requires
        unit == 1000 || unit == 1200,
    ensures
        final(h).model() == hrd_default(old(h).model(), unit),
{
    reveal(hrd_default);
    h.cpbCnt = 1;
    /* MaxBR and MaxCPB should be the values correspondig to the levelIdc
     * in the SPS containing these VUI parameters. However, these values
     * are not used anywhere and maximum for any level will be used here */
    h.bitRateValue[0] = unit * MAX_BR + 1;
    h.cpbSizeValue[0] = unit * MAX_CPB + 1;
    h.initialCpbRemovalDelayLength = 24;
    h.cpbRemovalDelayLength = 24;
    h.dpbOutputDelayLength = 24;
    h.timeOffsetLength = 24;
    assert(final(h).model() =~= hrd_default(old(h).model(), unit));
}

fn read_hrd(pStrmData: &mut strmData_t, v: &mut vuiParameters_t) -> (r: u32)
    requires
        in_stream(old(pStrmData)),
    ensures
        final(pStrmData).wf(),
        final(pStrmData).same_stream(old(pStrmData)),
        step_done(r, vui_hrd(old(pStrmData).data(), old(pStrmData).size(), old(pStrmData).pos(), old(v).model()), final(v).model(), final(pStrmData)),
{
    reveal(vui_hrd);
    let ghost s0 = *pStrmData;
    let ghost p = s0.pos();
    proof {
        lemma_get_bits(&s0, p, 1);
    }
    let tmp = h264bsdGetBits(pStrmData, 1);
    if tmp == END_OF_STREAM {
        return HANTRO_NOK;
    }
    v.nalHrdParametersPresentFlag = if tmp == 1 {
        HANTRO_TRUE
    } else {
        HANTRO_FALSE
    };
    if v.nalHrdParametersPresentFlag != 0 {
        let tmp = DecodeHrdParameters(pStrmData, &mut v.nalHrdParameters);
        if tmp != HANTRO_OK {
            return tmp;
        }
    } else {
        set_hrd_default(&mut v.nalHrdParameters, 1200);
    }
    let ghost q = pStrmData.pos();
    proof {
        lemma_get_bits(&s0, q, 1);
    }
    let tmp = h264bsdGetBits(pStrmData, 1);
    if tmp == END_OF_STREAM {
        return HANTRO_NOK;
    }
    v.vclHrdParametersPresentFlag = if tmp == 1 {
        HANTRO_TRUE
    } else {
        HANTRO_FALSE
    };
    if v.vclHrdParametersPresentFlag != 0 {
        let tmp = DecodeHrdParameters(pStrmData, &mut v.vclHrdParameters);
        if tmp != HANTRO_OK {
            return tmp;
        }
    } else {
        set_hrd_default(&mut v.vclHrdParameters, 1000);
    }
    let ghost q2 = pStrmData.pos();
    proof {
        lemma_get_bits(&s0, q2, 1);
        lemma_get_bits(&s0, q2 + 1, 1);
    }
    if v.nalHrdParametersPresentFlag != 0 || v.vclHrdParametersPresentFlag != 0 {
        let tmp = h264bsdGetBits(pStrmData, 1);
        if tmp == END_OF_STREAM {
            return HANTRO_NOK;
        }
        v.lowDelayHrdFlag = if tmp == 1 {
            HANTRO_TRUE
        } else {
            HANTRO_FALSE
        };
    }
    let tmp = h264bsdGetBits(pStrmData, 1);
    if tmp == END_OF_STREAM {
        return HANTRO_NOK;
    }
    v.picStructPresentFlag = if tmp == 1 {
        HANTRO_TRUE
    } else {
        HANTRO_FALSE
    };
    HANTRO_OK
}

/// Read an unsigned Exp-Golomb value of at most `max`.
fn read_ue_max(pStrmData: &mut strmData_t, value: &mut u32, max: u32) -> (r: u32)
    requires
        in_stream(old(pStrmData)),
    ensures
        final(pStrmData).wf(),
        final(pStrmData).same_stream(old(pStrmData)),
        final(pStrmData).pos() == ue_next(old(pStrmData), old(pStrmData).pos()),
        r == (if ue_ok(old(pStrmData), old(pStrmData).pos()) && ue_value(old(pStrmData), old(pStrmData).pos())
            <= max {
            HANTRO_OK
        } else {
            HANTRO_NOK
        }),
        r == HANTRO_OK ==> {
            &&& *final(value) == ue_value(old(pStrmData), old(pStrmData).pos())
            &&& in_stream(final(pStrmData))
        },
{
    proof {
        lemma_ue_next(pStrmData, pStrmData.pos());
    }
    let tmp = h264bsdDecodeExpGolombUnsigned(pStrmData, value);
    if tmp != HANTRO_OK {
        return tmp;
    }
    if *value > max {
        return HANTRO_NOK;
    }
    HANTRO_OK
}

fn read_restriction(pStrmData: &mut strmData_t, v: &mut vuiParameters_t) -> (r: u32)
    requires
        in_stream(old(pStrmData)),
    ensures
        final(pStrmData).wf(),
        final(pStrmData).same_stream(old(pStrmData)),
        step_done(r, vui_restriction(old(pStrmData).data(), old(pStrmData).size(), old(pStrmData).pos(), old(v).model()), final(v).model(), final(pStrmData)),
{
    reveal(vui_restriction);
    let ghost s0 = *pStrmData;
    let ghost p = s0.pos();
    proof {
        lemma_get_bits(&s0, p, 1);
        lemma_get_bits(&s0, p + 1, 1);
    }
    let tmp = h264bsdGetBits(pStrmData, 1);
    if tmp == END_OF_STREAM {
        return HANTRO_NOK;
    }
    v.bitstreamRestrictionFlag = if tmp == 1 {
        HANTRO_TRUE
    } else {
        HANTRO_FALSE
    };
    if v.bitstreamRestrictionFlag != 0 {
        let tmp = h264bsdGetBits(pStrmData, 1);
        if tmp == END_OF_STREAM {
            return HANTRO_NOK;
        }
        v.motionVectorsOverPicBoundariesFlag = if tmp == 1 {
            HANTRO_TRUE
        } else {
            HANTRO_FALSE
        };
        let tmp = read_ue_max(pStrmData, &mut v.maxBytesPerPicDenom, 16);
        if tmp != HANTRO_OK {
            return tmp;
        }
        let tmp = read_ue_max(pStrmData, &mut v.maxBitsPerMbDenom, 16);
        if tmp != HANTRO_OK {
            return tmp;
        }
        let tmp = read_ue_max(pStrmData, &mut v.log2MaxMvLengthHorizontal, 16);
        if tmp != HANTRO_OK {
            return tmp;
        }
        let tmp = read_ue_max(pStrmData, &mut v.log2MaxMvLengthVertical, 16);
        if tmp != HANTRO_OK {
            return tmp;
        }
        let tmp = read_ue_max(pStrmData, &mut v.numReorderFrames, u32::MAX);
        if tmp != HANTRO_OK {
            return tmp;
        }
        let tmp = read_ue_max(pStrmData, &mut v.maxDecFrameBuffering, u32::MAX);
        if tmp != HANTRO_OK {
            return tmp;
        }
    } else {
        v.motionVectorsOverPicBoundariesFlag = HANTRO_TRUE;
        v.maxBytesPerPicDenom = 2;
        v.maxBitsPerMbDenom = 1;
        v.log2MaxMvLengthHorizontal = 16;
        v.log2MaxMvLengthVertical = 16;
        v.numReorderFrames = MAX_DPB_SIZE;
        v.maxDecFrameBuffering = MAX_DPB_SIZE;
    }
    HANTRO_OK
}

/// Decode vui_parameters() into `pVuiParameters` (all fields cleared
/// first, absent ones set to the defaults of the standard).
pub fn h264bsdDecodeVuiParameters(pStrmData: &mut strmData_t, pVuiParameters: &mut vuiParameters_t) -> (r: u32)
    requires
        in_stream(old(pStrmData)),
    ensures
        final(pStrmData).wf(),
        final(pStrmData).same_stream(old(pStrmData)),
        step_done(r, vui_syntax(old(pStrmData).data(), old(pStrmData).size(), old(pStrmData).pos()), final(pVuiParameters).model(), final(pStrmData)),
{
    *pVuiParameters = vuiParameters_t::zeroed();
    let tmp = read_aspect(pStrmData, pVuiParameters);
    if tmp != HANTRO_OK {
        return tmp;
    }
    let tmp = read_video_signal(pStrmData, pVuiParameters);
    if tmp != HANTRO_OK {
        return tmp;
    }
    let tmp = read_chroma_timing(pStrmData, pVuiParameters);
    if tmp != HANTRO_OK {
        return tmp;
    }
    let tmp = read_hrd(pStrmData, pVuiParameters);
    if tmp != HANTRO_OK {
        return tmp;
    }
    read_restriction(pStrmData, pVuiParameters)
}

} // verus!

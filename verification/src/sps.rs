//! Sequence parameter set decoding, DPB size of a level and comparison of
//! two sequence parameter sets.
use vstd::prelude::*;
use vstd::arithmetic::power2::*;
use crate::defs::{END_OF_STREAM, HANTRO_FALSE, HANTRO_NOK, HANTRO_OK, HANTRO_TRUE, MAX_NUM_REF_PICS, MAX_NUM_SEQ_PARAM_SETS};
use crate::param_sets::{seqParamSet_t, vuiParameters_t};
use crate::stream::{can_parse, h264bsdGetBits, strmData_t};
use crate::syntax::{in_stream, lemma_get_bits, step_done, u_ok, u_ok_at, u_val, u_val_at};
use crate::util::{h264bsdRbspTrailingBits, udiv};
use crate::vlc::{
    h264bsdDecodeExpGolombSigned, h264bsdDecodeExpGolombUnsigned, lemma_ue_next, se_ok, se_ok_at, se_value,
    se_value_at, ue_next, ue_next_at, ue_ok, ue_ok_at, ue_value, ue_value_at,
};
use crate::vui::{h264bsdDecodeVuiParameters, vui_syntax, vui_zero, VuiModel};

verus! {

/// DPB size reported for an unknown level or a picture too large for it.
pub const INVALID_DPB_SIZE: u32 = 0x7FFF_FFFF;

/// A sequence parameter set as values.
#[verifier::ext_equal]
pub struct SpsModel {
    pub profileIdc: u32,
    pub levelIdc: u32,
    pub seqParameterSetId: u32,
    pub maxFrameNum: u32,
    pub picOrderCntType: u32,
    pub maxPicOrderCntLsb: u32,
    pub deltaPicOrderAlwaysZeroFlag: u32,
    pub offsetForNonRefPic: i32,
    pub offsetForTopToBottomField: i32,
    pub numRefFramesInPicOrderCntCycle: u32,
    pub offsetForRefFrame: Seq<i32>,
    pub numRefFrames: u32,
    pub gapsInFrameNumValueAllowedFlag: u32,
    pub picWidthInMbs: u32,
    pub picHeightInMbs: u32,
    pub frameCroppingFlag: u32,
    pub frameCropLeftOffset: u32,
    pub frameCropRightOffset: u32,
    pub frameCropTopOffset: u32,
    pub frameCropBottomOffset: u32,
    pub vuiParametersPresentFlag: u32,
    pub vuiParameters: VuiModel,
    pub maxDpbSize: u32,
}

impl seqParamSet_t {
    pub open spec fn model(&self) -> SpsModel {
        SpsModel {
            profileIdc: self.profileIdc,
            levelIdc: self.levelIdc,
            seqParameterSetId: self.seqParameterSetId,
            maxFrameNum: self.maxFrameNum,
            picOrderCntType: self.picOrderCntType,
            maxPicOrderCntLsb: self.maxPicOrderCntLsb,
            deltaPicOrderAlwaysZeroFlag: self.deltaPicOrderAlwaysZeroFlag,
            offsetForNonRefPic: self.offsetForNonRefPic,
            offsetForTopToBottomField: self.offsetForTopToBottomField,
            numRefFramesInPicOrderCntCycle: self.numRefFramesInPicOrderCntCycle,
            offsetForRefFrame: self.offsetForRefFrame@,
            numRefFrames: self.numRefFrames,
            gapsInFrameNumValueAllowedFlag: self.gapsInFrameNumValueAllowedFlag,
            picWidthInMbs: self.picWidthInMbs,
            picHeightInMbs: self.picHeightInMbs,
            frameCroppingFlag: self.frameCroppingFlag,
            frameCropLeftOffset: self.frameCropLeftOffset,
            frameCropRightOffset: self.frameCropRightOffset,
            frameCropTopOffset: self.frameCropTopOffset,
            frameCropBottomOffset: self.frameCropBottomOffset,
            vuiParametersPresentFlag: self.vuiParametersPresentFlag,
            vuiParameters: self.vuiParameters.model(),
            maxDpbSize: self.maxDpbSize,
        }
    }

    /// The offsets for reference frames are as many as the POC cycle has
    /// reference frames.
    pub open spec fn wf(&self) -> bool {
        self.offsetForRefFrame@.len() == self.numRefFramesInPicOrderCntCycle
    }

    /// All parameters zero, no offsets.
    pub fn zeroed() -> (r: Self)
        ensures
            r.model() == sps_zero(),
            r.wf(),
    {
        let r = seqParamSet_t {
            profileIdc: 0,
            levelIdc: 0,
            seqParameterSetId: 0,
            maxFrameNum: 0,
            picOrderCntType: 0,
            maxPicOrderCntLsb: 0,
            deltaPicOrderAlwaysZeroFlag: 0,
            offsetForNonRefPic: 0,
            offsetForTopToBottomField: 0,
            numRefFramesInPicOrderCntCycle: 0,
            offsetForRefFrame: Vec::new(),
            numRefFrames: 0,
            gapsInFrameNumValueAllowedFlag: 0,
            picWidthInMbs: 0,
            picHeightInMbs: 0,
            frameCroppingFlag: 0,
            frameCropLeftOffset: 0,
            frameCropRightOffset: 0,
            frameCropTopOffset: 0,
            frameCropBottomOffset: 0,
            vuiParametersPresentFlag: 0,
            vuiParameters: vuiParameters_t::zeroed(),
            maxDpbSize: 0,
        };
        assert(r.model() =~= sps_zero());
        r
    }
}

/// A sequence parameter set that is all zero.
pub open spec fn sps_zero() -> SpsModel {
    SpsModel {
        profileIdc: 0,
        levelIdc: 0,
        seqParameterSetId: 0,
        maxFrameNum: 0,
        picOrderCntType: 0,
        maxPicOrderCntLsb: 0,
        deltaPicOrderAlwaysZeroFlag: 0,
        offsetForNonRefPic: 0,
        offsetForTopToBottomField: 0,
        numRefFramesInPicOrderCntCycle: 0,
        offsetForRefFrame: Seq::empty(),
        numRefFrames: 0,
        gapsInFrameNumValueAllowedFlag: 0,
        picWidthInMbs: 0,
        picHeightInMbs: 0,
        frameCroppingFlag: 0,
        frameCropLeftOffset: 0,
        frameCropRightOffset: 0,
        frameCropTopOffset: 0,
        frameCropBottomOffset: 0,
        vuiParametersPresentFlag: 0,
        vuiParameters: vui_zero(),
        maxDpbSize: 0,
    }
}

// ---------------------------------------------------------------------------
// DPB size of a level (table A-1)
// ---------------------------------------------------------------------------

/// MaxDPB of a level, in bytes, and its MaxFS, in macroblocks; (0, 0) for
/// an unknown level.
pub open spec fn level_limits(levelIdc: u32) -> (u32, u32) {
    if levelIdc == 10 {
        (152064, 99)
    } else if levelIdc == 11 {
        (345600, 396)
    } else if levelIdc == 12 || levelIdc == 13 || levelIdc == 20 {
        (912384, 396)
    } else if levelIdc == 21 {
        (1824768, 792)
    } else if levelIdc == 22 || levelIdc == 30 {
        (3110400, 1620)
    } else if levelIdc == 31 {
        (6912000, 3600)
    } else if levelIdc == 32 {
        (7864320, 5120)
    } else if levelIdc == 40 || levelIdc == 41 {
        (12582912, 8192)
    } else if levelIdc == 42 {
        (13369344, 8704)
    } else if levelIdc == 50 {
        (42393600, 22080)
    } else if levelIdc == 51 {
        (70778880, 36864)
    } else {
        (0, 0)
    }
}

/// Number of frames of `picSizeInMbs` macroblocks that fit in the DPB of
/// the level, at most 16; INVALID_DPB_SIZE for an unknown level or a
/// picture larger than the level allows.
pub open spec fn dpb_size(picSizeInMbs: u32, levelIdc: u32) -> u32 {
    let (bytes, maxFs) = level_limits(levelIdc);
    if maxFs == 0 || picSizeInMbs > maxFs {
        INVALID_DPB_SIZE
    } else {
        let frames = bytes as int / (picSizeInMbs as int * 384);
        if frames < 16 {
            frames as u32
        } else {
            16
        }
    }
}

/// Get the size of the DPB in frames for pictures of `picSizeInMbs`
/// macroblocks at level `levelIdc`.
fn GetDpbSize(picSizeInMbs: u32, levelIdc: u32) -> (r: u32)
    requires
        picSizeInMbs >= 1,
    ensures
        r == dpb_size(picSizeInMbs, levelIdc),
{
    let tmp: u32;
    let maxPicSizeInMbs: u32;
    /* use tmp as the size of the DPB in bytes, computes as 1024 * MaxDPB
     * (from table A-1 in Annex A) */
    match levelIdc {
        10 => {
            tmp = 152064;
            maxPicSizeInMbs = 99;
        },
        11 => {
            tmp = 345600;
            maxPicSizeInMbs = 396;
        },
        12 => {
            tmp = 912384;
            maxPicSizeInMbs = 396;
        },
        13 => {
            tmp = 912384;
            maxPicSizeInMbs = 396;
        },
        20 => {
            tmp = 912384;
            maxPicSizeInMbs = 396;
        },
        21 => {
            tmp = 1824768;
            maxPicSizeInMbs = 792;
        },
        22 => {
            tmp = 3110400;
            maxPicSizeInMbs = 1620;
        },
        30 => {
            tmp = 3110400;
            maxPicSizeInMbs = 1620;
        },
        31 => {
            tmp = 6912000;
            maxPicSizeInMbs = 3600;
        },
        32 => {
            tmp = 7864320;
            maxPicSizeInMbs = 5120;
        },
        40 => {
            tmp = 12582912;
            maxPicSizeInMbs = 8192;
        },
        41 => {
            tmp = 12582912;
            maxPicSizeInMbs = 8192;
        },
        42 => {
            tmp = 34816 * 384;
            maxPicSizeInMbs = 8704;
        },
        50 => {
            /* standard says 42301440 here, but corrigendum "corrects" this to
             * 42393600 */
            tmp = 42393600;
            maxPicSizeInMbs = 22080;
        },
        51 => {
            tmp = 70778880;
            maxPicSizeInMbs = 36864;
        },
        _ => {
            return INVALID_DPB_SIZE;
        },
    }
    /* this is not "correct" return value! However, it results in error in
     * decoding and this was easiest place to check picture size */
    if picSizeInMbs > maxPicSizeInMbs {
        return INVALID_DPB_SIZE;
    }
    let frames = udiv(tmp, picSizeInMbs * 384);
    if frames < 16 {
        frames
    } else {
        16
    }
}

// ---------------------------------------------------------------------------
// The seq_parameter_set_rbsp() syntax, in parts
// ---------------------------------------------------------------------------

/// profile_idc, the constraint flags, level_idc, seq_parameter_set_id,
/// log2_max_frame_num_minus4 and pic_order_cnt_type at `p`.
#[verifier::opaque]
pub open spec fn sps_head(d: Seq<u8>, sz: nat, p: int, m: SpsModel) -> (bool, SpsModel, int) {
    let q1 = p + 24;
    let q2 = ue_next_at(d, sz, q1);
    let q3 = ue_next_at(d, sz, q2);
    let q4 = ue_next_at(d, sz, q3);
    if !u_ok_at(sz, p, 24) {
        (false, m, q1)
    } else if !ue_ok_at(d, sz, q1) || ue_value_at(d, sz, q1) >= MAX_NUM_SEQ_PARAM_SETS || !ue_ok_at(d, sz, q2)
        || ue_value_at(d, sz, q2) > 12 || !ue_ok_at(d, sz, q3) || ue_value_at(d, sz, q3) > 2 {
        (false, m, q4)
    } else {
        (
            true,
            SpsModel {
                profileIdc: u_val_at(d, sz, p, 8),
                levelIdc: u_val_at(d, sz, p + 16, 8),
                seqParameterSetId: ue_value_at(d, sz, q1),
                maxFrameNum: pow2((ue_value_at(d, sz, q2) + 4) as nat) as u32,
                picOrderCntType: ue_value_at(d, sz, q3),
                ..m
            },
            q4,
        )
    }
}

/// `n` signed Exp-Golomb values at `p`: (decoded, values, end).
pub open spec fn se_list(d: Seq<u8>, sz: nat, p: int, n: nat) -> (bool, Seq<i32>, int)
    decreases n,
{
    if n == 0 {
        (true, Seq::empty(), p)
    } else if !se_ok_at(d, sz, p) {
        (false, Seq::empty(), ue_next_at(d, sz, p))
    } else {
        let rest = se_list(d, sz, ue_next_at(d, sz, p), (n - 1) as nat);
        (rest.0, seq![se_value_at(d, sz, p)] + rest.1, rest.2)
    }
}

proof fn lemma_se_list_len(d: Seq<u8>, sz: nat, p: int, n: nat)
    ensures
        se_list(d, sz, p, n).0 ==> se_list(d, sz, p, n).1.len() == n,
    decreases n,
{
    if n > 0 && se_ok_at(d, sz, p) {
        lemma_se_list_len(d, sz, ue_next_at(d, sz, p), (n - 1) as nat);
    }
}

/// The picture order count fields of `m.picOrderCntType` at `p`.
#[verifier::opaque]
pub open spec fn sps_poc(d: Seq<u8>, sz: nat, p: int, m: SpsModel) -> (bool, SpsModel, int) {
    if m.picOrderCntType == 0 {
        let v = ue_value_at(d, sz, p);
        if !ue_ok_at(d, sz, p) || v > 12 {
            (false, m, ue_next_at(d, sz, p))
        } else {
            (true, SpsModel { maxPicOrderCntLsb: pow2((v + 4) as nat) as u32, ..m }, ue_next_at(d, sz, p))
        }
    } else if m.picOrderCntType == 1 {
        let a = p + 1;
        let b = ue_next_at(d, sz, a);
        let c = ue_next_at(d, sz, b);
        let e = ue_next_at(d, sz, c);
        let n = ue_value_at(d, sz, c);
        let offs = se_list(d, sz, e, n as nat);
        if !u_ok_at(sz, p, 1) || !se_ok_at(d, sz, a) || !se_ok_at(d, sz, b) || !ue_ok_at(d, sz, c) || n > 255
            || !offs.0 {
            (false, m, offs.2)
        } else {
            (
                true,
                SpsModel {
                    deltaPicOrderAlwaysZeroFlag: u_val_at(d, sz, p, 1),
                    offsetForNonRefPic: se_value_at(d, sz, a),
                    offsetForTopToBottomField: se_value_at(d, sz, b),
                    numRefFramesInPicOrderCntCycle: n,
                    offsetForRefFrame: offs.1,
                    ..m
                },
                offs.2,
            )
        }
    } else {
        (true, m, p)
    }
}

/// The cropping rectangle leaves a non-empty part of the picture (as the
/// decoder computes it, on the offsets as 32-bit signed numbers).
pub open spec fn crop_ok(w: u32, h: u32, left: u32, right: u32, top: u32, bottom: u32) -> bool {
    &&& (left as i32) as int <= 8 * ((w as i32) as int) - ((right as i32) as int + 1)
    &&& (top as i32) as int <= 8 * ((h as i32) as int) - ((bottom as i32) as int + 1)
}

/// num_ref_frames, gaps_in_frame_num_value_allowed_flag, the picture size,
/// frame_mbs_only_flag (which must be set), direct_8x8_inference_flag and
/// the frame cropping at `p`.
#[verifier::opaque]
pub open spec fn sps_frame(d: Seq<u8>, sz: nat, p: int, m: SpsModel) -> (bool, SpsModel, int) {
    let c1 = ue_next_at(d, sz, p);
    let c2 = ue_next_at(d, sz, c1 + 1);
    let c3 = ue_next_at(d, sz, c2);
    let c4 = c3 + 3;
    let e1 = ue_next_at(d, sz, c4);
    let e2 = ue_next_at(d, sz, e1);
    let e3 = ue_next_at(d, sz, e2);
    let e4 = ue_next_at(d, sz, e3);
    let crop = u_val_at(d, sz, c3 + 2, 1);
    let m1 = SpsModel {
        numRefFrames: ue_value_at(d, sz, p),
        gapsInFrameNumValueAllowedFlag: u_val_at(d, sz, c1, 1),
        picWidthInMbs: ue_value_at(d, sz, c1 + 1).wrapping_add(1),
        picHeightInMbs: ue_value_at(d, sz, c2).wrapping_add(1),
        frameCroppingFlag: crop,
        ..m
    };
    if !ue_ok_at(d, sz, p) || ue_value_at(d, sz, p) > MAX_NUM_REF_PICS || !u_ok_at(sz, c1, 1) || !ue_ok_at(
        d,
        sz,
        c1 + 1,
    ) || !ue_ok_at(d, sz, c2) || !u_ok_at(sz, c3, 3) || u_val_at(d, sz, c3, 1) == 0 {
        (false, m, c4)
    } else if crop == 0 {
        (true, m1, c4)
    } else if !ue_ok_at(d, sz, c4) || !ue_ok_at(d, sz, e1) || !ue_ok_at(d, sz, e2) || !ue_ok_at(d, sz, e3)
        || !crop_ok(
        m1.picWidthInMbs,
        m1.picHeightInMbs,
        ue_value_at(d, sz, c4),
        ue_value_at(d, sz, e1),
        ue_value_at(d, sz, e2),
        ue_value_at(d, sz, e3),
    ) {
        (false, m1, e4)
    } else {
        (
            true,
            SpsModel {
                frameCropLeftOffset: ue_value_at(d, sz, c4),
                frameCropRightOffset: ue_value_at(d, sz, e1),
                frameCropTopOffset: ue_value_at(d, sz, e2),
                frameCropBottomOffset: ue_value_at(d, sz, e3),
                ..m1
            },
            e4,
        )
    }
}

/// The DPB size of `m` from its picture size and level, or its number of
/// reference frames when that is larger or the level gives none.
pub open spec fn sps_dpb_size(m: SpsModel) -> u32 {
    let v = dpb_size(m.picWidthInMbs.wrapping_mul(m.picHeightInMbs), m.levelIdc);
    if v == INVALID_DPB_SIZE || m.numRefFrames > v {
        m.numRefFrames
    } else {
        v
    }
}

/// The DPB size and the VUI parameters at `p`. A picture of no
/// macroblocks (a size that wraps to zero) is refused.
#[verifier::opaque]
pub open spec fn sps_tail(d: Seq<u8>, sz: nat, p: int, m: SpsModel) -> (bool, SpsModel, int) {
    let dpb = sps_dpb_size(m);
    let f = u_val_at(d, sz, p, 1);
    let m1 = SpsModel { maxDpbSize: dpb, vuiParametersPresentFlag: f, ..m };
    let v = vui_syntax(d, sz, p + 1);
    let vm = v.1;
    let m2 = SpsModel { vuiParameters: vm, ..m1 };
    if m.picWidthInMbs.wrapping_mul(m.picHeightInMbs) == 0 || !u_ok_at(sz, p, 1) {
        (false, m, p + 1)
    } else if f == 0 {
        (true, m1, p + 1)
    } else if !v.0 {
        (false, m1, v.2)
    } else if vm.bitstreamRestrictionFlag == 0 {
        (true, m2, v.2)
    } else if vm.numReorderFrames > vm.maxDecFrameBuffering || vm.maxDecFrameBuffering < m.numRefFrames
        || vm.maxDecFrameBuffering > dpb {
        (false, m2, v.2)
    } else {
        (
            true,
            SpsModel {
                maxDpbSize: if vm.maxDecFrameBuffering < 1 {
                    1
                } else {
                    vm.maxDecFrameBuffering
                },
                ..m2
            },
            v.2,
        )
    }
}

/// The seq_parameter_set_rbsp() syntax at `p`, up to the trailing bits:
/// (decoded, parameter set, end).
pub open spec fn sps_syntax(d: Seq<u8>, sz: nat, p: int) -> (bool, SpsModel, int) {
    let a = sps_head(d, sz, p, sps_zero());
    let b = sps_poc(d, sz, a.2, a.1);
    let c = sps_frame(d, sz, b.2, b.1);
    let e = sps_tail(d, sz, c.2, c.1);
    if !a.0 {
        a
    } else if !b.0 {
        b
    } else if !c.0 {
        c
    } else {
        e
    }
}

// ---------------------------------------------------------------------------
// Decoding
// ---------------------------------------------------------------------------

fn read_head(pStrmData: &mut strmData_t, sps: &mut seqParamSet_t) -> (r: u32)
    requires
        can_parse(old(pStrmData)),
    ensures
        final(pStrmData).wf(),
        final(pStrmData).same_stream(old(pStrmData)),
        final(sps).offsetForRefFrame@ == old(sps).offsetForRefFrame@,
        final(sps).numRefFramesInPicOrderCntCycle == old(sps).numRefFramesInPicOrderCntCycle,
        r == HANTRO_OK ==> final(sps).picOrderCntType <= 2,
        step_done(
            r,
            sps_head(old(pStrmData).data(), old(pStrmData).size(), old(pStrmData).pos(), old(sps).model()),
            final(sps).model(),
            final(pStrmData),
        ),
{
    reveal(sps_head);
    let ghost s0 = *pStrmData;
    let ghost p = s0.pos();
    proof {
        lemma_get_bits(&s0, p, 8);
        lemma_get_bits(&s0, p + 10, 1);
        lemma_get_bits(&s0, p + 11, 5);
        lemma_get_bits(&s0, p + 16, 8);
        lemma_ue_next(&s0, p + 24);
        lemma_ue_next(&s0, ue_next(&s0, p + 24));
        lemma_ue_next(&s0, ue_next(&s0, ue_next(&s0, p + 24)));
    }
    let tmp = h264bsdGetBits(pStrmData, 8);
    if tmp == END_OF_STREAM {
        return HANTRO_NOK;
    }
    sps.profileIdc = tmp;
    /* constrained_set0_flag */
    let _ = h264bsdGetBits(pStrmData, 1);
    /* constrained_set1_flag */
    let _ = h264bsdGetBits(pStrmData, 1);
    /* constrained_set2_flag */
    let tmp = h264bsdGetBits(pStrmData, 1);
    if tmp == END_OF_STREAM {
        return HANTRO_NOK;
    }
    /* reserved_zero_5bits, values of these bits shall be ignored */
    let tmp = h264bsdGetBits(pStrmData, 5);
    if tmp == END_OF_STREAM {
        return HANTRO_NOK;
    }
    let tmp = h264bsdGetBits(pStrmData, 8);
    if tmp == END_OF_STREAM {
        return HANTRO_NOK;
    }
    sps.levelIdc = tmp;
    let tmp = h264bsdDecodeExpGolombUnsigned(pStrmData, &mut sps.seqParameterSetId);
    if tmp != HANTRO_OK {
        return tmp;
    }
    if sps.seqParameterSetId >= MAX_NUM_SEQ_PARAM_SETS as u32 {
        return HANTRO_NOK;
    }
    /* log2_max_frame_num_minus4 */
    let mut value: u32 = 0;
    let tmp = h264bsdDecodeExpGolombUnsigned(pStrmData, &mut value);
    if tmp != HANTRO_OK {
        return tmp;
    }
    if value > 12 {
        return HANTRO_NOK;
    }
    /* maxFrameNum = 2^(log2_max_frame_num_minus4 + 4) */
    proof {
        vstd::bits::lemma_u32_pow2_no_overflow((value + 4) as nat);
        vstd::bits::lemma_u32_shl_is_mul(1u32, (value + 4) as u32);
    }
    sps.maxFrameNum = 1u32 << (value + 4);
    /* valid POC types are 0, 1 and 2 */
    let tmp = h264bsdDecodeExpGolombUnsigned(pStrmData, &mut value);
    if tmp != HANTRO_OK {
        return tmp;
    }
    if value > 2 {
        return HANTRO_NOK;
    }
    sps.picOrderCntType = value;
    HANTRO_OK
}

/// Read `n` signed Exp-Golomb values into a new vector.
fn read_se_list(pStrmData: &mut strmData_t, n: u32) -> (r: (u32, Vec<i32>))
    requires
        in_stream(old(pStrmData)),
        n <= 255,
    ensures
        final(pStrmData).wf(),
        final(pStrmData).same_stream(old(pStrmData)),
        ({
            let l = se_list(old(pStrmData).data(), old(pStrmData).size(), old(pStrmData).pos(), n as nat);
            &&& r.0 == (if l.0 { HANTRO_OK } else { HANTRO_NOK })
            &&& l.0 ==> {
                &&& r.1@ == l.1
                &&& final(pStrmData).pos() == l.2
                &&& in_stream(final(pStrmData))
            }
        }),
{
    let ghost s0 = *pStrmData;
    let ghost d = s0.data();
    let ghost sz = s0.size();
    let ghost l0 = se_list(d, sz, s0.pos(), n as nat);
    let mut v: Vec<i32> = Vec::new();
    let mut i: u32 = 0;
    assert(l0.1 =~= v@ + l0.1);
    while i < n
        invariant
            in_stream(pStrmData),
            pStrmData.same_stream(&s0),
            s0 == *old(pStrmData),
            d == s0.data(),
            sz == s0.size(),
            i <= n <= 255,
            l0 == se_list(d, sz, s0.pos(), n as nat),
            ({
                let l = se_list(d, sz, pStrmData.pos(), (n - i) as nat);
                &&& l0.0 == l.0
                &&& l0.2 == l.2
                &&& l.0 ==> l0.1 == v@ + l.1
            }),
        decreases n - i,
    {
        let ghost q = pStrmData.pos();
        proof {
            lemma_ue_next(pStrmData, q);
        }
        let mut value: i32 = 0;
        let tmp = h264bsdDecodeExpGolombSigned(pStrmData, &mut value);
        if tmp != HANTRO_OK {
            return (tmp, v);
        }
        let ghost vold = v@;
        v.push(value);
        proof {
            let rest = se_list(d, sz, ue_next_at(d, sz, q), (n - i - 1) as nat);
            assert((n - i) as nat - 1 == (n - i - 1) as nat);
            if rest.0 {
                assert(l0.1 =~= v@ + rest.1);
            }
        }
        i = i + 1;
    }
    proof {
        assert(l0.1 =~= v@);
    }
    (HANTRO_OK, v)
}

fn read_poc(pStrmData: &mut strmData_t, sps: &mut seqParamSet_t) -> (r: u32)
    requires
        in_stream(old(pStrmData)),
        old(sps).picOrderCntType <= 2,
        old(sps).wf(),
    ensures
        final(pStrmData).wf(),
        final(pStrmData).same_stream(old(pStrmData)),
        r == HANTRO_OK ==> final(sps).wf(),
        step_done(
            r,
            sps_poc(old(pStrmData).data(), old(pStrmData).size(), old(pStrmData).pos(), old(sps).model()),
            final(sps).model(),
            final(pStrmData),
        ),
{
    reveal(sps_poc);
    let ghost s0 = *pStrmData;
    let ghost p = s0.pos();
    if sps.picOrderCntType == 0 {
        /* log2_max_pic_order_cnt_lsb_minus4 */
        proof {
            lemma_ue_next(&s0, p);
        }
        let mut value: u32 = 0;
        let tmp = h264bsdDecodeExpGolombUnsigned(pStrmData, &mut value);
        if tmp != HANTRO_OK {
            return tmp;
        }
        if value > 12 {
            return HANTRO_NOK;
        }
        proof {
            vstd::bits::lemma_u32_pow2_no_overflow((value + 4) as nat);
            vstd::bits::lemma_u32_shl_is_mul(1u32, (value + 4) as u32);
        }
        /* maxPicOrderCntLsb = 2^(log2_max_pic_order_cnt_lsb_minus4 + 4) */
        sps.maxPicOrderCntLsb = 1u32 << (value + 4);
    } else if sps.picOrderCntType == 1 {
        proof {
            lemma_get_bits(&s0, p, 1);
            lemma_ue_next(&s0, p + 1);
            lemma_ue_next(&s0, ue_next(&s0, p + 1));
            lemma_ue_next(&s0, ue_next(&s0, ue_next(&s0, p + 1)));
        }
        let tmp = h264bsdGetBits(pStrmData, 1);
        if tmp == END_OF_STREAM {
            return HANTRO_NOK;
        }
        sps.deltaPicOrderAlwaysZeroFlag = if tmp == 1 {
            HANTRO_TRUE
        } else {
            HANTRO_FALSE
        };
        let tmp = h264bsdDecodeExpGolombSigned(pStrmData, &mut sps.offsetForNonRefPic);
        if tmp != HANTRO_OK {
            return tmp;
        }
        let tmp = h264bsdDecodeExpGolombSigned(pStrmData, &mut sps.offsetForTopToBottomField);
        if tmp != HANTRO_OK {
            return tmp;
        }
        let mut n: u32 = 0;
        let tmp = h264bsdDecodeExpGolombUnsigned(pStrmData, &mut n);
        if tmp != HANTRO_OK {
            return tmp;
        }
        if n > 255 {
            return HANTRO_NOK;
        }
        sps.numRefFramesInPicOrderCntCycle = n;
        let ghost e = pStrmData.pos();
        let (tmp, offsets) = read_se_list(pStrmData, n);
        if tmp != HANTRO_OK {
            return tmp;
        }
        proof {
            lemma_se_list_len(s0.data(), s0.size(), e, n as nat);
        }
        sps.offsetForRefFrame = offsets;
    }
    HANTRO_OK
}

fn read_frame(pStrmData: &mut strmData_t, sps: &mut seqParamSet_t) -> (r: u32)
    requires
        in_stream(old(pStrmData)),
    ensures
        final(pStrmData).wf(),
        final(pStrmData).same_stream(old(pStrmData)),
        final(sps).offsetForRefFrame@ == old(sps).offsetForRefFrame@,
        final(sps).numRefFramesInPicOrderCntCycle == old(sps).numRefFramesInPicOrderCntCycle,
        step_done(
            r,
            sps_frame(old(pStrmData).data(), old(pStrmData).size(), old(pStrmData).pos(), old(sps).model()),
            final(sps).model(),
            final(pStrmData),
        ),
{
    reveal(sps_frame);
    let ghost s0 = *pStrmData;
    let ghost p = s0.pos();
    let ghost c1 = ue_next(&s0, p);
    let ghost c2 = ue_next(&s0, c1 + 1);
    let ghost c3 = ue_next(&s0, c2);
    proof {
        lemma_ue_next(&s0, p);
        lemma_get_bits(&s0, c1, 1);
        lemma_ue_next(&s0, c1 + 1);
        lemma_ue_next(&s0, c2);
        lemma_get_bits(&s0, c3, 1);
        lemma_get_bits(&s0, c3 + 1, 1);
        lemma_get_bits(&s0, c3 + 2, 1);
        lemma_ue_next(&s0, c3 + 3);
        lemma_ue_next(&s0, ue_next(&s0, c3 + 3));
        lemma_ue_next(&s0, ue_next(&s0, ue_next(&s0, c3 + 3)));
        lemma_ue_next(&s0, ue_next(&s0, ue_next(&s0, ue_next(&s0, c3 + 3))));
    }
    let tmp = h264bsdDecodeExpGolombUnsigned(pStrmData, &mut sps.numRefFrames);
    if tmp != HANTRO_OK {
        return tmp;
    }
    if sps.numRefFrames > MAX_NUM_REF_PICS as u32 {
        return HANTRO_NOK;
    }
    let tmp = h264bsdGetBits(pStrmData, 1);
    if tmp == END_OF_STREAM {
        return HANTRO_NOK;
    }
    sps.gapsInFrameNumValueAllowedFlag = if tmp == 1 {
        HANTRO_TRUE
    } else {
        HANTRO_FALSE
    };
    let mut value: u32 = 0;
    let tmp = h264bsdDecodeExpGolombUnsigned(pStrmData, &mut value);
    if tmp != HANTRO_OK {
        return tmp;
    }
    sps.picWidthInMbs = value.wrapping_add(1);
    let tmp = h264bsdDecodeExpGolombUnsigned(pStrmData, &mut value);
    if tmp != HANTRO_OK {
        return tmp;
    }
    sps.picHeightInMbs = value.wrapping_add(1);
    /* frame_mbs_only_flag, shall be 1 for baseline profile */
    let tmp = h264bsdGetBits(pStrmData, 1);
    if tmp == END_OF_STREAM {
        return HANTRO_NOK;
    }
    if tmp == 0 {
        return HANTRO_NOK;
    }
    /* direct_8x8_inference_flag */
    let tmp = h264bsdGetBits(pStrmData, 1);
    if tmp == END_OF_STREAM {
        return HANTRO_NOK;
    }
    let tmp = h264bsdGetBits(pStrmData, 1);
    if tmp == END_OF_STREAM {
        return HANTRO_NOK;
    }
    sps.frameCroppingFlag = if tmp == 1 {
        HANTRO_TRUE
    } else {
        HANTRO_FALSE
    };
    if sps.frameCroppingFlag != 0 {
        let tmp = h264bsdDecodeExpGolombUnsigned(pStrmData, &mut sps.frameCropLeftOffset);
        if tmp != HANTRO_OK {
            return tmp;
        }
        let tmp = h264bsdDecodeExpGolombUnsigned(pStrmData, &mut sps.frameCropRightOffset);
        if tmp != HANTRO_OK {
            return tmp;
        }
        let tmp = h264bsdDecodeExpGolombUnsigned(pStrmData, &mut sps.frameCropTopOffset);
        if tmp != HANTRO_OK {
            return tmp;
        }
        let tmp = h264bsdDecodeExpGolombUnsigned(pStrmData, &mut sps.frameCropBottomOffset);
        if tmp != HANTRO_OK {
            return tmp;
        }
        /* check that frame cropping params are valid, parameters shall
         * specify non-negative area within the original picture */
        if (sps.frameCropLeftOffset as i32) as i64 > 8 * ((sps.picWidthInMbs as i32) as i64) - ((
        sps.frameCropRightOffset as i32) as i64 + 1) || (sps.frameCropTopOffset as i32) as i64 > 8 * ((
        sps.picHeightInMbs as i32) as i64) - ((sps.frameCropBottomOffset as i32) as i64 + 1) {
            return HANTRO_NOK;
        }
    }
    HANTRO_OK
}

fn read_tail(pStrmData: &mut strmData_t, sps: &mut seqParamSet_t) -> (r: u32)
    requires
        in_stream(old(pStrmData)),
    ensures
        final(pStrmData).wf(),
        final(pStrmData).same_stream(old(pStrmData)),
        final(sps).offsetForRefFrame@ == old(sps).offsetForRefFrame@,
        final(sps).numRefFramesInPicOrderCntCycle == old(sps).numRefFramesInPicOrderCntCycle,
        step_done(
            r,
            sps_tail(old(pStrmData).data(), old(pStrmData).size(), old(pStrmData).pos(), old(sps).model()),
            final(sps).model(),
            final(pStrmData),
        ),
{
    reveal(sps_tail);
    let ghost s0 = *pStrmData;
    let ghost p = s0.pos();
    proof {
        lemma_get_bits(&s0, p, 1);
    }
    /* check that image dimensions and levelIdc match */
    let picSize = sps.picWidthInMbs.wrapping_mul(sps.picHeightInMbs);
    if picSize == 0 {
        return HANTRO_NOK;
    }
    let mut value = GetDpbSize(picSize, sps.levelIdc);
    if value == INVALID_DPB_SIZE || sps.numRefFrames > value {
        value = sps.numRefFrames;
    }
    sps.maxDpbSize = value;
    let tmp = h264bsdGetBits(pStrmData, 1);
    if tmp == END_OF_STREAM {
        return HANTRO_NOK;
    }
    sps.vuiParametersPresentFlag = if tmp == 1 {
        HANTRO_TRUE
    } else {
        HANTRO_FALSE
    };
    /* VUI */
    if sps.vuiParametersPresentFlag != 0 {
        let tmp = h264bsdDecodeVuiParameters(pStrmData, &mut sps.vuiParameters);
        if tmp != HANTRO_OK {
            return tmp;
        }
        /* check numReorderFrames and maxDecFrameBuffering */
        if sps.vuiParameters.bitstreamRestrictionFlag != 0 {
            if sps.vuiParameters.numReorderFrames > sps.vuiParameters.maxDecFrameBuffering
                || sps.vuiParameters.maxDecFrameBuffering < sps.numRefFrames
                || sps.vuiParameters.maxDecFrameBuffering > sps.maxDpbSize {
                return HANTRO_NOK;
            }
            /* standard says that "the sequence shall not require a DPB with
             * size of more than max(1, maxDecFrameBuffering) */
            sps.maxDpbSize = if sps.vuiParameters.maxDecFrameBuffering < 1 {
                1
            } else {
                sps.vuiParameters.maxDecFrameBuffering
            };
        }
    }
    HANTRO_OK
}

/// Decode a seq_parameter_set_rbsp() into `pSeqParamSet` (cleared first)
/// and consume its trailing bits, whose errors are ignored.
pub fn h264bsdDecodeSeqParamSet(pStrmData: &mut strmData_t, pSeqParamSet: &mut seqParamSet_t) -> (r: u32)
    requires
        can_parse(old(pStrmData)),
    ensures
        final(pStrmData).wf(),
        final(pStrmData).same_stream(old(pStrmData)),
        ({
            let st = sps_syntax(old(pStrmData).data(), old(pStrmData).size(), old(pStrmData).pos());
            &&& r == (if st.0 { HANTRO_OK } else { HANTRO_NOK })
            &&& st.0 ==> {
                &&& final(pSeqParamSet).model() == st.1
                &&& final(pSeqParamSet).wf()
                &&& final(pStrmData).pos() == st.2 + 8 - st.2 % 8
            }
        }),
{
    *pSeqParamSet = seqParamSet_t::zeroed();
    let tmp = read_head(pStrmData, pSeqParamSet);
    if tmp != HANTRO_OK {
        return tmp;
    }
    let tmp = read_poc(pStrmData, pSeqParamSet);
    if tmp != HANTRO_OK {
        return tmp;
    }
    let tmp = read_frame(pStrmData, pSeqParamSet);
    if tmp != HANTRO_OK {
        return tmp;
    }
    let tmp = read_tail(pStrmData, pSeqParamSet);
    if tmp != HANTRO_OK {
        return tmp;
    }
    let _ = h264bsdRbspTrailingBits(pStrmData);
    /* ignore possible errors in trailing bits of parameters sets */
    HANTRO_OK
}

// ---------------------------------------------------------------------------
// Comparison
// ---------------------------------------------------------------------------

/// Two sequence parameter sets agree on every parameter that decoding
/// depends on: the ones always present, and those of the POC type and the
/// cropping that they announce. (Their ids and VUI are not compared.)
pub open spec fn sps_same(a: SpsModel, b: SpsModel) -> bool {
    &&& a.profileIdc == b.profileIdc
    &&& a.levelIdc == b.levelIdc
    &&& a.maxFrameNum == b.maxFrameNum
    &&& a.picOrderCntType == b.picOrderCntType
    &&& a.numRefFrames == b.numRefFrames
    &&& a.gapsInFrameNumValueAllowedFlag == b.gapsInFrameNumValueAllowedFlag
    &&& a.picWidthInMbs == b.picWidthInMbs
    &&& a.picHeightInMbs == b.picHeightInMbs
    &&& a.frameCroppingFlag == b.frameCroppingFlag
    &&& a.vuiParametersPresentFlag == b.vuiParametersPresentFlag
    &&& a.picOrderCntType == 0 ==> a.maxPicOrderCntLsb == b.maxPicOrderCntLsb
    &&& a.picOrderCntType == 1 ==> {
        &&& a.deltaPicOrderAlwaysZeroFlag == b.deltaPicOrderAlwaysZeroFlag
        &&& a.offsetForNonRefPic == b.offsetForNonRefPic
        &&& a.offsetForTopToBottomField == b.offsetForTopToBottomField
        &&& a.numRefFramesInPicOrderCntCycle == b.numRefFramesInPicOrderCntCycle
        &&& a.offsetForRefFrame == b.offsetForRefFrame
    }
    &&& a.frameCroppingFlag != 0 ==> {
        &&& a.frameCropLeftOffset == b.frameCropLeftOffset
        &&& a.frameCropRightOffset == b.frameCropRightOffset
        &&& a.frameCropTopOffset == b.frameCropTopOffset
        &&& a.frameCropBottomOffset == b.frameCropBottomOffset
    }
}

/// Compare two sequence parameter sets: 0 when they agree (`sps_same`), 1
/// otherwise.
pub fn h264bsdCompareSeqParamSets(pSps1: &seqParamSet_t, pSps2: &seqParamSet_t) -> (r: u32)
    requires
        pSps1.wf(),
        pSps2.wf(),
    ensures
        r == (if sps_same(pSps1.model(), pSps2.model()) { 0u32 } else { 1u32 }),
{
    /* first compare parameters whose existence does not depend on other
     * parameters and only compare the rest of the params if these are equal */
    if pSps1.profileIdc == pSps2.profileIdc && pSps1.levelIdc == pSps2.levelIdc && pSps1.maxFrameNum
        == pSps2.maxFrameNum && pSps1.picOrderCntType == pSps2.picOrderCntType && pSps1.numRefFrames
        == pSps2.numRefFrames && pSps1.gapsInFrameNumValueAllowedFlag == pSps2.gapsInFrameNumValueAllowedFlag
        && pSps1.picWidthInMbs == pSps2.picWidthInMbs && pSps1.picHeightInMbs == pSps2.picHeightInMbs
        && pSps1.frameCroppingFlag == pSps2.frameCroppingFlag && pSps1.vuiParametersPresentFlag
        == pSps2.vuiParametersPresentFlag {
        if pSps1.picOrderCntType == 0 {
            if pSps1.maxPicOrderCntLsb != pSps2.maxPicOrderCntLsb {
                return 1;
            }
        } else if pSps1.picOrderCntType == 1 {
            if pSps1.deltaPicOrderAlwaysZeroFlag != pSps2.deltaPicOrderAlwaysZeroFlag
                || pSps1.offsetForNonRefPic != pSps2.offsetForNonRefPic
                || pSps1.offsetForTopToBottomField != pSps2.offsetForTopToBottomField
                || pSps1.numRefFramesInPicOrderCntCycle != pSps2.numRefFramesInPicOrderCntCycle {
                return 1;
            } else {
                let mut i: u32 = 0;
                while i < pSps1.numRefFramesInPicOrderCntCycle
                    invariant
                        pSps1.wf(),
                        pSps2.wf(),
                        pSps1.numRefFramesInPicOrderCntCycle == pSps2.numRefFramesInPicOrderCntCycle,
                        pSps1.picOrderCntType == 1,
                        i <= pSps1.numRefFramesInPicOrderCntCycle,
                        forall|j: int| 0 <= j < i ==> pSps1.offsetForRefFrame@[j] == pSps2.offsetForRefFrame@[j],
                    decreases pSps1.numRefFramesInPicOrderCntCycle - i,
                {
                    if pSps1.offsetForRefFrame[i as usize] != pSps2.offsetForRefFrame[i as usize] {
                        assert(pSps1.offsetForRefFrame@[i as int] != pSps2.offsetForRefFrame@[i as int]);
                        return 1;
                    }
                    i += 1;
                }
                assert(pSps1.offsetForRefFrame@ =~= pSps2.offsetForRefFrame@);
            }
        }
        if pSps1.frameCroppingFlag != 0 {
            if pSps1.frameCropLeftOffset != pSps2.frameCropLeftOffset || pSps1.frameCropRightOffset
                != pSps2.frameCropRightOffset || pSps1.frameCropTopOffset != pSps2.frameCropTopOffset
                || pSps1.frameCropBottomOffset != pSps2.frameCropBottomOffset {
                return 1;
            }
        }
        return 0;
    }
    1
}

/// Comparison of sequence parameter sets is an equivalence: every set
/// agrees with itself, and agreement is symmetric and transitive.
pub proof fn lemma_sps_same_equivalence(a: SpsModel, b: SpsModel, c: SpsModel)
    ensures
        sps_same(a, a),
        sps_same(a, b) ==> sps_same(b, a),
        sps_same(a, b) && sps_same(b, c) ==> sps_same(a, c),
{
}

} // verus!

//! Slice header: data types and the functions that peek single slice
//! header fields without moving the stream.
use vstd::prelude::*;
use vstd::arithmetic::power2::*;
use crate::defs::{nalUnitType_e, END_OF_STREAM, HANTRO_NOK, HANTRO_OK, NAL_CODED_SLICE_IDR, MAX_NUM_PIC_PARAM_SETS};
use crate::param_sets::{picParamSet_t, seqParamSet_t};
use crate::stream::{can_parse, h264bsdGetBits, strmData_t, strmDataCopy, get_bits_value};
use crate::vlc::{
    h264bsdDecodeExpGolombSigned, h264bsdDecodeExpGolombUnsigned, lemma_ue_next, se_ok,
    se_value, ue_next, ue_ok, ue_value, ue_writes,
};

verus! {

/// One reference picture list reordering command.
#[derive(Clone, Copy)]
pub struct refPicListReorderingOperation_t {
    pub reorderingOfPicNumsIdc: u32,
    pub absDiffPicNum: u32,
    pub longTermPicNum: u32,
}

/// Reference picture list reordering (at most 17 commands).
pub struct refPicListReordering_t {
    pub refPicListReorderingFlagL0: u32,
    pub command: [refPicListReorderingOperation_t; 17],
}

/// One memory management control operation.
#[derive(Clone, Copy)]
pub struct memoryManagementOperation_t {
    pub memoryManagementControlOperation: u32,
    pub differenceOfPicNums: u32,
    pub longTermPicNum: u32,
    pub longTermFrameIdx: u32,
    pub maxLongTermFrameIdx: u32,
}

/// Decoded reference picture marking (at most 35 operations).
pub struct decRefPicMarking_t {
    pub noOutputOfPriorPicsFlag: u32,
    pub longTermReferenceFlag: u32,
    pub adaptiveRefPicMarkingModeFlag: u32,
    pub operation: [memoryManagementOperation_t; 35],
}

/// Slice header.
pub struct sliceHeader_t {
    pub firstMbInSlice: u32,
    pub sliceType: u32,
    pub picParameterSetId: u32,
    pub frameNum: u32,
    pub idrPicId: u32,
    pub picOrderCntLsb: u32,
    pub deltaPicOrderCntBottom: i32,
    pub deltaPicOrderCnt: [i32; 2],
    pub redundantPicCnt: u32,
    pub numRefIdxActiveOverrideFlag: u32,
    pub numRefIdxL0Active: u32,
    pub sliceQpDelta: i32,
    pub disableDeblockingFilterIdc: u32,
    pub sliceAlphaC0Offset: i32,
    pub sliceBetaOffset: i32,
    pub sliceGroupChangeCycle: u32,
    pub refPicListReordering: refPicListReordering_t,
    pub decRefPicMarking: decRefPicMarking_t,
}

// ---------------------------------------------------------------------------
// Positions of the slice header fields
// ---------------------------------------------------------------------------

/// Number of binary digits of `x`.
pub open spec fn bit_length(x: nat) -> nat
    decreases x,
{
    if x == 0 {
        0
    } else {
        1 + bit_length(x / 2)
    }
}

/// A number below `2^k` has at most `k` binary digits.
pub proof fn lemma_bit_length_le(x: nat, k: nat)
    requires
        x < pow2(k),
    ensures
        bit_length(x) <= k,
    decreases k,
{
    if x > 0 {
        if k == 0 {
            lemma2_to64();
        } else {
            lemma_pow2_unfold(k);
            lemma_bit_length_le(x / 2, (k - 1) as nat);
        }
    }
}

/// Width of a field whose range is `[0, max)`, `max` a power of two:
/// floor(log2(max)).
pub open spec fn field_bits(max: u32) -> nat {
    (bit_length(max as nat) - 1) as nat
}

/// Position after the first three code words of the slice header:
/// first_mb_in_slice, slice_type and pic_parameter_set_id; this is where
/// frame_num starts.
pub open spec fn frame_num_pos(s: &strmData_t, p: int) -> int {
    ue_next(s, ue_next(s, ue_next(s, p)))
}

/// Did the first two code words of the slice header decode?
pub open spec fn first2_ok(s: &strmData_t, p: int) -> bool {
    ue_ok(s, p) && ue_ok(s, ue_next(s, p))
}

/// Did the first three code words of the slice header decode?
pub open spec fn first3_ok(s: &strmData_t, p: int) -> bool {
    first2_ok(s, p) && ue_ok(s, ue_next(s, ue_next(s, p)))
}

/// Position after frame_num.
pub open spec fn after_frame_num(s: &strmData_t, p: int, maxFrameNum: u32) -> int {
    frame_num_pos(s, p) + field_bits(maxFrameNum)
}

/// Did everything up to and including frame_num decode?
pub open spec fn frame_num_ok(s: &strmData_t, p: int, maxFrameNum: u32) -> bool {
    first3_ok(s, p) && after_frame_num(s, p, maxFrameNum) <= s.len_bits()
}

/// Position after idr_pic_id (present in IDR slices only).
pub open spec fn after_idr(s: &strmData_t, p: int, maxFrameNum: u32, idr: bool) -> int {
    if idr {
        ue_next(s, after_frame_num(s, p, maxFrameNum))
    } else {
        after_frame_num(s, p, maxFrameNum)
    }
}

/// Did everything up to and including idr_pic_id decode?
pub open spec fn idr_ok(s: &strmData_t, p: int, maxFrameNum: u32, idr: bool) -> bool {
    frame_num_ok(s, p, maxFrameNum) && (idr ==> ue_ok(s, after_frame_num(s, p, maxFrameNum)))
}

/// Position after the picture order count fields that start at `q`:
/// pic_order_cnt_lsb and delta_pic_order_cnt_bottom for type 0,
/// delta_pic_order_cnt[0..2] for type 1 unless always zero.
pub open spec fn after_poc_from(s: &strmData_t, q: int, sps: &seqParamSet_t, pps: &picParamSet_t) -> int {
    let a = q + field_bits(sps.maxPicOrderCntLsb);
    let q1 = if sps.picOrderCntType == 0 {
        if pps.picOrderPresentFlag != 0 {
            ue_next(s, a)
        } else {
            a
        }
    } else {
        q
    };
    if sps.picOrderCntType == 1 && sps.deltaPicOrderAlwaysZeroFlag == 0 {
        let b = ue_next(s, q1);
        if pps.picOrderPresentFlag != 0 {
            ue_next(s, b)
        } else {
            b
        }
    } else {
        q1
    }
}

/// Did the picture order count fields that start at `q` decode?
pub open spec fn poc_ok_from(s: &strmData_t, q: int, sps: &seqParamSet_t, pps: &picParamSet_t) -> bool {
    let a = q + field_bits(sps.maxPicOrderCntLsb);
    let q1 = if sps.picOrderCntType == 0 {
        if pps.picOrderPresentFlag != 0 {
            ue_next(s, a)
        } else {
            a
        }
    } else {
        q
    };
    let b = ue_next(s, q1);
    &&& sps.picOrderCntType == 0 ==> (a <= s.len_bits() && (pps.picOrderPresentFlag != 0 ==> se_ok(s, a)))
    &&& (sps.picOrderCntType == 1 && sps.deltaPicOrderAlwaysZeroFlag == 0) ==> (se_ok(s, q1) && (
    pps.picOrderPresentFlag != 0 ==> se_ok(s, b)))
}

/// Three code words from `p` move at most 195 bits and stay in the
/// stream when they decode.
pub proof fn lemma_first3(s: &strmData_t, p: int)
    ensures
        p < ue_next(s, p) <= p + 65,
        ue_next(s, p) < ue_next(s, ue_next(s, p)) <= p + 130,
        ue_next(s, ue_next(s, p)) < frame_num_pos(s, p) <= p + 195,
        ue_ok(s, p) ==> ue_next(s, p) <= s.len_bits(),
        first2_ok(s, p) ==> ue_next(s, ue_next(s, p)) <= s.len_bits(),
        first3_ok(s, p) ==> frame_num_pos(s, p) <= s.len_bits(),
{
    lemma_ue_next(s, p);
    lemma_ue_next(s, ue_next(s, p));
    lemma_ue_next(s, ue_next(s, ue_next(s, p)));
}

/// Width of a power-of-two range, computed by shifting until
/// the value is gone, minus one.
pub(crate) fn range_bits(max: u32) -> (i: u32)
    requires
        1 <= max <= 0x7FFF_FFFF,
    ensures
        i as nat == field_bits(max),
        i <= 30,
{
    let mut i: u32 = 0;
    proof {
        lemma2_to64();
        assert((max as nat) / pow2(0) == max as nat);
    }
    while (max >> i) != 0
        invariant
            i <= 31,
            1 <= max <= 0x7FFF_FFFF,
            bit_length(max as nat) == i + bit_length(max as nat / pow2(i as nat)),
            (max as nat) / pow2(i as nat) < pow2((31 - i) as nat),
            i > 0 ==> (max as nat) / pow2(i as nat) < max,
        decreases 31 - i,
    {
        proof {
            vstd::bits::lemma_u32_shr_is_div(max, i);
            lemma_pow2_pos(i as nat);
            if i == 31 {
                lemma2_to64();
                assert(false);
            }
            let q = (max as nat) / pow2(i as nat);
            vstd::arithmetic::div_mod::lemma_div_denominator(max as int, pow2(i as nat) as int, 2);
            lemma_pow2_unfold((i + 1) as nat);
            assert(pow2(i as nat) * 2 == pow2((i + 1) as nat));
            assert(q / 2 == (max as nat) / pow2((i + 1) as nat));
            lemma_pow2_unfold((31 - i) as nat);
            assert(((31 - i) - 1) as nat == (31 - (i + 1)) as nat);
            vstd::arithmetic::div_mod::lemma_div_is_ordered_by_denominator(max as int, pow2(i as nat) as int, pow2((i + 1) as nat) as int);
            lemma_pow2_strictly_increases(0, (i + 1) as nat);
            vstd::arithmetic::div_mod::lemma_div_decreases(max as int, pow2((i + 1) as nat) as int);
        }
        i += 1;
    }
    proof {
        vstd::bits::lemma_u32_shr_is_div(max, i);
        if i == 0 {
            lemma2_to64();
        }
    }
    i - 1
}

/// Read first_mb_in_slice, slice_type, pic_parameter_set_id and frame_num
/// (frame_num is stored in `frameNum`), on a scratch copy of the stream.
fn read_to_frame_num(tmp: &mut strmData_t, maxFrameNum: u32, frameNum: &mut u32) -> (r: u32)
    requires
        can_parse(old(tmp)),
        1 <= maxFrameNum <= 0x7FFF_FFFF,
    ensures
        final(tmp).wf(),
        final(tmp).same_stream(old(tmp)),
        r == (if frame_num_ok(old(tmp), old(tmp).pos(), maxFrameNum) { HANTRO_OK } else { HANTRO_NOK }),
        r == HANTRO_OK ==> final(tmp).pos() == after_frame_num(old(tmp), old(tmp).pos(), maxFrameNum),
        r == HANTRO_OK ==> *final(frameNum) == old(tmp).bits_at(
            frame_num_pos(old(tmp), old(tmp).pos()),
            field_bits(maxFrameNum),
        ),
        r == HANTRO_OK ==> final(tmp).pos() <= final(tmp).len_bits(),
{
    let ghost s0 = *old(tmp);
    let ghost p = s0.pos();
    let mut value: u32 = 0;
    proof {
        lemma_first3(&s0, p);
    }
    /* first_mb_in_slice */
    let mut status = h264bsdDecodeExpGolombUnsigned(tmp, &mut value);
    if status != HANTRO_OK {
        return HANTRO_NOK;
    }
    /* slice_type */
    status = h264bsdDecodeExpGolombUnsigned(tmp, &mut value);
    if status != HANTRO_OK {
        return HANTRO_NOK;
    }
    /* pic_parameter_set_id */
    status = h264bsdDecodeExpGolombUnsigned(tmp, &mut value);
    if status != HANTRO_OK {
        return HANTRO_NOK;
    }
    /* log2(maxFrameNum) -> num bits to represent frame_num */
    let i = range_bits(maxFrameNum);
    let bits = h264bsdGetBits(tmp, i);
    proof {
        crate::stream::lemma_stream_bits_bound(s0.data(), s0.size(), frame_num_pos(&s0, p), i as nat);
        crate::stream::lemma_pow2_strictly_increases_le(i as nat, 30);
        lemma2_to64();
    }
    if bits == END_OF_STREAM {
        return HANTRO_NOK;
    }
    *frameNum = bits;
    HANTRO_OK
}

/// Peek pic_parameter_set_id from the slice header; the stream position is
/// left untouched.
pub fn h264bsdCheckPpsId(pStrmData: &mut strmData_t, ppsId: &mut u32) -> (r: u32)
    requires
        can_parse(old(pStrmData)),
    ensures
        *final(pStrmData) == *old(pStrmData),
        ({
            let s = old(pStrmData);
            let q = ue_next(s, ue_next(s, s.pos()));
            let ok = first3_ok(s, s.pos()) && ue_value(s, q) < 256;
            &&& r == (if ok { HANTRO_OK } else { HANTRO_NOK })
            &&& *final(ppsId) == (if ok { ue_value(s, q) } else { *old(ppsId) })
        }),
{
    let ghost s0 = *old(pStrmData);
    let ghost p = s0.pos();
    let mut value: u32 = 0;
    /* don't touch original stream position params */
    let mut tmpStrmData = strmDataCopy(pStrmData);
    proof {
        lemma_first3(&s0, p);
        lemma_ue_next(&s0, ue_next(&s0, ue_next(&s0, p)));
    }
    /* first_mb_in_slice */
    let mut tmp = h264bsdDecodeExpGolombUnsigned(&mut tmpStrmData, &mut value);
    if tmp != HANTRO_OK {
        return tmp;
    }
    /* slice_type */
    tmp = h264bsdDecodeExpGolombUnsigned(&mut tmpStrmData, &mut value);
    if tmp != HANTRO_OK {
        return tmp;
    }
    tmp = h264bsdDecodeExpGolombUnsigned(&mut tmpStrmData, &mut value);
    if tmp != HANTRO_OK {
        return tmp;
    }
    if value >= MAX_NUM_PIC_PARAM_SETS as u32 {
        return HANTRO_NOK;
    }
    *ppsId = value;
    HANTRO_OK
}

/// Peek frame_num from the slice header; the stream position is left
/// untouched.
pub fn h264bsdCheckFrameNum(pStrmData: &mut strmData_t, maxFrameNum: u32, frameNum: &mut u32) -> (r: u32)
    requires
        can_parse(old(pStrmData)),
        1 <= maxFrameNum <= 0x7FFF_FFFF,
    ensures
        *final(pStrmData) == *old(pStrmData),
        ({
            let s = old(pStrmData);
            let ok = frame_num_ok(s, s.pos(), maxFrameNum);
            &&& r == (if ok { HANTRO_OK } else { HANTRO_NOK })
            &&& ok ==> *final(frameNum) == s.bits_at(frame_num_pos(s, s.pos()), field_bits(maxFrameNum))
        }),
{
    /* don't touch original stream position params */
    let mut tmpStrmData = strmDataCopy(pStrmData);
    let mut value: u32 = 0;
    let tmp = read_to_frame_num(&mut tmpStrmData, maxFrameNum, &mut value);
    if tmp != HANTRO_OK {
        return tmp;
    }
    *frameNum = value;
    HANTRO_OK
}

/// Peek idr_pic_id from the slice header of an IDR slice (any other NAL
/// unit type is an error); the stream position is left untouched.
pub fn h264bsdCheckIdrPicId(
    pStrmData: &mut strmData_t,
    maxFrameNum: u32,
    nalUnitType: nalUnitType_e,
    idrPicId: &mut u32,
) -> (r: u32)
    requires
        can_parse(old(pStrmData)),
        1 <= maxFrameNum <= 0x7FFF_FFFF,
    ensures
        *final(pStrmData) == *old(pStrmData),
        ({
            let s = old(pStrmData);
            let a = after_frame_num(s, s.pos(), maxFrameNum);
            let ok = nalUnitType == NAL_CODED_SLICE_IDR && frame_num_ok(s, s.pos(), maxFrameNum)
                && ue_ok(s, a);
            let writes = nalUnitType == NAL_CODED_SLICE_IDR && frame_num_ok(s, s.pos(), maxFrameNum)
                && ue_writes(s, a);
            &&& r == (if ok { HANTRO_OK } else { HANTRO_NOK })
            &&& *final(idrPicId) == (if writes { ue_value(s, a) } else { *old(idrPicId) })
        }),
{
    /* nalUnitType must be equal to 5 because otherwise idrPicId is not
     * present */
    if nalUnitType != NAL_CODED_SLICE_IDR {
        return HANTRO_NOK;
    }
    /* don't touch original stream position params */
    let mut tmpStrmData = strmDataCopy(pStrmData);
    let mut value: u32 = 0;
    let tmp = read_to_frame_num(&mut tmpStrmData, maxFrameNum, &mut value);
    if tmp != HANTRO_OK {
        return tmp;
    }
    /* idr_pic_id */
    h264bsdDecodeExpGolombUnsigned(&mut tmpStrmData, idrPicId)
}

/// Skip idr_pic_id when the slice is an IDR slice.
fn skip_idr_pic_id(tmp: &mut strmData_t, idr: bool) -> (r: u32)
    requires
        old(tmp).wf(),
        old(tmp).pos() <= old(tmp).len_bits(),
    ensures
        final(tmp).wf(),
        final(tmp).same_stream(old(tmp)),
        r == (if !idr || ue_ok(old(tmp), old(tmp).pos()) { HANTRO_OK } else { HANTRO_NOK }),
        r == HANTRO_OK ==> final(tmp).pos() == (if idr { ue_next(old(tmp), old(tmp).pos()) } else { old(tmp).pos() }),
        r == HANTRO_OK ==> final(tmp).pos() <= final(tmp).len_bits(),
{
    if idr {
        let mut value: u32 = 0;
        proof {
            lemma_ue_next(old(tmp), old(tmp).pos());
        }
        let t = h264bsdDecodeExpGolombUnsigned(tmp, &mut value);
        if t != HANTRO_OK {
            return HANTRO_NOK;
        }
    }
    HANTRO_OK
}

/// Read a fixed-width field of a power-of-two range `max` at the stream
/// position.
fn read_range_field(tmp: &mut strmData_t, max: u32, out: &mut u32) -> (r: u32)
    requires
        old(tmp).wf(),
        old(tmp).pos() <= old(tmp).len_bits(),
        1 <= max <= 0x7FFF_FFFF,
    ensures
        final(tmp).wf(),
        final(tmp).same_stream(old(tmp)),
        final(tmp).pos() == old(tmp).pos() + field_bits(max),
        r == (if old(tmp).pos() + field_bits(max) <= old(tmp).len_bits() { HANTRO_OK } else { HANTRO_NOK }),
        r == HANTRO_OK ==> *final(out) == old(tmp).bits_at(old(tmp).pos(), field_bits(max)),
        r != HANTRO_OK ==> *final(out) == *old(out),
{
    let i = range_bits(max);
    let ghost s0 = *old(tmp);
    proof {
        crate::stream::lemma_stream_bits_bound(s0.data(), s0.size(), s0.pos(), i as nat);
        crate::stream::lemma_pow2_strictly_increases_le(i as nat, 30);
        lemma2_to64();
    }
    let bits = h264bsdGetBits(tmp, i);
    if bits == END_OF_STREAM {
        return HANTRO_NOK;
    }
    *out = bits;
    HANTRO_OK
}

/// Peek pic_order_cnt_lsb from the slice header; the stream position is
/// left untouched.
pub fn h264bsdCheckPicOrderCntLsb(
    pStrmData: &mut strmData_t,
    pSeqParamSet: &seqParamSet_t,
    nalUnitType: nalUnitType_e,
    picOrderCntLsb: &mut u32,
) -> (r: u32)
    requires
        can_parse(old(pStrmData)),
        1 <= pSeqParamSet.maxFrameNum <= 0x7FFF_FFFF,
        1 <= pSeqParamSet.maxPicOrderCntLsb <= 0x7FFF_FFFF,
    ensures
        *final(pStrmData) == *old(pStrmData),
        ({
            let s = old(pStrmData);
            let idr = nalUnitType == NAL_CODED_SLICE_IDR;
            let q = after_idr(s, s.pos(), pSeqParamSet.maxFrameNum, idr);
            let n = field_bits(pSeqParamSet.maxPicOrderCntLsb);
            let ok = idr_ok(s, s.pos(), pSeqParamSet.maxFrameNum, idr) && q + n <= s.len_bits();
            &&& r == (if ok { HANTRO_OK } else { HANTRO_NOK })
            &&& *final(picOrderCntLsb) == (if ok { s.bits_at(q, n) as u32 } else { *old(picOrderCntLsb) })
        }),
{
    /* don't touch original stream position params */
    let mut tmpStrmData = strmDataCopy(pStrmData);
    let mut value: u32 = 0;
    let mut tmp = read_to_frame_num(&mut tmpStrmData, pSeqParamSet.maxFrameNum, &mut value);
    if tmp != HANTRO_OK {
        return tmp;
    }
    /* skip idr_pic_id when necessary */
    tmp = skip_idr_pic_id(&mut tmpStrmData, nalUnitType == NAL_CODED_SLICE_IDR);
    if tmp != HANTRO_OK {
        return tmp;
    }
    /* pic_order_cnt_lsb */
    read_range_field(&mut tmpStrmData, pSeqParamSet.maxPicOrderCntLsb, picOrderCntLsb)
}

/// Peek delta_pic_order_cnt_bottom from the slice header; the stream
/// position is left untouched.
pub fn h264bsdCheckDeltaPicOrderCntBottom(
    pStrmData: &mut strmData_t,
    pSeqParamSet: &seqParamSet_t,
    nalUnitType: nalUnitType_e,
    deltaPicOrderCntBottom: &mut i32,
) -> (r: u32)
    requires
        can_parse(old(pStrmData)),
        1 <= pSeqParamSet.maxFrameNum <= 0x7FFF_FFFF,
        1 <= pSeqParamSet.maxPicOrderCntLsb <= 0x7FFF_FFFF,
    ensures
        *final(pStrmData) == *old(pStrmData),
        ({
            let s = old(pStrmData);
            let idr = nalUnitType == NAL_CODED_SLICE_IDR;
            let a = after_idr(s, s.pos(), pSeqParamSet.maxFrameNum, idr) + field_bits(
                pSeqParamSet.maxPicOrderCntLsb,
            );
            let ok = idr_ok(s, s.pos(), pSeqParamSet.maxFrameNum, idr) && a <= s.len_bits() && se_ok(s, a);
            &&& r == (if ok { HANTRO_OK } else { HANTRO_NOK })
            &&& *final(deltaPicOrderCntBottom) == (if ok { se_value(s, a) } else { *old(deltaPicOrderCntBottom) })
        }),
{
    /* don't touch original stream position params */
    let mut tmpStrmData = strmDataCopy(pStrmData);
    let mut value: u32 = 0;
    let mut tmp = read_to_frame_num(&mut tmpStrmData, pSeqParamSet.maxFrameNum, &mut value);
    if tmp != HANTRO_OK {
        return tmp;
    }
    /* skip idr_pic_id when necessary */
    tmp = skip_idr_pic_id(&mut tmpStrmData, nalUnitType == NAL_CODED_SLICE_IDR);
    if tmp != HANTRO_OK {
        return tmp;
    }
    /* skip pic_order_cnt_lsb */
    tmp = read_range_field(&mut tmpStrmData, pSeqParamSet.maxPicOrderCntLsb, &mut value);
    if tmp != HANTRO_OK {
        return tmp;
    }
    /* delta_pic_order_cnt_bottom */
    h264bsdDecodeExpGolombSigned(&mut tmpStrmData, deltaPicOrderCntBottom)
}

/// Skip the picture order count fields of the slice header.
fn skip_poc_fields(tmp: &mut strmData_t, sps: &seqParamSet_t, pps: &picParamSet_t) -> (r: u32)
    requires
        old(tmp).wf(),
        old(tmp).pos() <= old(tmp).len_bits(),
        sps.picOrderCntType == 0 ==> 1 <= sps.maxPicOrderCntLsb <= 0x7FFF_FFFF,
    ensures
        final(tmp).wf(),
        final(tmp).same_stream(old(tmp)),
        r == (if poc_ok_from(old(tmp), old(tmp).pos(), sps, pps) { HANTRO_OK } else { HANTRO_NOK }),
        r == HANTRO_OK ==> final(tmp).pos() == after_poc_from(old(tmp), old(tmp).pos(), sps, pps),
        r == HANTRO_OK ==> final(tmp).pos() <= final(tmp).len_bits(),
{
    let ghost s0 = *old(tmp);
    let mut value: u32 = 0;
    let mut ivalue: i32 = 0;
    let mut t: u32;
    if sps.picOrderCntType == 0 {
        /* skip pic_order_cnt_lsb */
        t = read_range_field(tmp, sps.maxPicOrderCntLsb, &mut value);
        if t != HANTRO_OK {
            return HANTRO_NOK;
        }
        if pps.picOrderPresentFlag != 0 {
            /* skip delta_pic_order_cnt_bottom */
            proof {
                lemma_ue_next(&s0, tmp.pos());
            }
            t = h264bsdDecodeExpGolombSigned(tmp, &mut ivalue);
            if t != HANTRO_OK {
                return HANTRO_NOK;
            }
        }
    }
    if sps.picOrderCntType == 1 && sps.deltaPicOrderAlwaysZeroFlag == 0 {
        /* skip delta_pic_order_cnt[0] */
        proof {
            lemma_ue_next(&s0, tmp.pos());
        }
        t = h264bsdDecodeExpGolombSigned(tmp, &mut ivalue);
        if t != HANTRO_OK {
            return HANTRO_NOK;
        }
        /* skip delta_pic_order_cnt[1] if present */
        if pps.picOrderPresentFlag != 0 {
            proof {
                lemma_ue_next(&s0, tmp.pos());
            }
            t = h264bsdDecodeExpGolombSigned(tmp, &mut ivalue);
            if t != HANTRO_OK {
                return HANTRO_NOK;
            }
        }
    }
    HANTRO_OK
}

/// Peek delta_pic_order_cnt[0] and, when present, delta_pic_order_cnt[1]
/// from the slice header; the stream position is left untouched.
pub fn h264bsdCheckDeltaPicOrderCnt(
    pStrmData: &mut strmData_t,
    pSeqParamSet: &seqParamSet_t,
    nalUnitType: nalUnitType_e,
    picOrderPresentFlag: u32,
    deltaPicOrderCnt: &mut [i32; 2],
) -> (r: u32)
    requires
        can_parse(old(pStrmData)),
        1 <= pSeqParamSet.maxFrameNum <= 0x7FFF_FFFF,
    ensures
        *final(pStrmData) == *old(pStrmData),
        ({
            let s = old(pStrmData);
            let idr = nalUnitType == NAL_CODED_SLICE_IDR;
            let q = after_idr(s, s.pos(), pSeqParamSet.maxFrameNum, idr);
            let q1 = ue_next(s, q);
            let ok0 = idr_ok(s, s.pos(), pSeqParamSet.maxFrameNum, idr) && se_ok(s, q);
            let ok = ok0 && (picOrderPresentFlag != 0 ==> se_ok(s, q1));
            &&& r == (if ok { HANTRO_OK } else { HANTRO_NOK })
            &&& final(deltaPicOrderCnt)@[0] == (if ok0 { se_value(s, q) } else { old(deltaPicOrderCnt)@[0] })
            &&& final(deltaPicOrderCnt)@[1] == (if ok0 && picOrderPresentFlag != 0 && se_ok(s, q1) {
                se_value(s, q1)
            } else {
                old(deltaPicOrderCnt)@[1]
            })
        }),
{
    let ghost s0 = *old(pStrmData);
    /* don't touch original stream position params */
    let mut tmpStrmData = strmDataCopy(pStrmData);
    let mut value: u32 = 0;
    let mut tmp = read_to_frame_num(&mut tmpStrmData, pSeqParamSet.maxFrameNum, &mut value);
    if tmp != HANTRO_OK {
        return tmp;
    }
    /* skip idr_pic_id when necessary */
    tmp = skip_idr_pic_id(&mut tmpStrmData, nalUnitType == NAL_CODED_SLICE_IDR);
    if tmp != HANTRO_OK {
        return tmp;
    }
    /* delta_pic_order_cnt[0] */
    let mut v0: i32 = deltaPicOrderCnt[0];
    proof {
        lemma_ue_next(&s0, tmpStrmData.pos());
    }
    tmp = h264bsdDecodeExpGolombSigned(&mut tmpStrmData, &mut v0);
    deltaPicOrderCnt[0] = v0;
    if tmp != HANTRO_OK {
        return tmp;
    }
    /* delta_pic_order_cnt[1] if present */
    if picOrderPresentFlag != 0 {
        let mut v1: i32 = deltaPicOrderCnt[1];
        proof {
            lemma_ue_next(&s0, tmpStrmData.pos());
        }
        tmp = h264bsdDecodeExpGolombSigned(&mut tmpStrmData, &mut v1);
        deltaPicOrderCnt[1] = v1;
        if tmp != HANTRO_OK {
            return tmp;
        }
    }
    HANTRO_OK
}

/// Peek redundant_pic_cnt from the slice header; the stream position is
/// left untouched.
pub fn h264bsdCheckRedundantPicCnt(
    pStrmData: &mut strmData_t,
    pSeqParamSet: &seqParamSet_t,
    pPicParamSet: &picParamSet_t,
    nalUnitType: nalUnitType_e,
    redundantPicCnt: &mut u32,
) -> (r: u32)
    requires
        can_parse(old(pStrmData)),
        1 <= pSeqParamSet.maxFrameNum <= 0x7FFF_FFFF,
        pSeqParamSet.picOrderCntType == 0 ==> 1 <= pSeqParamSet.maxPicOrderCntLsb <= 0x7FFF_FFFF,
    ensures
        *final(pStrmData) == *old(pStrmData),
        ({
            let s = old(pStrmData);
            let idr = nalUnitType == NAL_CODED_SLICE_IDR;
            let q = after_idr(s, s.pos(), pSeqParamSet.maxFrameNum, idr);
            let a = after_poc_from(s, q, pSeqParamSet, pPicParamSet);
            let pre = idr_ok(s, s.pos(), pSeqParamSet.maxFrameNum, idr) && poc_ok_from(s, q, pSeqParamSet, pPicParamSet);
            &&& r == (if pre && ue_ok(s, a) { HANTRO_OK } else { HANTRO_NOK })
            &&& *final(redundantPicCnt) == (if pre && ue_writes(s, a) { ue_value(s, a) } else { *old(redundantPicCnt) })
        }),
{
    let ghost s0 = *old(pStrmData);
    /* don't touch original stream position params */
    let mut tmpStrmData = strmDataCopy(pStrmData);
    let mut value: u32 = 0;
    let mut tmp = read_to_frame_num(&mut tmpStrmData, pSeqParamSet.maxFrameNum, &mut value);
    if tmp != HANTRO_OK {
        return tmp;
    }
    /* skip idr_pic_id when necessary */
    tmp = skip_idr_pic_id(&mut tmpStrmData, nalUnitType == NAL_CODED_SLICE_IDR);
    if tmp != HANTRO_OK {
        return tmp;
    }
    tmp = skip_poc_fields(&mut tmpStrmData, pSeqParamSet, pPicParamSet);
    if tmp != HANTRO_OK {
        return tmp;
    }
    /* redundant_pic_cnt */
    h264bsdDecodeExpGolombUnsigned(&mut tmpStrmData, redundantPicCnt)
}

/// Peek no_output_of_prior_pics_flag from the slice header of an IDR
/// slice; the stream is not moved.
pub fn h264bsdCheckPriorPicsFlag(
    noOutputOfPriorPicsFlag: &mut u32,
    pStrmData: &strmData_t,
    pSeqParamSet: &seqParamSet_t,
    pPicParamSet: &picParamSet_t,
    nalUnitType: nalUnitType_e,
) -> (r: u32)
    requires
        can_parse(pStrmData),
        1 <= pSeqParamSet.maxFrameNum <= 0x7FFF_FFFF,
        pSeqParamSet.picOrderCntType == 0 ==> 1 <= pSeqParamSet.maxPicOrderCntLsb <= 0x7FFF_FFFF,
    ensures
        ({
            let s = pStrmData;
            let q = after_idr(s, s.pos(), pSeqParamSet.maxFrameNum, true);
            let a = after_poc_from(s, q, pSeqParamSet, pPicParamSet);
            let b = if pPicParamSet.redundantPicCntPresentFlag != 0 { ue_next(s, a) } else { a };
            let pre = idr_ok(s, s.pos(), pSeqParamSet.maxFrameNum, true) && poc_ok_from(s, q, pSeqParamSet, pPicParamSet)
                && (pPicParamSet.redundantPicCntPresentFlag != 0 ==> ue_ok(s, a));
            &&& r == (if pre && b + 1 <= s.len_bits() { HANTRO_OK } else { HANTRO_NOK })
            &&& *final(noOutputOfPriorPicsFlag) == (if pre { get_bits_value(s, b, 1) } else { *old(noOutputOfPriorPicsFlag) })
        }),
{
    let ghost s0 = *pStrmData;
    /* don't touch original stream position params */
    let mut tmpStrmData = strmDataCopy(pStrmData);
    let mut value: u32 = 0;
    let mut tmp = read_to_frame_num(&mut tmpStrmData, pSeqParamSet.maxFrameNum, &mut value);
    if tmp != HANTRO_OK {
        return tmp;
    }
    /* skip idr_pic_id */
    tmp = skip_idr_pic_id(&mut tmpStrmData, true);
    if tmp != HANTRO_OK {
        return tmp;
    }
    tmp = skip_poc_fields(&mut tmpStrmData, pSeqParamSet, pPicParamSet);
    if tmp != HANTRO_OK {
        return tmp;
    }
    /* skip redundant_pic_cnt */
    if pPicParamSet.redundantPicCntPresentFlag != 0 {
        proof {
            lemma_ue_next(&s0, tmpStrmData.pos());
        }
        tmp = h264bsdDecodeExpGolombUnsigned(&mut tmpStrmData, &mut value);
        if tmp != HANTRO_OK {
            return tmp;
        }
    }
    proof {
        crate::stream::lemma_stream_bits_bound(s0.data(), s0.size(), tmpStrmData.pos(), 1);
        lemma2_to64();
    }
    *noOutputOfPriorPicsFlag = h264bsdGetBits(&mut tmpStrmData, 1);
    if *noOutputOfPriorPicsFlag == END_OF_STREAM {
        return HANTRO_NOK;
    }
    HANTRO_OK
}

} // verus!

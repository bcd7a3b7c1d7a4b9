//! Picture order count (POC) of a picture, for the three POC types, with
//! the state that carries over to the next picture.
use vstd::prelude::*;
use crate::defs::{nalUnit_t, IS_IDR_NAL_UNIT, NAL_CODED_SLICE_IDR};
use crate::param_sets::seqParamSet_t;
use crate::slice_header::{memoryManagementOperation_t, sliceHeader_t};
use crate::pps::PpsModel;
use crate::slice_syntax::{min_i32, sh_head, sh_params_ok, sh_poc, sh_refs, sh_syntax, sh_tail, ShModel};
use crate::sps::SpsModel;
use crate::stream::strmData_t;
use crate::util::{udiv, urem};

verus! {

/// What the POC computation keeps from the previous reference picture.
#[derive(Clone, Copy)]
pub struct pocStorage_t {
    pub prevPicOrderCntLsb: u32,
    pub prevPicOrderCntMsb: i32,
    pub prevFrameNum: u32,
    pub prevFrameNumOffset: u32,
}

/// Memory management operations from `i` on contain operation 5 before the
/// terminating operation 0.
pub open spec fn has_mmco5_from(ops: Seq<memoryManagementOperation_t>, i: int) -> bool
    decreases 35 - i,
{
    if i >= 35 || i < 0 || ops[i].memoryManagementControlOperation == 0 {
        false
    } else if ops[i].memoryManagementControlOperation == 5 {
        true
    } else {
        has_mmco5_from(ops, i + 1)
    }
}

/// The slice's reference picture marking contains operation 5.
pub open spec fn contains_mmco5(sh: ShModel) -> bool {
    sh.decRefPicMarking.adaptiveRefPicMarkingModeFlag != 0 && has_mmco5_from(sh.decRefPicMarking.operation, 0)
}

/// The operation list ends (with operation 0) or reaches operation 5
/// within the list.
pub open spec fn ops_terminated(sh: ShModel) -> bool {
    sh.decRefPicMarking.adaptiveRefPicMarkingModeFlag != 0 ==> exists|k: int|
        0 <= k < 35 && ((#[trigger] sh.decRefPicMarking.operation[k]).memoryManagementControlOperation == 0
            || sh.decRefPicMarking.operation[k].memoryManagementControlOperation == 5)
}

/// `acc` plus `s[0..n]`, added in order with 32-bit wrap-around.
pub open spec fn wfold(acc: i32, s: Seq<i32>, n: int) -> i32
    decreases n,
{
    if n <= 0 {
        acc
    } else {
        wfold(acc, s, n - 1).wrapping_add(s[n - 1])
    }
}

/// FrameNumOffset of the picture (POC types 1 and 2).
pub open spec fn frame_num_offset(poc: pocStorage_t, sps: SpsModel, sh: ShModel, idr: bool) -> u32 {
    if idr {
        0
    } else if poc.prevFrameNum > sh.frameNum {
        poc.prevFrameNumOffset.wrapping_add(sps.maxFrameNum)
    } else {
        poc.prevFrameNumOffset
    }
}

/// POC type 0: (picture order count, new state).
pub open spec fn poc_type0(poc: pocStorage_t, sps: SpsModel, sh: ShModel, nal: nalUnit_t) -> (i32, pocStorage_t) {
    let idr = nal.nalUnitType == NAL_CODED_SLICE_IDR;
    let prevMsb = if idr { 0i32 } else { poc.prevPicOrderCntMsb };
    let prevLsb = if idr { 0u32 } else { poc.prevPicOrderCntLsb };
    let lsb = sh.picOrderCntLsb;
    let half = sps.maxPicOrderCntLsb / 2;
    let msb = if lsb < prevLsb && prevLsb - lsb >= half {
        prevMsb.wrapping_add(sps.maxPicOrderCntLsb as i32)
    } else if lsb > prevLsb && lsb - prevLsb > half {
        prevMsb.wrapping_sub(sps.maxPicOrderCntLsb as i32)
    } else {
        prevMsb
    };
    let top = msb.wrapping_add(lsb as i32);
    let cnt = if sh.deltaPicOrderCntBottom < 0 { top.wrapping_add(sh.deltaPicOrderCntBottom) } else { top };
    let st0 = pocStorage_t { prevPicOrderCntMsb: prevMsb, prevPicOrderCntLsb: prevLsb, ..poc };
    if nal.nalRefIdc == 0 {
        (cnt, st0)
    } else if contains_mmco5(sh) {
        (
            0,
            pocStorage_t {
                prevPicOrderCntMsb: 0,
                prevPicOrderCntLsb: if sh.deltaPicOrderCntBottom < 0 {
                    (-(sh.deltaPicOrderCntBottom as int)) as u32
                } else {
                    0
                },
                ..poc
            },
        )
    } else {
        (cnt, pocStorage_t { prevPicOrderCntMsb: msb, prevPicOrderCntLsb: lsb, ..poc })
    }
}

/// POC type 1: (picture order count, new state).
pub open spec fn poc_type1(poc: pocStorage_t, sps: SpsModel, sh: ShModel, nal: nalUnit_t) -> (i32, pocStorage_t) {
    let idr = nal.nalUnitType == NAL_CODED_SLICE_IDR;
    let offset = frame_num_offset(poc, sps, sh, idr);
    let n = sps.numRefFramesInPicOrderCntCycle;
    let abs0 = if n != 0 { offset.wrapping_add(sh.frameNum) } else { 0u32 };
    let abs = if nal.nalRefIdc == 0 && abs0 > 0 { (abs0 - 1) as u32 } else { abs0 };
    let cycleCnt = if abs > 0 && n != 0 { ((abs - 1) as u32 / n) as u32 } else { 0u32 };
    let inCycle = if abs > 0 && n != 0 { ((abs - 1) as u32 % n) as u32 } else { 0u32 };
    let expectedDelta = wfold(0, sps.offsetForRefFrame, n as int);
    let expected = if abs > 0 {
        wfold((cycleCnt as i32).wrapping_mul(expectedDelta), sps.offsetForRefFrame, inCycle + 1)
    } else {
        0i32
    };
    let e1 = if nal.nalRefIdc == 0 { expected.wrapping_add(sps.offsetForNonRefPic) } else { expected };
    let top = e1.wrapping_add(sh.deltaPicOrderCnt[0]);
    let bottomDelta = sps.offsetForTopToBottomField.wrapping_add(sh.deltaPicOrderCnt[1]);
    let cnt = if bottomDelta < 0 { top.wrapping_add(bottomDelta) } else { top };
    if contains_mmco5(sh) {
        (0, pocStorage_t { prevFrameNumOffset: 0, prevFrameNum: 0, ..poc })
    } else {
        (cnt, pocStorage_t { prevFrameNumOffset: offset, prevFrameNum: sh.frameNum, ..poc })
    }
}

/// POC type 2: (picture order count, new state).
pub open spec fn poc_type2(poc: pocStorage_t, sps: SpsModel, sh: ShModel, nal: nalUnit_t) -> (i32, pocStorage_t) {
    let idr = nal.nalUnitType == NAL_CODED_SLICE_IDR;
    let offset = frame_num_offset(poc, sps, sh, idr);
    let twice = (2i32).wrapping_mul(offset.wrapping_add(sh.frameNum) as i32);
    let cnt = if idr {
        0i32
    } else if nal.nalRefIdc == 0 {
        twice.wrapping_sub(1)
    } else {
        twice
    };
    if contains_mmco5(sh) {
        (0, pocStorage_t { prevFrameNumOffset: 0, prevFrameNum: 0, ..poc })
    } else {
        (cnt, pocStorage_t { prevFrameNumOffset: offset, prevFrameNum: sh.frameNum, ..poc })
    }
}

/// Picture order count of a picture and the state for the next one:
/// the minimum of its top and bottom field order counts.
pub open spec fn pic_order_cnt(poc: pocStorage_t, sps: SpsModel, sh: ShModel, nal: nalUnit_t) -> (i32, pocStorage_t) {
    if sps.picOrderCntType == 0 {
        poc_type0(poc, sps, sh, nal)
    } else if sps.picOrderCntType == 1 {
        poc_type1(poc, sps, sh, nal)
    } else {
        poc_type2(poc, sps, sh, nal)
    }
}

/// Picture order count of POC type 1 (steps 2 to 6 of the standard)
/// before any memory management operation 5 resets it.
fn type1_count(frameNumOffset: u32, sps: &seqParamSet_t, sh: &sliceHeader_t, nal: &nalUnit_t) -> (r: i32)
    requires
        sps.wf(),
    ensures
        ({
            let n = sps.numRefFramesInPicOrderCntCycle;
            let abs0 = if n != 0 { frameNumOffset.wrapping_add(sh.frameNum) } else { 0u32 };
            let abs = if nal.nalRefIdc == 0 && abs0 > 0 { (abs0 - 1) as u32 } else { abs0 };
            let cycleCnt = if abs > 0 && n != 0 { ((abs - 1) as u32 / n) as u32 } else { 0u32 };
            let inCycle = if abs > 0 && n != 0 { ((abs - 1) as u32 % n) as u32 } else { 0u32 };
            let expectedDelta = wfold(0, sps.offsetForRefFrame@, n as int);
            let expected = if abs > 0 {
                wfold((cycleCnt as i32).wrapping_mul(expectedDelta), sps.offsetForRefFrame@, inCycle + 1)
            } else {
                0i32
            };
            let e1 = if nal.nalRefIdc == 0 { expected.wrapping_add(sps.offsetForNonRefPic) } else { expected };
            let top = e1.wrapping_add(sh.deltaPicOrderCnt@[0]);
            let bottomDelta = sps.offsetForTopToBottomField.wrapping_add(sh.deltaPicOrderCnt@[1]);
            r == (if bottomDelta < 0 { top.wrapping_add(bottomDelta) } else { top })
        }),
{
    let n = sps.numRefFramesInPicOrderCntCycle;
    /* step 2 */
    let mut absFrameNum: u32 = if n != 0 {
        frameNumOffset.wrapping_add(sh.frameNum)
    } else {
        0
    };
    if nal.nalRefIdc == 0 && absFrameNum > 0 {
        absFrameNum -= 1;
    }
    /* step 3 */
    let mut picOrderCntCycleCnt: u32 = 0;
    let mut frameNumInPicOrderCntCycle: u32 = 0;
    if absFrameNum > 0 {
        picOrderCntCycleCnt = udiv(absFrameNum - 1, n);
        frameNumInPicOrderCntCycle = urem(absFrameNum - 1, n);
    }
    /* step 4 */
    let mut expectedDeltaPicOrderCntCycle: i32 = 0;
    let mut i: u32 = 0;
    while i < n
        invariant
            sps.wf(),
            n == sps.numRefFramesInPicOrderCntCycle,
            i <= n,
            expectedDeltaPicOrderCntCycle == wfold(0, sps.offsetForRefFrame@, i as int),
        decreases n - i,
    {
        expectedDeltaPicOrderCntCycle = expectedDeltaPicOrderCntCycle.wrapping_add(sps.offsetForRefFrame[i as usize]);
        i += 1;
    }
    /* step 5 (picOrderCnt used to store expectedPicOrderCnt) */
    let mut picOrderCnt: i32;
    if absFrameNum > 0 {
        let ghost start = (picOrderCntCycleCnt as i32).wrapping_mul(expectedDeltaPicOrderCntCycle);
        picOrderCnt = (picOrderCntCycleCnt as i32).wrapping_mul(expectedDeltaPicOrderCntCycle);
        let mut i: u32 = 0;
        while i <= frameNumInPicOrderCntCycle
            invariant
                sps.wf(),
                n == sps.numRefFramesInPicOrderCntCycle,
                n != 0,
                frameNumInPicOrderCntCycle < n,
                i <= frameNumInPicOrderCntCycle + 1,
                picOrderCnt == wfold(start, sps.offsetForRefFrame@, i as int),
            decreases frameNumInPicOrderCntCycle + 1 - i,
        {
            picOrderCnt = picOrderCnt.wrapping_add(sps.offsetForRefFrame[i as usize]);
            i += 1;
        }
    } else {
        picOrderCnt = 0;
    }
    if nal.nalRefIdc == 0 {
        picOrderCnt = picOrderCnt.wrapping_add(sps.offsetForNonRefPic);
    }
    /* step 6 (picOrderCnt is top field order cnt if delta for bottom
     * is positive, otherwise it is bottom field order cnt) */
    picOrderCnt = picOrderCnt.wrapping_add(sh.deltaPicOrderCnt[0]);
    let bottomDelta = sps.offsetForTopToBottomField.wrapping_add(sh.deltaPicOrderCnt[1]);
    if bottomDelta < 0 {
        picOrderCnt = picOrderCnt.wrapping_add(bottomDelta);
    }
    picOrderCnt
}

/// Count the picture order of a picture from its slice header, the
/// active sequence parameter set and its NAL unit, updating `poc` for the
/// next picture. Returns the minimum of the top and bottom field order
/// counts.
pub fn h264bsdDecodePicOrderCnt(
    poc: &mut pocStorage_t,
    sps: &seqParamSet_t,
    pSliceHeader: &sliceHeader_t,
    pNalUnit: &nalUnit_t,
) -> (r: i32)
    requires
        sps.wf(),
        ops_terminated(pSliceHeader.model()),
    ensures
        (r, *final(poc)) == pic_order_cnt(*old(poc), sps.model(), pSliceHeader.model(), *pNalUnit),
{
    let ghost sh = pSliceHeader.model();
    /* check if current slice includes mmco equal to 5 */
    let mut containsMmco5 = false;
    if pSliceHeader.decRefPicMarking.adaptiveRefPicMarkingModeFlag != 0 {
        let mut i: usize = 0;
        while pSliceHeader.decRefPicMarking.operation[i].memoryManagementControlOperation != 0
            invariant_except_break
                !containsMmco5,
            invariant
                i < 35,
                ops_terminated(sh),
                sh == pSliceHeader.model(),
                sh.decRefPicMarking.adaptiveRefPicMarkingModeFlag != 0,
                forall|j: int| 0 <= j < i ==> sh.decRefPicMarking.operation[j].memoryManagementControlOperation != 0
                    && sh.decRefPicMarking.operation[j].memoryManagementControlOperation != 5,
                has_mmco5_from(sh.decRefPicMarking.operation, 0) == has_mmco5_from(sh.decRefPicMarking.operation, i as int),
            ensures
                containsMmco5 == has_mmco5_from(sh.decRefPicMarking.operation, 0),
            decreases 35 - i,
        {
            if pSliceHeader.decRefPicMarking.operation[i].memoryManagementControlOperation == 5 {
                containsMmco5 = true;
                break;
            }
            proof {
                if i == 34 {
                    let k = choose|k: int|
                        0 <= k < 35 && ((#[trigger] sh.decRefPicMarking.operation[k]).memoryManagementControlOperation
                            == 0 || sh.decRefPicMarking.operation[k].memoryManagementControlOperation == 5);
                    assert(false);
                }
            }
            i += 1;
        }
    }
    assert(containsMmco5 == contains_mmco5(sh));
    let ghost p0 = *poc;
    let idr = IS_IDR_NAL_UNIT(pNalUnit);
    let mut picOrderCnt: i32;
    if sps.picOrderCntType == 0 {
        /* set prevPicOrderCnt values for IDR frame */
        if idr {
            poc.prevPicOrderCntMsb = 0;
            poc.prevPicOrderCntLsb = 0;
        }
        /* compute picOrderCntMsb (stored in picOrderCnt variable) */
        let lsb = pSliceHeader.picOrderCntLsb;
        if lsb < poc.prevPicOrderCntLsb && poc.prevPicOrderCntLsb - lsb >= sps.maxPicOrderCntLsb / 2 {
            picOrderCnt = poc.prevPicOrderCntMsb.wrapping_add(sps.maxPicOrderCntLsb as i32);
        } else if lsb > poc.prevPicOrderCntLsb && lsb - poc.prevPicOrderCntLsb > sps.maxPicOrderCntLsb / 2 {
            picOrderCnt = poc.prevPicOrderCntMsb.wrapping_sub(sps.maxPicOrderCntLsb as i32);
        } else {
            picOrderCnt = poc.prevPicOrderCntMsb;
        }
        /* standard specifies that prevPicOrderCntMsb is from previous
         * rererence frame -> replace old value only if current frame is
         * rererence frame */
        if pNalUnit.nalRefIdc != 0 {
            poc.prevPicOrderCntMsb = picOrderCnt;
        }
        /* compute top field order cnt (stored in picOrderCnt) */
        picOrderCnt = picOrderCnt.wrapping_add(lsb as i32);
        /* if delta for bottom field is negative -> bottom will be the
         * minimum pic order count */
        if pSliceHeader.deltaPicOrderCntBottom < 0 {
            picOrderCnt = picOrderCnt.wrapping_add(pSliceHeader.deltaPicOrderCntBottom);
        }
        if pNalUnit.nalRefIdc != 0 {
            /* if current frame contains mmco5 -> modify values to be
             * stored */
            if containsMmco5 {
                poc.prevPicOrderCntMsb = 0;
                /* prevPicOrderCntLsb should be the top field picOrderCnt
                 * if previous frame included mmco5. Top field picOrderCnt
                 * for frames containing mmco5 is obtained by subtracting
                 * the picOrderCnt from original top field order count ->
                 * value is zero if top field was the minimum, i.e. delta
                 * for bottom was positive, otherwise value is
                 * -deltaPicOrderCntBottom */
                if pSliceHeader.deltaPicOrderCntBottom < 0 {
                    poc.prevPicOrderCntLsb = (0i64 - pSliceHeader.deltaPicOrderCntBottom as i64) as u32;
                } else {
                    poc.prevPicOrderCntLsb = 0;
                }
                picOrderCnt = 0;
            } else {
                poc.prevPicOrderCntLsb = lsb;
            }
        }
    } else {
        /* frameNumOffset (types 1 and 2) */
        let frameNumOffset: u32 = if idr {
            0
        } else if poc.prevFrameNum > pSliceHeader.frameNum {
            poc.prevFrameNumOffset.wrapping_add(sps.maxFrameNum)
        } else {
            poc.prevFrameNumOffset
        };
        if sps.picOrderCntType == 1 {
            picOrderCnt = type1_count(frameNumOffset, sps, pSliceHeader, pNalUnit);
        } else {
            /* type 2 has same value for top and bottom field order cnts */
            let twice = 2i32.wrapping_mul(frameNumOffset.wrapping_add(pSliceHeader.frameNum) as i32);
            if idr {
                picOrderCnt = 0;
            } else if pNalUnit.nalRefIdc == 0 {
                picOrderCnt = twice.wrapping_sub(1);
            } else {
                picOrderCnt = twice;
            }
        }
        /* if current picture contains mmco5 -> set prevFrameNumOffset and
         * prevFrameNum to 0 for computation of picOrderCnt of next
         * frame, otherwise store frameNum and frameNumOffset to poc
         * structure */
        if !containsMmco5 {
            poc.prevFrameNumOffset = frameNumOffset;
            poc.prevFrameNum = pSliceHeader.frameNum;
        } else {
            poc.prevFrameNumOffset = 0;
            poc.prevFrameNum = 0;
            picOrderCnt = 0;
        }
    }
    picOrderCnt
}

/// 32-bit wrapping addition is associative.
proof fn lemma_wrapping_add_assoc(a: i32, b: i32, c: i32)
    ensures
        a.wrapping_add(b).wrapping_add(c) == a.wrapping_add(b.wrapping_add(c)),
{
}

/// An IDR picture whose slice header decoded gets picture order count 0,
/// whatever the state left by earlier pictures: the slice header accepts
/// an IDR picture only when its picture order count comes out zero. (With
/// POC type 1, delta_pic_order_always_zero_flag set and a negative
/// offset_for_top_to_bottom_field the header carries no deltas to check,
/// and the count is that offset.)
pub proof fn lemma_idr_poc_zero(
    d: Seq<u8>,
    sz: nat,
    p: int,
    sps: SpsModel,
    pps: PpsModel,
    nal: nalUnit_t,
    poc: pocStorage_t,
)
    requires
        sh_syntax(d, sz, p, sps, pps, nal).0,
        sh_params_ok(sps, pps),
        nal.nalUnitType == NAL_CODED_SLICE_IDR,
        nal.nalRefIdc != 0,
        !(sps.picOrderCntType == 1 && sps.deltaPicOrderAlwaysZeroFlag != 0 && sps.offsetForTopToBottomField < 0),
    ensures
        pic_order_cnt(poc, sps, sh_syntax(d, sz, p, sps, pps, nal).1, nal).0 == 0,
{
    reveal(sh_head);
    reveal(sh_poc);
    reveal(sh_refs);
    reveal(sh_tail);
    let sh = sh_syntax(d, sz, p, sps, pps, nal).1;
    if sps.picOrderCntType == 1 && sps.deltaPicOrderAlwaysZeroFlag == 0 {
        lemma_wrapping_add_assoc(sh.deltaPicOrderCnt[0], sps.offsetForTopToBottomField, sh.deltaPicOrderCnt[1]);
    }
    if sps.picOrderCntType == 0 {
        let lb = crate::slice_header::field_bits(sps.maxPicOrderCntLsb);
        vstd::arithmetic::power2::lemma2_to64();
        crate::slice_header::lemma_bit_length_le(sps.maxPicOrderCntLsb as nat, 31);
        crate::syntax::lemma_u_val_bound(d, sz, sh_head(d, sz, p, crate::slice_syntax::sh_zero(), sps, pps, nal).2, lb);
        crate::stream::lemma_pow2_strictly_increases_le(lb, 30);
    }
}

} // verus!

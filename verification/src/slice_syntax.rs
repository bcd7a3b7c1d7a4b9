//! Slice header decoding: the whole slice_header() syntax with its
//! reference picture list reordering and reference picture marking parts.
use vstd::prelude::*;
use vstd::arithmetic::power2::*;
use crate::defs::{
    END_OF_STREAM, HANTRO_NOK, HANTRO_OK, NAL_CODED_SLICE_IDR, NO_LONG_TERM_FRAME_INDICES, nalUnitType_e,
};
use crate::defs::{nalUnit_t, IS_I_SLICE, IS_P_SLICE, IS_IDR_NAL_UNIT};
use crate::param_sets::{picParamSet_t, seqParamSet_t};
use crate::pps::PpsModel;
use crate::slice_header::{
    after_idr, after_poc_from, idr_ok, poc_ok_from, decRefPicMarking_t, field_bits, memoryManagementOperation_t, range_bits, refPicListReorderingOperation_t,
    refPicListReordering_t, sliceHeader_t,
};
use crate::sps::SpsModel;
use crate::stream::can_parse;
use crate::vlc::{h264bsdDecodeExpGolombSigned, se_ok, se_ok_at, se_value, se_value_at, ue_writes};
use crate::stream::{h264bsdGetBits, strmData_t};
use crate::syntax::{in_stream, lemma_get_bits, step_done, u_ok, u_ok_at, u_val, u_val_at};
use crate::vlc::{h264bsdDecodeExpGolombUnsigned, lemma_ue_next, ue_next, ue_next_at, ue_ok, ue_ok_at, ue_value, ue_value_at};

verus! {

// ---------------------------------------------------------------------------
// ref_pic_list_reordering()
// ---------------------------------------------------------------------------

/// Reference picture list reordering as values.
#[verifier::ext_equal]
pub struct ReorderingModel {
    pub flag: u32,
    pub command: Seq<refPicListReorderingOperation_t>,
}

impl refPicListReordering_t {
    pub open spec fn model(&self) -> ReorderingModel {
        ReorderingModel { flag: self.refPicListReorderingFlagL0, command: self.command@ }
    }
}

/// Reordering commands `i..` at `p`, at most `numRefIdxActive + 1` of
/// them, the last one being 3: (decoded, commands, end, number of
/// commands).
pub open spec fn reorder_cmds(
    d: Seq<u8>,
    sz: nat,
    p: int,
    i: nat,
    numRefIdxActive: u32,
    maxPicNum: u32,
    cmds: Seq<refPicListReorderingOperation_t>,
) -> (bool, Seq<refPicListReorderingOperation_t>, int, nat)
    decreases 17 - i,
{
    let c = ue_value_at(d, sz, p);
    let q = ue_next_at(d, sz, p);
    let v = ue_value_at(d, sz, q);
    let q2 = ue_next_at(d, sz, q);
    if i > numRefIdxActive || i >= 17 {
        (false, cmds, p, i)
    } else if !ue_ok_at(d, sz, p) || c > 3 {
        (false, cmds, q, i)
    } else if (c <= 2 && !ue_ok_at(d, sz, q)) || (c <= 1 && v >= maxPicNum) {
        (false, cmds, q2, i)
    } else {
        let cmd0 = refPicListReorderingOperation_t { reorderingOfPicNumsIdc: c, ..cmds[i as int] };
        let cmd = if c <= 1 {
            refPicListReorderingOperation_t { absDiffPicNum: (v + 1) as u32, ..cmd0 }
        } else if c == 2 {
            refPicListReorderingOperation_t { longTermPicNum: v, ..cmd0 }
        } else {
            cmd0
        };
        let cmds1 = cmds.update(i as int, cmd);
        let next = if c <= 2 { q2 } else { q };
        if c == 3 {
            (true, cmds1, next, i + 1)
        } else {
            reorder_cmds(d, sz, next, i + 1, numRefIdxActive, maxPicNum, cmds1)
        }
    }
}

/// The ref_pic_list_reordering() syntax at `p`, written over `m`: at
/// least one command when the flag is set.
#[verifier::opaque]
pub open spec fn reordering_syntax(
    d: Seq<u8>,
    sz: nat,
    p: int,
    m: ReorderingModel,
    numRefIdxActive: u32,
    maxPicNum: u32,
) -> (bool, ReorderingModel, int) {
    let f = u_val_at(d, sz, p, 1);
    let l = reorder_cmds(d, sz, p + 1, 0, numRefIdxActive, maxPicNum, m.command);
    if !u_ok_at(sz, p, 1) {
        (false, m, p + 1)
    } else if f == 0 {
        (true, ReorderingModel { flag: f, ..m }, p + 1)
    } else {
        (l.0 && l.3 != 1, ReorderingModel { flag: f, command: l.1 }, l.2)
    }
}

/// Decode ref_pic_list_reordering() into `pRefPicListReordering`.
fn RefPicListReordering(
    pStrmData: &mut strmData_t,
    pRefPicListReordering: &mut refPicListReordering_t,
    numRefIdxActive: u32,
    maxPicNum: u32,
) -> (r: u32)
    requires
        in_stream(old(pStrmData)),
        numRefIdxActive <= 16,
    ensures
        final(pStrmData).wf(),
        final(pStrmData).same_stream(old(pStrmData)),
        step_done(
            r,
            reordering_syntax(
                old(pStrmData).data(),
                old(pStrmData).size(),
                old(pStrmData).pos(),
                old(pRefPicListReordering).model(),
                numRefIdxActive,
                maxPicNum,
            ),
            final(pRefPicListReordering).model(),
            final(pStrmData),
        ),
{
    reveal(reordering_syntax);
    let ghost s0 = *pStrmData;
    let ghost d = s0.data();
    let ghost sz = s0.size();
    proof {
        lemma_get_bits(&s0, s0.pos(), 1);
    }
    let tmp = h264bsdGetBits(pStrmData, 1);
    if tmp == END_OF_STREAM {
        return HANTRO_NOK;
    }
    pRefPicListReordering.refPicListReorderingFlagL0 = tmp;
    if pRefPicListReordering.refPicListReorderingFlagL0 != 0 {
        let ghost l0 = reorder_cmds(d, sz, s0.pos() + 1, 0, numRefIdxActive, maxPicNum, old(pRefPicListReordering).command@);
        let mut i: u32 = 0;
        loop
            invariant_except_break
                l0 == reorder_cmds(d, sz, pStrmData.pos(), i as nat, numRefIdxActive, maxPicNum, pRefPicListReordering.command@),
            invariant
                in_stream(pStrmData),
                pStrmData.same_stream(&s0),
                s0 == *old(pStrmData),
                d == s0.data(),
                sz == s0.size(),
                numRefIdxActive <= 16,
                i <= 17,
                pRefPicListReordering.refPicListReorderingFlagL0 == tmp,
                tmp != 0,
                tmp == u_val_at(d, sz, s0.pos(), 1),
                u_ok_at(sz, s0.pos(), 1),
                l0 == reorder_cmds(d, sz, s0.pos() + 1, 0, numRefIdxActive, maxPicNum, old(pRefPicListReordering).command@),
            ensures
                in_stream(pStrmData),
                pStrmData.same_stream(&s0),
                pRefPicListReordering.refPicListReorderingFlagL0 == tmp,
                l0.0,
                l0.1 == pRefPicListReordering.command@,
                l0.2 == pStrmData.pos(),
                l0.3 == i,
            decreases 17 - i,
        {
            reveal(reordering_syntax);
            let ghost q = pStrmData.pos();
            let ghost cmds = pRefPicListReordering.command@;
            proof {
                lemma_ue_next(pStrmData, q);
                lemma_ue_next(pStrmData, ue_next(pStrmData, q));
            }
            if i > numRefIdxActive {
                return HANTRO_NOK;
            }
            let mut command: u32 = 0;
            let tmp2 = h264bsdDecodeExpGolombUnsigned(pStrmData, &mut command);
            if tmp2 != HANTRO_OK {
                return tmp2;
            }
            if command > 3 {
                return HANTRO_NOK;
            }
            pRefPicListReordering.command[i as usize].reorderingOfPicNumsIdc = command;
            if command == 0 || command == 1 {
                let mut value: u32 = 0;
                let tmp2 = h264bsdDecodeExpGolombUnsigned(pStrmData, &mut value);
                if tmp2 != HANTRO_OK {
                    return tmp2;
                }
                if value >= maxPicNum {
                    return HANTRO_NOK;
                }
                pRefPicListReordering.command[i as usize].absDiffPicNum = value + 1;
            } else if command == 2 {
                let mut value: u32 = 0;
                let tmp2 = h264bsdDecodeExpGolombUnsigned(pStrmData, &mut value);
                if tmp2 != HANTRO_OK {
                    return tmp2;
                }
                pRefPicListReordering.command[i as usize].longTermPicNum = value;
            }
            proof {
                let c = ue_value_at(d, sz, q);
                let cmd0 = refPicListReorderingOperation_t { reorderingOfPicNumsIdc: c, ..cmds[i as int] };
                let v = ue_value_at(d, sz, ue_next_at(d, sz, q));
                let cmd = if c <= 1 {
                    refPicListReorderingOperation_t { absDiffPicNum: (v + 1) as u32, ..cmd0 }
                } else if c == 2 {
                    refPicListReorderingOperation_t { longTermPicNum: v, ..cmd0 }
                } else {
                    cmd0
                };
                assert(pRefPicListReordering.command@ =~= cmds.update(i as int, cmd));
            }
            i += 1;
            if command == 3 {
                break;
            }
        }
        /* there shall be at least one reordering command if
         * refPicListReorderingFlagL0 was set */
        if i == 1 {
            return HANTRO_NOK;
        }
    }
    HANTRO_OK
}

// ---------------------------------------------------------------------------
// dec_ref_pic_marking()
// ---------------------------------------------------------------------------

/// Reference picture marking as values.
#[verifier::ext_equal]
pub struct MarkingModel {
    pub noOutputOfPriorPicsFlag: u32,
    pub longTermReferenceFlag: u32,
    pub adaptiveRefPicMarkingModeFlag: u32,
    pub operation: Seq<memoryManagementOperation_t>,
}

impl decRefPicMarking_t {
    pub open spec fn model(&self) -> MarkingModel {
        MarkingModel {
            noOutputOfPriorPicsFlag: self.noOutputOfPriorPicsFlag,
            longTermReferenceFlag: self.longTermReferenceFlag,
            adaptiveRefPicMarkingModeFlag: self.adaptiveRefPicMarkingModeFlag,
            operation: self.operation@,
        }
    }
}

/// How many operations of the kinds that may occur at most once (4, 5
/// and 6) or not together with 5 (1 to 3) a list holds.
pub struct MmcoCounts {
    pub n4: nat,
    pub n5: nat,
    pub n6: nat,
    pub n1to3: nat,
}

/// The counts after one more operation `o`.
pub open spec fn count_op(c: MmcoCounts, o: u32) -> MmcoCounts {
    MmcoCounts {
        n4: if o == 4 { c.n4 + 1 } else { c.n4 },
        n5: if o == 5 { c.n5 + 1 } else { c.n5 },
        n6: if o == 6 { c.n6 + 1 } else { c.n6 },
        n1to3: if 1 <= o <= 3 { c.n1to3 + 1 } else { c.n1to3 },
    }
}

/// Memory management operations `i..` at `p`, at most
/// `2 * numRefFrames + 3` of them, the last one being 0: (decoded,
/// operations, end, counts).
pub open spec fn mmco_ops(
    d: Seq<u8>,
    sz: nat,
    p: int,
    i: nat,
    numRefFrames: u32,
    ops: Seq<memoryManagementOperation_t>,
    c: MmcoCounts,
) -> (bool, Seq<memoryManagementOperation_t>, int, MmcoCounts)
    decreases 35 - i,
{
    let o = ue_value_at(d, sz, p);
    let q = ue_next_at(d, sz, p);
    let v = ue_value_at(d, sz, q);
    let q1 = ue_next_at(d, sz, q);
    let w = ue_value_at(d, sz, q1);
    let q2 = ue_next_at(d, sz, q1);
    if i > 2 * numRefFrames + 2 || i >= 35 {
        (false, ops, p, c)
    } else if !ue_ok_at(d, sz, p) || o > 6 {
        (false, ops, q, c)
    } else if (1 <= o <= 4 || o == 6) && !ue_ok_at(d, sz, q) {
        (false, ops, q1, c)
    } else if o == 3 && !ue_ok_at(d, sz, q1) {
        (false, ops, q2, c)
    } else if o == 4 && v > numRefFrames {
        (false, ops, q1, c)
    } else {
        let op0 = memoryManagementOperation_t { memoryManagementControlOperation: o, ..ops[i as int] };
        let op = if o == 1 {
            memoryManagementOperation_t { differenceOfPicNums: v.wrapping_add(1), ..op0 }
        } else if o == 2 {
            memoryManagementOperation_t { longTermPicNum: v, ..op0 }
        } else if o == 3 {
            memoryManagementOperation_t { differenceOfPicNums: v.wrapping_add(1), longTermFrameIdx: w, ..op0 }
        } else if o == 6 {
            memoryManagementOperation_t { longTermFrameIdx: v, ..op0 }
        } else if o == 4 {
            memoryManagementOperation_t {
                maxLongTermFrameIdx: if v == 0 {
                    NO_LONG_TERM_FRAME_INDICES
                } else {
                    (v - 1) as u32
                },
                ..op0
            }
        } else {
            op0
        };
        let ops1 = ops.update(i as int, op);
        let next = if o == 3 {
            q2
        } else if 1 <= o <= 4 || o == 6 {
            q1
        } else {
            q
        };
        let c1 = count_op(c, o);
        if o == 0 {
            (true, ops1, next, c1)
        } else {
            mmco_ops(d, sz, next, i + 1, numRefFrames, ops1, c1)
        }
    }
}

/// The dec_ref_pic_marking() syntax at `p` of a NAL unit of type
/// `nalUnitType`, written over `m`.
#[verifier::opaque]
pub open spec fn marking_syntax(
    d: Seq<u8>,
    sz: nat,
    p: int,
    m: MarkingModel,
    nalUnitType: u32,
    numRefFrames: u32,
) -> (bool, MarkingModel, int) {
    let f = u_val_at(d, sz, p, 1);
    if nalUnitType == NAL_CODED_SLICE_IDR {
        let lt = u_val_at(d, sz, p + 1, 1);
        if !u_ok_at(sz, p, 2) || (numRefFrames == 0 && lt != 0) {
            (false, m, p + 2)
        } else {
            (true, MarkingModel { noOutputOfPriorPicsFlag: f, longTermReferenceFlag: lt, ..m }, p + 2)
        }
    } else if !u_ok_at(sz, p, 1) {
        (false, m, p + 1)
    } else if f == 0 {
        (true, MarkingModel { adaptiveRefPicMarkingModeFlag: f, ..m }, p + 1)
    } else {
        let l = mmco_ops(d, sz, p + 1, 0, numRefFrames, m.operation, MmcoCounts { n4: 0, n5: 0, n6: 0, n1to3: 0 });
        let c = l.3;
        (
            l.0 && c.n4 <= 1 && c.n5 <= 1 && c.n6 <= 1 && (c.n1to3 == 0 || c.n5 == 0),
            MarkingModel { adaptiveRefPicMarkingModeFlag: f, operation: l.1, ..m },
            l.2,
        )
    }
}

/// Decode dec_ref_pic_marking() into `pDecRefPicMarking`.
fn DecRefPicMarking(
    pStrmData: &mut strmData_t,
    pDecRefPicMarking: &mut decRefPicMarking_t,
    nalUnitType: nalUnitType_e,
    numRefFrames: u32,
) -> (r: u32)
    requires
        in_stream(old(pStrmData)),
        numRefFrames <= 16,
    ensures
        final(pStrmData).wf(),
        final(pStrmData).same_stream(old(pStrmData)),
        step_done(
            r,
            marking_syntax(
                old(pStrmData).data(),
                old(pStrmData).size(),
                old(pStrmData).pos(),
                old(pDecRefPicMarking).model(),
                nalUnitType,
                numRefFrames,
            ),
            final(pDecRefPicMarking).model(),
            final(pStrmData),
        ),
{
    reveal(marking_syntax);
    let ghost s0 = *pStrmData;
    let ghost d = s0.data();
    let ghost sz = s0.size();
    proof {
        lemma_get_bits(&s0, s0.pos(), 1);
        lemma_get_bits(&s0, s0.pos() + 1, 1);
    }
    if nalUnitType == NAL_CODED_SLICE_IDR {
        let tmp = h264bsdGetBits(pStrmData, 1);
        if tmp == END_OF_STREAM {
            return HANTRO_NOK;
        }
        pDecRefPicMarking.noOutputOfPriorPicsFlag = tmp;
        let tmp = h264bsdGetBits(pStrmData, 1);
        if tmp == END_OF_STREAM {
            return HANTRO_NOK;
        }
        pDecRefPicMarking.longTermReferenceFlag = tmp;
        if numRefFrames == 0 && pDecRefPicMarking.longTermReferenceFlag != 0 {
            return HANTRO_NOK;
        }
    } else {
        let tmp = h264bsdGetBits(pStrmData, 1);
        if tmp == END_OF_STREAM {
            return HANTRO_NOK;
        }
        pDecRefPicMarking.adaptiveRefPicMarkingModeFlag = tmp;
        if pDecRefPicMarking.adaptiveRefPicMarkingModeFlag != 0 {
            let ghost l0 = mmco_ops(
                d,
                sz,
                s0.pos() + 1,
                0,
                numRefFrames,
                old(pDecRefPicMarking).operation@,
                MmcoCounts { n4: 0, n5: 0, n6: 0, n1to3: 0 },
            );
            /* numbers of operations of the kinds that are limited */
            let mut num4: u32 = 0;
            let mut num5: u32 = 0;
            let mut num6: u32 = 0;
            let mut num1to3: u32 = 0;
            let mut i: u32 = 0;
            loop
                invariant_except_break
                    l0 == mmco_ops(
                        d,
                        sz,
                        pStrmData.pos(),
                        i as nat,
                        numRefFrames,
                        pDecRefPicMarking.operation@,
                        MmcoCounts { n4: num4 as nat, n5: num5 as nat, n6: num6 as nat, n1to3: num1to3 as nat },
                    ),
                invariant
                    in_stream(pStrmData),
                    pStrmData.same_stream(&s0),
                    s0 == *old(pStrmData),
                    d == s0.data(),
                    sz == s0.size(),
                    numRefFrames <= 16,
                    nalUnitType != NAL_CODED_SLICE_IDR,
                    i <= 35,
                    num4 <= i && num5 <= i && num6 <= i && num1to3 <= i,
                    pDecRefPicMarking.adaptiveRefPicMarkingModeFlag == tmp,
                    pDecRefPicMarking.noOutputOfPriorPicsFlag == old(pDecRefPicMarking).noOutputOfPriorPicsFlag,
                    pDecRefPicMarking.longTermReferenceFlag == old(pDecRefPicMarking).longTermReferenceFlag,
                    tmp != 0,
                    tmp == u_val_at(d, sz, s0.pos(), 1),
                    u_ok_at(sz, s0.pos(), 1),
                    l0 == mmco_ops(
                        d,
                        sz,
                        s0.pos() + 1,
                        0,
                        numRefFrames,
                        old(pDecRefPicMarking).operation@,
                        MmcoCounts { n4: 0, n5: 0, n6: 0, n1to3: 0 },
                    ),
                ensures
                    in_stream(pStrmData),
                    pStrmData.same_stream(&s0),
                    pDecRefPicMarking.adaptiveRefPicMarkingModeFlag == tmp,
                    pDecRefPicMarking.noOutputOfPriorPicsFlag == old(pDecRefPicMarking).noOutputOfPriorPicsFlag,
                    pDecRefPicMarking.longTermReferenceFlag == old(pDecRefPicMarking).longTermReferenceFlag,
                    l0.0,
                    l0.1 == pDecRefPicMarking.operation@,
                    l0.2 == pStrmData.pos(),
                    l0.3 == (MmcoCounts { n4: num4 as nat, n5: num5 as nat, n6: num6 as nat, n1to3: num1to3 as nat }),
                decreases 35 - i,
            {
                reveal(marking_syntax);
                let ghost q = pStrmData.pos();
                let ghost ops = pDecRefPicMarking.operation@;
                proof {
                    lemma_ue_next(pStrmData, q);
                    lemma_ue_next(pStrmData, ue_next(pStrmData, q));
                    lemma_ue_next(pStrmData, ue_next(pStrmData, ue_next(pStrmData, q)));
                }
                /* see explanation of the MAX_NUM_MMC_OPERATIONS in
                 * slice_header.h */
                if i > 2 * numRefFrames + 2 {
                    return HANTRO_NOK;
                }
                let mut operation: u32 = 0;
                let tmp2 = h264bsdDecodeExpGolombUnsigned(pStrmData, &mut operation);
                if tmp2 != HANTRO_OK {
                    return tmp2;
                }
                if operation > 6 {
                    return HANTRO_NOK;
                }
                pDecRefPicMarking.operation[i as usize].memoryManagementControlOperation = operation;
                let mut value: u32 = 0;
                if operation == 1 || operation == 3 {
                    let tmp2 = h264bsdDecodeExpGolombUnsigned(pStrmData, &mut value);
                    if tmp2 != HANTRO_OK {
                        return tmp2;
                    }
                    pDecRefPicMarking.operation[i as usize].differenceOfPicNums = value.wrapping_add(1);
                }
                if operation == 2 {
                    let tmp2 = h264bsdDecodeExpGolombUnsigned(pStrmData, &mut value);
                    if tmp2 != HANTRO_OK {
                        return tmp2;
                    }
                    pDecRefPicMarking.operation[i as usize].longTermPicNum = value;
                }
                if operation == 3 || operation == 6 {
                    let tmp2 = h264bsdDecodeExpGolombUnsigned(pStrmData, &mut value);
                    if tmp2 != HANTRO_OK {
                        return tmp2;
                    }
                    pDecRefPicMarking.operation[i as usize].longTermFrameIdx = value;
                }
                if operation == 4 {
                    let tmp2 = h264bsdDecodeExpGolombUnsigned(pStrmData, &mut value);
                    if tmp2 != HANTRO_OK {
                        return tmp2;
                    }
                    if value > numRefFrames {
                        return HANTRO_NOK;
                    }
                    if value == 0 {
                        pDecRefPicMarking.operation[i as usize].maxLongTermFrameIdx = NO_LONG_TERM_FRAME_INDICES;
                    } else {
                        pDecRefPicMarking.operation[i as usize].maxLongTermFrameIdx = value - 1;
                    }
                    num4 += 1;
                }
                if operation == 5 {
                    num5 += 1;
                }
                if operation != 0 && operation <= 3 {
                    num1to3 += 1;
                }
                if operation == 6 {
                    num6 += 1;
                }
                proof {
                    let o = ue_value_at(d, sz, q);
                    let qq = ue_next_at(d, sz, q);
                    let v = ue_value_at(d, sz, qq);
                    let w = ue_value_at(d, sz, ue_next_at(d, sz, qq));
                    let op0 = memoryManagementOperation_t { memoryManagementControlOperation: o, ..ops[i as int] };
                    let op = if o == 1 {
                        memoryManagementOperation_t { differenceOfPicNums: v.wrapping_add(1), ..op0 }
                    } else if o == 2 {
                        memoryManagementOperation_t { longTermPicNum: v, ..op0 }
                    } else if o == 3 {
                        memoryManagementOperation_t { differenceOfPicNums: v.wrapping_add(1), longTermFrameIdx: w, ..op0 }
                    } else if o == 6 {
                        memoryManagementOperation_t { longTermFrameIdx: v, ..op0 }
                    } else if o == 4 {
                        memoryManagementOperation_t {
                            maxLongTermFrameIdx: if v == 0 {
                                NO_LONG_TERM_FRAME_INDICES
                            } else {
                                (v - 1) as u32
                            },
                            ..op0
                        }
                    } else {
                        op0
                    };
                    assert(pDecRefPicMarking.operation@ =~= ops.update(i as int, op));
                }
                i += 1;
                if operation == 0 {
                    break;
                }
            }
            if num4 > 1 || num5 > 1 || num6 > 1 || (num1to3 != 0 && num5 != 0) {
                return HANTRO_NOK;
            }
        }
    }
    HANTRO_OK
}

// ---------------------------------------------------------------------------
// slice_group_change_cycle
// ---------------------------------------------------------------------------

/// The least `k >= from` (at most 31) with `2^k >= x`.
pub open spec fn least_pow2_at_least(x: nat, from: nat) -> nat
    decreases 31 - from,
{
    if from >= 31 || pow2(from) >= x {
        from
    } else {
        least_pow2_at_least(x, from + 1)
    }
}

/// picSizeInMbs / sliceGroupChangeRate rounded up, plus one (both
/// divisions give 0 for a zero rate).
pub open spec fn change_cycle_range(picSizeInMbs: u32, rate: u32) -> nat {
    if rate == 0 {
        1
    } else if picSizeInMbs % rate != 0 {
        (2 + picSizeInMbs / rate) as nat
    } else {
        (1 + picSizeInMbs / rate) as nat
    }
}

/// Bits of slice_group_change_cycle: Ceil(Log2(picSizeInMbs ÷
/// sliceGroupChangeRate + 1)), with a non-truncating division.
pub open spec fn change_cycle_bits(picSizeInMbs: u32, rate: u32) -> nat {
    least_pow2_at_least(change_cycle_range(picSizeInMbs, rate), 0)
}

/// Number of bits of slice_group_change_cycle for a picture of
/// `picSizeInMbs` macroblocks and the given change rate.
fn NumSliceGroupChangeCycleBits(picSizeInMbs: u32, sliceGroupChangeRate: u32) -> (numBits: u32)
    requires
        change_cycle_range(picSizeInMbs, sliceGroupChangeRate) < 0x8000_0000,
    ensures
        numBits as nat == change_cycle_bits(picSizeInMbs, sliceGroupChangeRate),
        numBits <= 31,
{
    let tmp: u32 = if crate::util::urem(picSizeInMbs, sliceGroupChangeRate) != 0 {
        2 + crate::util::udiv(picSizeInMbs, sliceGroupChangeRate)
    } else {
        1 + crate::util::udiv(picSizeInMbs, sliceGroupChangeRate)
    };
    let mut numBits: u32 = 0;
    proof {
        lemma2_to64();
    }
    while numBits < 31 && (1u32 << numBits) < tmp
        invariant
            numBits <= 31,
            tmp as nat == change_cycle_range(picSizeInMbs, sliceGroupChangeRate),
            least_pow2_at_least(tmp as nat, numBits as nat) == change_cycle_bits(picSizeInMbs, sliceGroupChangeRate),
        decreases 31 - numBits,
    {
        proof {
            vstd::bits::lemma_u32_pow2_no_overflow(numBits as nat);
            vstd::bits::lemma_u32_shl_is_mul(1u32, numBits);
        }
        numBits += 1;
    }
    proof {
        if numBits < 31 {
            vstd::bits::lemma_u32_pow2_no_overflow(numBits as nat);
            vstd::bits::lemma_u32_shl_is_mul(1u32, numBits);
        }
    }
    numBits
}

// ---------------------------------------------------------------------------
// slice_header()
// ---------------------------------------------------------------------------

/// A slice header as values.
#[verifier::ext_equal]
pub struct ShModel {
    pub firstMbInSlice: u32,
    pub sliceType: u32,
    pub picParameterSetId: u32,
    pub frameNum: u32,
    pub idrPicId: u32,
    pub picOrderCntLsb: u32,
    pub deltaPicOrderCntBottom: i32,
    pub deltaPicOrderCnt: Seq<i32>,
    pub redundantPicCnt: u32,
    pub numRefIdxActiveOverrideFlag: u32,
    pub numRefIdxL0Active: u32,
    pub sliceQpDelta: i32,
    pub disableDeblockingFilterIdc: u32,
    pub sliceAlphaC0Offset: i32,
    pub sliceBetaOffset: i32,
    pub sliceGroupChangeCycle: u32,
    pub refPicListReordering: ReorderingModel,
    pub decRefPicMarking: MarkingModel,
}

impl sliceHeader_t {
    pub open spec fn model(&self) -> ShModel {
        ShModel {
            firstMbInSlice: self.firstMbInSlice,
            sliceType: self.sliceType,
            picParameterSetId: self.picParameterSetId,
            frameNum: self.frameNum,
            idrPicId: self.idrPicId,
            picOrderCntLsb: self.picOrderCntLsb,
            deltaPicOrderCntBottom: self.deltaPicOrderCntBottom,
            deltaPicOrderCnt: self.deltaPicOrderCnt@,
            redundantPicCnt: self.redundantPicCnt,
            numRefIdxActiveOverrideFlag: self.numRefIdxActiveOverrideFlag,
            numRefIdxL0Active: self.numRefIdxL0Active,
            sliceQpDelta: self.sliceQpDelta,
            disableDeblockingFilterIdc: self.disableDeblockingFilterIdc,
            sliceAlphaC0Offset: self.sliceAlphaC0Offset,
            sliceBetaOffset: self.sliceBetaOffset,
            sliceGroupChangeCycle: self.sliceGroupChangeCycle,
            refPicListReordering: self.refPicListReordering.model(),
            decRefPicMarking: self.decRefPicMarking.model(),
        }
    }

    /// All fields zero.
    pub fn zeroed() -> (r: Self)
        ensures
            r.model() == sh_zero(),
    {
        let cmd = refPicListReorderingOperation_t { reorderingOfPicNumsIdc: 0, absDiffPicNum: 0, longTermPicNum: 0 };
        let op = memoryManagementOperation_t {
            memoryManagementControlOperation: 0,
            differenceOfPicNums: 0,
            longTermPicNum: 0,
            longTermFrameIdx: 0,
            maxLongTermFrameIdx: 0,
        };
        let r = sliceHeader_t {
            firstMbInSlice: 0,
            sliceType: 0,
            picParameterSetId: 0,
            frameNum: 0,
            idrPicId: 0,
            picOrderCntLsb: 0,
            deltaPicOrderCntBottom: 0,
            deltaPicOrderCnt: [0; 2],
            redundantPicCnt: 0,
            numRefIdxActiveOverrideFlag: 0,
            numRefIdxL0Active: 0,
            sliceQpDelta: 0,
            disableDeblockingFilterIdc: 0,
            sliceAlphaC0Offset: 0,
            sliceBetaOffset: 0,
            sliceGroupChangeCycle: 0,
            refPicListReordering: refPicListReordering_t { refPicListReorderingFlagL0: 0, command: [cmd; 17] },
            decRefPicMarking: decRefPicMarking_t {
                noOutputOfPriorPicsFlag: 0,
                longTermReferenceFlag: 0,
                adaptiveRefPicMarkingModeFlag: 0,
                operation: [op; 35],
            },
        };
        assert(r.deltaPicOrderCnt@ =~= Seq::new(2, |i: int| 0i32));
        assert(r.refPicListReordering.command@ =~= Seq::new(17, |i: int| cmd));
        assert(r.decRefPicMarking.operation@ =~= Seq::new(35, |i: int| op));
        r
    }
}

/// A slice header that is all zero.
pub open spec fn sh_zero() -> ShModel {
    ShModel {
        firstMbInSlice: 0,
        sliceType: 0,
        picParameterSetId: 0,
        frameNum: 0,
        idrPicId: 0,
        picOrderCntLsb: 0,
        deltaPicOrderCntBottom: 0,
        deltaPicOrderCnt: Seq::new(2, |i: int| 0i32),
        redundantPicCnt: 0,
        numRefIdxActiveOverrideFlag: 0,
        numRefIdxL0Active: 0,
        sliceQpDelta: 0,
        disableDeblockingFilterIdc: 0,
        sliceAlphaC0Offset: 0,
        sliceBetaOffset: 0,
        sliceGroupChangeCycle: 0,
        refPicListReordering: ReorderingModel {
            flag: 0,
            command: Seq::new(
                17,
                |i: int| refPicListReorderingOperation_t { reorderingOfPicNumsIdc: 0, absDiffPicNum: 0, longTermPicNum: 0 },
            ),
        },
        decRefPicMarking: MarkingModel {
            noOutputOfPriorPicsFlag: 0,
            longTermReferenceFlag: 0,
            adaptiveRefPicMarkingModeFlag: 0,
            operation: Seq::new(
                35,
                |i: int|
                    memoryManagementOperation_t {
                        memoryManagementControlOperation: 0,
                        differenceOfPicNums: 0,
                        longTermPicNum: 0,
                        longTermFrameIdx: 0,
                        maxLongTermFrameIdx: 0,
                    },
            ),
        },
    }
}

/// An I slice type.
pub open spec fn is_i_slice(t: u32) -> bool {
    t == 2 || t == 7
}

/// A P slice type.
pub open spec fn is_p_slice(t: u32) -> bool {
    t == 0 || t == 5
}

/// Macroblocks in a picture of the sequence.
pub open spec fn pic_size(sps: SpsModel) -> int {
    sps.picWidthInMbs * sps.picHeightInMbs
}

/// first_mb_in_slice, slice_type, pic_parameter_set_id, frame_num and
/// idr_pic_id at `p`.
#[verifier::opaque]
pub open spec fn sh_head(
    d: Seq<u8>,
    sz: nat,
    p: int,
    m: ShModel,
    sps: SpsModel,
    pps: PpsModel,
    nal: nalUnit_t,
) -> (bool, ShModel, int) {
    let q1 = ue_next_at(d, sz, p);
    let q2 = ue_next_at(d, sz, q1);
    let q3 = ue_next_at(d, sz, q2);
    let t = ue_value_at(d, sz, q1);
    let fnb = field_bits(sps.maxFrameNum);
    let q4 = q3 + fnb;
    let fnum = u_val_at(d, sz, q3, fnb);
    let idr = nal.nalUnitType == NAL_CODED_SLICE_IDR;
    let q5 = if idr { ue_next_at(d, sz, q4) } else { q4 };
    if !ue_ok_at(d, sz, p) || ue_value_at(d, sz, p) >= pic_size(sps) || !ue_ok_at(d, sz, q1) || (!is_i_slice(t)
        && (!is_p_slice(t) || idr || sps.numRefFrames == 0)) || !ue_ok_at(d, sz, q2) || ue_value_at(d, sz, q2)
        != pps.picParameterSetId || !u_ok_at(sz, q3, fnb) || (idr && fnum != 0) || (idr && (!ue_ok_at(d, sz, q4)
        || ue_value_at(d, sz, q4) > 65535)) {
        (false, m, q5)
    } else {
        (
            true,
            ShModel {
                firstMbInSlice: ue_value_at(d, sz, p),
                sliceType: t,
                picParameterSetId: ue_value_at(d, sz, q2),
                frameNum: fnum,
                idrPicId: if idr {
                    ue_value_at(d, sz, q4)
                } else {
                    m.idrPicId
                },
                ..m
            },
            q5,
        )
    }
}

/// The smaller of two numbers.
pub open spec fn min_i32(a: i32, b: i32) -> i32 {
    if a < b {
        a
    } else {
        b
    }
}

/// The picture order count fields at `p`; for an IDR picture its picture
/// order count must come out zero.
#[verifier::opaque]
pub open spec fn sh_poc(
    d: Seq<u8>,
    sz: nat,
    p: int,
    m: ShModel,
    sps: SpsModel,
    pps: PpsModel,
    nal: nalUnit_t,
) -> (bool, ShModel, int) {
    let idr = nal.nalUnitType == NAL_CODED_SLICE_IDR;
    let present = pps.picOrderPresentFlag != 0;
    if sps.picOrderCntType == 0 {
        let lb = field_bits(sps.maxPicOrderCntLsb);
        let lsb = u_val_at(d, sz, p, lb);
        let a = p + lb;
        let end = if present { ue_next_at(d, sz, a) } else { a };
        let bottom = if present { se_value_at(d, sz, a) } else { m.deltaPicOrderCntBottom };
        if !u_ok_at(sz, p, lb) || (present && !se_ok_at(d, sz, a)) || (idr && (lsb > sps.maxPicOrderCntLsb / 2
            || min_i32(lsb as i32, (lsb as i32).wrapping_add(bottom)) != 0)) {
            (false, m, end)
        } else {
            (true, ShModel { picOrderCntLsb: lsb, deltaPicOrderCntBottom: bottom, ..m }, end)
        }
    } else if sps.picOrderCntType == 1 && sps.deltaPicOrderAlwaysZeroFlag == 0 {
        let a = ue_next_at(d, sz, p);
        let end = if present { ue_next_at(d, sz, a) } else { a };
        let d0 = se_value_at(d, sz, p);
        let d1 = if present { se_value_at(d, sz, a) } else { m.deltaPicOrderCnt[1] };
        if !se_ok_at(d, sz, p) || (present && !se_ok_at(d, sz, a)) || (idr && min_i32(
            d0,
            d0.wrapping_add(sps.offsetForTopToBottomField).wrapping_add(d1),
        ) != 0) {
            (false, m, end)
        } else {
            (true, ShModel { deltaPicOrderCnt: m.deltaPicOrderCnt.update(0, d0).update(1, d1), ..m }, end)
        }
    } else {
        (true, m, p)
    }
}

/// redundant_pic_cnt, num_ref_idx_active_override_flag with
/// num_ref_idx_l0_active_minus1 (P slices), ref_pic_list_reordering() (P
/// slices) and dec_ref_pic_marking() (reference pictures) at `p`.
#[verifier::opaque]
pub open spec fn sh_refs(
    d: Seq<u8>,
    sz: nat,
    p: int,
    m: ShModel,
    sps: SpsModel,
    pps: PpsModel,
    nal: nalUnit_t,
) -> (bool, ShModel, int) {
    let red = pps.redundantPicCntPresentFlag != 0;
    let r1 = if red { ue_next_at(d, sz, p) } else { p };
    let m1 = if red { ShModel { redundantPicCnt: ue_value_at(d, sz, p), ..m } } else { m };
    let pslice = is_p_slice(m.sliceType);
    let ov = u_val_at(d, sz, r1, 1);
    let r2 = if !pslice { r1 } else if ov != 0 { ue_next_at(d, sz, r1 + 1) } else { r1 + 1 };
    let n = if ov != 0 { (ue_value_at(d, sz, r1 + 1) + 1) as u32 } else { pps.numRefIdxL0Active };
    let m2 = if pslice { ShModel { numRefIdxActiveOverrideFlag: ov, numRefIdxL0Active: n, ..m1 } } else { m1 };
    let ro = reordering_syntax(d, sz, r2, m2.refPicListReordering, m2.numRefIdxL0Active, sps.maxFrameNum);
    let r3 = if pslice { ro.2 } else { r2 };
    let m3 = if pslice { ShModel { refPicListReordering: ro.1, ..m2 } } else { m2 };
    let mk = marking_syntax(d, sz, r3, m3.decRefPicMarking, nal.nalUnitType, sps.numRefFrames);
    if red && (!ue_ok_at(d, sz, p) || ue_value_at(d, sz, p) > 127) {
        (false, m, r1)
    } else if pslice && (!u_ok_at(sz, r1, 1) || (ov != 0 && (!ue_ok_at(d, sz, r1 + 1) || ue_value_at(d, sz, r1 + 1)
        > 15)) || (ov == 0 && pps.numRefIdxL0Active > 16)) {
        (false, m1, r2)
    } else if pslice && !ro.0 {
        (false, m2, ro.2)
    } else if nal.nalRefIdc == 0 {
        (true, m3, r3)
    } else {
        (mk.0, ShModel { decRefPicMarking: mk.1, ..m3 }, mk.2)
    }
}

/// slice_qp_delta (the slice QP must lie in [0, 51]), the deblocking
/// filter fields and slice_group_change_cycle at `p`.
#[verifier::opaque]
pub open spec fn sh_tail(d: Seq<u8>, sz: nat, p: int, m: ShModel, sps: SpsModel, pps: PpsModel) -> (
    bool,
    ShModel,
    int,
) {
    let delta = se_value_at(d, sz, p);
    let a = ue_next_at(d, sz, p);
    let dbk = pps.deblockingFilterControlPresentFlag != 0;
    let idc = ue_value_at(d, sz, a);
    let b = ue_next_at(d, sz, a);
    let c = ue_next_at(d, sz, b);
    let e = ue_next_at(d, sz, c);
    let offs = dbk && idc != 1;
    let g = if !dbk { a } else if offs { e } else { b };
    let m1 = ShModel { sliceQpDelta: delta, ..m };
    let m2 = if !dbk {
        m1
    } else if offs {
        ShModel {
            disableDeblockingFilterIdc: idc,
            sliceAlphaC0Offset: (2 * se_value_at(d, sz, b)) as i32,
            sliceBetaOffset: (2 * se_value_at(d, sz, c)) as i32,
            ..m1
        }
    } else {
        ShModel { disableDeblockingFilterIdc: idc, ..m1 }
    };
    let cyc = pps.numSliceGroups > 1 && 3 <= pps.sliceGroupMapType <= 5;
    let size = (sps.picWidthInMbs * sps.picHeightInMbs) as u32;
    let cb = change_cycle_bits(size, pps.sliceGroupChangeRate);
    let cycle = u_val_at(d, sz, g, cb);
    let lim = if pps.sliceGroupChangeRate == 0 {
        0
    } else {
        (size + pps.sliceGroupChangeRate - 1) / (pps.sliceGroupChangeRate as int)
    };
    if !se_ok_at(d, sz, p) || delta + (pps.picInitQp as i32) < 0 || delta + (pps.picInitQp as i32) > 51 {
        (false, m, a)
    } else if dbk && (!ue_ok_at(d, sz, a) || idc > 2 || (idc != 1 && (!se_ok_at(d, sz, b) || se_value_at(d, sz, b)
        < -6 || se_value_at(d, sz, b) > 6 || !se_ok_at(d, sz, c) || se_value_at(d, sz, c) < -6 || se_value_at(d, sz, c)
        > 6))) {
        (false, m1, g)
    } else if !cyc {
        (true, m2, g)
    } else if !u_ok_at(sz, g, cb) || cycle > lim {
        (false, m2, g + cb)
    } else {
        (true, ShModel { sliceGroupChangeCycle: cycle, ..m2 }, g + cb)
    }
}

/// The slice_header() syntax at `p` for the given parameter sets and NAL
/// unit: (decoded, header, end).
pub open spec fn sh_syntax(d: Seq<u8>, sz: nat, p: int, sps: SpsModel, pps: PpsModel, nal: nalUnit_t) -> (
    bool,
    ShModel,
    int,
) {
    let a = sh_head(d, sz, p, sh_zero(), sps, pps, nal);
    let b = sh_poc(d, sz, a.2, a.1, sps, pps, nal);
    let c = sh_refs(d, sz, b.2, b.1, sps, pps, nal);
    let e = sh_tail(d, sz, c.2, c.1, sps, pps);
    if !a.0 {
        a
    } else if !b.0 {
        b
    } else if !c.0 {
        c
    } else {
        e
    }
}

fn read_sh_head(
    pStrmData: &mut strmData_t,
    sh: &mut sliceHeader_t,
    sps: &seqParamSet_t,
    pps: &picParamSet_t,
    nal: &nalUnit_t,
) -> (r: u32)
    requires
        can_parse(old(pStrmData)),
        1 <= sps.maxFrameNum <= 0x7FFF_FFFF,
        sps.picWidthInMbs * sps.picHeightInMbs <= u32::MAX,
    ensures
        final(pStrmData).wf(),
        final(pStrmData).same_stream(old(pStrmData)),
        r == HANTRO_OK ==> final(sh).numRefIdxL0Active == old(sh).numRefIdxL0Active,
        step_done(
            r,
            sh_head(old(pStrmData).data(), old(pStrmData).size(), old(pStrmData).pos(), old(sh).model(), sps.model(), pps.model(), *nal),
            final(sh).model(),
            final(pStrmData),
        ),
{
    reveal(sh_head);
    let ghost s0 = *pStrmData;
    let ghost p = s0.pos();
    let ghost q3 = ue_next(&s0, ue_next(&s0, ue_next(&s0, p)));
    let picSizeInMbs = sps.picWidthInMbs * sps.picHeightInMbs;
    proof {
        lemma_ue_next(&s0, p);
        lemma_ue_next(&s0, ue_next(&s0, p));
        lemma_ue_next(&s0, ue_next(&s0, ue_next(&s0, p)));
        lemma_ue_next(&s0, q3 + field_bits(sps.maxFrameNum));
    }
    let mut value: u32 = 0;
    let tmp = h264bsdDecodeExpGolombUnsigned(pStrmData, &mut value);
    if tmp != HANTRO_OK {
        return tmp;
    }
    sh.firstMbInSlice = value;
    if value >= picSizeInMbs {
        return HANTRO_NOK;
    }
    let tmp = h264bsdDecodeExpGolombUnsigned(pStrmData, &mut value);
    if tmp != HANTRO_OK {
        return tmp;
    }
    sh.sliceType = value;
    /* slice type has to be either I or P slice. P slice is not allowed when
     * current NAL unit is an IDR NAL unit or num_ref_frames is 0 */
    if !IS_I_SLICE(sh.sliceType) && (!IS_P_SLICE(sh.sliceType) || IS_IDR_NAL_UNIT(nal) || sps.numRefFrames == 0) {
        return HANTRO_NOK;
    }
    let tmp = h264bsdDecodeExpGolombUnsigned(pStrmData, &mut value);
    if tmp != HANTRO_OK {
        return tmp;
    }
    sh.picParameterSetId = value;
    if sh.picParameterSetId != pps.picParameterSetId {
        return HANTRO_NOK;
    }
    let i = range_bits(sps.maxFrameNum);
    proof {
        lemma_get_bits(&s0, q3, i as nat);
    }
    let tmp = h264bsdGetBits(pStrmData, i);
    if tmp == END_OF_STREAM {
        return HANTRO_NOK;
    }
    if IS_IDR_NAL_UNIT(nal) && tmp != 0 {
        return HANTRO_NOK;
    }
    sh.frameNum = tmp;
    if IS_IDR_NAL_UNIT(nal) {
        let tmp = h264bsdDecodeExpGolombUnsigned(pStrmData, &mut value);
        if tmp != HANTRO_OK {
            return tmp;
        }
        sh.idrPicId = value;
        if value > 65535 {
            return HANTRO_NOK;
        }
    }
    HANTRO_OK
}

fn read_sh_poc(
    pStrmData: &mut strmData_t,
    sh: &mut sliceHeader_t,
    sps: &seqParamSet_t,
    pps: &picParamSet_t,
    nal: &nalUnit_t,
) -> (r: u32)
    requires
        in_stream(old(pStrmData)),
        sps.picOrderCntType == 0 ==> 1 <= sps.maxPicOrderCntLsb <= 0x7FFF_FFFF,
    ensures
        final(pStrmData).wf(),
        final(pStrmData).same_stream(old(pStrmData)),
        r == HANTRO_OK ==> final(sh).numRefIdxL0Active == old(sh).numRefIdxL0Active,
        r == HANTRO_OK ==> final(sh).sliceType == old(sh).sliceType,
        step_done(
            r,
            sh_poc(old(pStrmData).data(), old(pStrmData).size(), old(pStrmData).pos(), old(sh).model(), sps.model(), pps.model(), *nal),
            final(sh).model(),
            final(pStrmData),
        ),
{
    reveal(sh_poc);
    let ghost s0 = *pStrmData;
    let ghost p = s0.pos();
    if sps.picOrderCntType == 0 {
        let i = range_bits(sps.maxPicOrderCntLsb);
        proof {
            lemma_get_bits(&s0, p, i as nat);
            lemma_ue_next(&s0, p + i);
        }
        let tmp = h264bsdGetBits(pStrmData, i);
        if tmp == END_OF_STREAM {
            return HANTRO_NOK;
        }
        sh.picOrderCntLsb = tmp;
        if pps.picOrderPresentFlag != 0 {
            let mut itmp: i32 = 0;
            let tmp = h264bsdDecodeExpGolombSigned(pStrmData, &mut itmp);
            if tmp != HANTRO_OK {
                return tmp;
            }
            sh.deltaPicOrderCntBottom = itmp;
        }
        /* check that picOrderCnt for IDR picture will be zero. See
         * DecodePicOrderCnt function to understand the logic here */
        let lsb = sh.picOrderCntLsb as i32;
        let sum = lsb.wrapping_add(sh.deltaPicOrderCntBottom);
        if IS_IDR_NAL_UNIT(nal) && (sh.picOrderCntLsb > sps.maxPicOrderCntLsb / 2 || (if lsb < sum {
            lsb
        } else {
            sum
        }) != 0) {
            return HANTRO_NOK;
        }
    }
    if sps.picOrderCntType == 1 && sps.deltaPicOrderAlwaysZeroFlag == 0 {
        proof {
            lemma_ue_next(&s0, p);
            lemma_ue_next(&s0, ue_next(&s0, p));
        }
        let mut itmp: i32 = 0;
        let tmp = h264bsdDecodeExpGolombSigned(pStrmData, &mut itmp);
        if tmp != HANTRO_OK {
            return tmp;
        }
        sh.deltaPicOrderCnt[0] = itmp;
        if pps.picOrderPresentFlag != 0 {
            let tmp = h264bsdDecodeExpGolombSigned(pStrmData, &mut itmp);
            if tmp != HANTRO_OK {
                return tmp;
            }
            sh.deltaPicOrderCnt[1] = itmp;
        }
        /* check that picOrderCnt for IDR picture will be zero. See
         * DecodePicOrderCnt function to understand the logic here */
        let d0 = sh.deltaPicOrderCnt[0];
        let sum = d0.wrapping_add(sps.offsetForTopToBottomField).wrapping_add(sh.deltaPicOrderCnt[1]);
        if IS_IDR_NAL_UNIT(nal) && (if d0 < sum {
            d0
        } else {
            sum
        }) != 0 {
            return HANTRO_NOK;
        }
        proof {
            assert(sh.deltaPicOrderCnt@ =~= old(sh).deltaPicOrderCnt@.update(0, d0).update(1, sh.deltaPicOrderCnt[1]));
        }
    }
    HANTRO_OK
}

fn read_sh_refs(
    pStrmData: &mut strmData_t,
    sh: &mut sliceHeader_t,
    sps: &seqParamSet_t,
    pps: &picParamSet_t,
    nal: &nalUnit_t,
) -> (r: u32)
    requires
        in_stream(old(pStrmData)),
        sps.numRefFrames <= 16,
    ensures
        final(pStrmData).wf(),
        final(pStrmData).same_stream(old(pStrmData)),
        step_done(
            r,
            sh_refs(old(pStrmData).data(), old(pStrmData).size(), old(pStrmData).pos(), old(sh).model(), sps.model(), pps.model(), *nal),
            final(sh).model(),
            final(pStrmData),
        ),
{
    reveal(sh_refs);
    let ghost s0 = *pStrmData;
    let ghost p = s0.pos();
    proof {
        lemma_ue_next(&s0, p);
    }
    if pps.redundantPicCntPresentFlag != 0 {
        let mut value: u32 = 0;
        let tmp = h264bsdDecodeExpGolombUnsigned(pStrmData, &mut value);
        if tmp != HANTRO_OK {
            return tmp;
        }
        sh.redundantPicCnt = value;
        if value > 127 {
            return HANTRO_NOK;
        }
    }
    let ghost r1 = pStrmData.pos();
    proof {
        lemma_get_bits(&s0, r1, 1);
        lemma_ue_next(&s0, r1 + 1);
    }
    if IS_P_SLICE(sh.sliceType) {
        let tmp = h264bsdGetBits(pStrmData, 1);
        if tmp == END_OF_STREAM {
            return HANTRO_NOK;
        }
        sh.numRefIdxActiveOverrideFlag = tmp;
        if sh.numRefIdxActiveOverrideFlag != 0 {
            let mut value: u32 = 0;
            let tmp = h264bsdDecodeExpGolombUnsigned(pStrmData, &mut value);
            if tmp != HANTRO_OK {
                return tmp;
            }
            if value > 15 {
                return HANTRO_NOK;
            }
            sh.numRefIdxL0Active = value + 1;
        } else {
            /* if value (minus1) in picture parameter set exceeds 15 it should
             * have been overridden here */
            if pps.numRefIdxL0Active > 16 {
                return HANTRO_NOK;
            }
            sh.numRefIdxL0Active = pps.numRefIdxL0Active;
        }
        let tmp = RefPicListReordering(pStrmData, &mut sh.refPicListReordering, sh.numRefIdxL0Active, sps.maxFrameNum);
        if tmp != HANTRO_OK {
            return tmp;
        }
    }
    if nal.nalRefIdc != 0 {
        let tmp = DecRefPicMarking(pStrmData, &mut sh.decRefPicMarking, nal.nalUnitType, sps.numRefFrames);
        if tmp != HANTRO_OK {
            return tmp;
        }
    }
    HANTRO_OK
}

/// Preconditions on the active parameter sets that the slice header
/// decoding relies on: frame numbers and POC LSBs of at most 31 bits, a
/// picture size that fits in 32 bits, at most 16 reference frames and a
/// slice group change cycle of at most 31 bits.
pub open spec fn sh_params_ok(sps: SpsModel, pps: PpsModel) -> bool {
    &&& 1 <= sps.maxFrameNum <= 0x7FFF_FFFF
    &&& sps.picOrderCntType == 0 ==> 1 <= sps.maxPicOrderCntLsb <= 0x7FFF_FFFF
    &&& pic_size(sps) <= u32::MAX
    &&& sps.numRefFrames <= 16
    &&& (pps.numSliceGroups > 1 && 3 <= pps.sliceGroupMapType <= 5) ==> {
        &&& change_cycle_range(pic_size(sps) as u32, pps.sliceGroupChangeRate) < 0x8000_0000
        &&& 1 <= pic_size(sps) + pps.sliceGroupChangeRate <= u32::MAX
    }
}

fn read_sh_tail(pStrmData: &mut strmData_t, sh: &mut sliceHeader_t, sps: &seqParamSet_t, pps: &picParamSet_t) -> (r: u32)
    requires
        in_stream(old(pStrmData)),
        sh_params_ok(sps.model(), pps.model()),
    ensures
        final(pStrmData).wf(),
        final(pStrmData).same_stream(old(pStrmData)),
        step_done(
            r,
            sh_tail(old(pStrmData).data(), old(pStrmData).size(), old(pStrmData).pos(), old(sh).model(), sps.model(), pps.model()),
            final(sh).model(),
            final(pStrmData),
        ),
{
    reveal(sh_tail);
    let ghost s0 = *pStrmData;
    let ghost p = s0.pos();
    let ghost a = ue_next(&s0, p);
    proof {
        lemma_ue_next(&s0, p);
        lemma_ue_next(&s0, a);
        lemma_ue_next(&s0, ue_next(&s0, a));
        lemma_ue_next(&s0, ue_next(&s0, ue_next(&s0, a)));
    }
    /* decode sliceQpDelta and check that initial QP for the slice will be on
     * the range [0, 51] */
    let mut itmp: i32 = 0;
    let tmp = h264bsdDecodeExpGolombSigned(pStrmData, &mut itmp);
    if tmp != HANTRO_OK {
        return tmp;
    }
    sh.sliceQpDelta = itmp;
    let qp: i64 = itmp as i64 + (pps.picInitQp as i32) as i64;
    if qp < 0 || qp > 51 {
        return HANTRO_NOK;
    }
    if pps.deblockingFilterControlPresentFlag != 0 {
        let mut value: u32 = 0;
        let tmp = h264bsdDecodeExpGolombUnsigned(pStrmData, &mut value);
        if tmp != HANTRO_OK {
            return tmp;
        }
        sh.disableDeblockingFilterIdc = value;
        if sh.disableDeblockingFilterIdc > 2 {
            return HANTRO_NOK;
        }
        if sh.disableDeblockingFilterIdc != 1 {
            let tmp = h264bsdDecodeExpGolombSigned(pStrmData, &mut itmp);
            if tmp != HANTRO_OK {
                return tmp;
            }
            if itmp < -6 || itmp > 6 {
                return HANTRO_NOK;
            }
            sh.sliceAlphaC0Offset = itmp * 2;
            let tmp = h264bsdDecodeExpGolombSigned(pStrmData, &mut itmp);
            if tmp != HANTRO_OK {
                return tmp;
            }
            if itmp < -6 || itmp > 6 {
                return HANTRO_NOK;
            }
            sh.sliceBetaOffset = itmp * 2;
        }
    }
    if pps.numSliceGroups > 1 && pps.sliceGroupMapType >= 3 && pps.sliceGroupMapType <= 5 {
        let ghost g = pStrmData.pos();
        let picSizeInMbs = sps.picWidthInMbs * sps.picHeightInMbs;
        /* set tmp to number of bits used to represent slice_group_change_cycle
         * in the stream */
        let bits = NumSliceGroupChangeCycleBits(picSizeInMbs, pps.sliceGroupChangeRate);
        proof {
            lemma_get_bits(&s0, g, bits as nat);
        }
        let value = h264bsdGetBits(pStrmData, bits);
        if value == END_OF_STREAM {
            return HANTRO_NOK;
        }
        sh.sliceGroupChangeCycle = value;
        let lim = crate::util::udiv(picSizeInMbs + pps.sliceGroupChangeRate - 1, pps.sliceGroupChangeRate);
        if sh.sliceGroupChangeCycle > lim {
            return HANTRO_NOK;
        }
    }
    HANTRO_OK
}

/// Decode a slice_header() into `pSliceHeader` (cleared first) for the
/// active parameter sets and the NAL unit of the slice.
pub fn h264bsdDecodeSliceHeader(
    pStrmData: &mut strmData_t,
    pSliceHeader: &mut sliceHeader_t,
    pSeqParamSet: &seqParamSet_t,
    pPicParamSet: &picParamSet_t,
    pNalUnit: &nalUnit_t,
) -> (r: u32)
    requires
        can_parse(old(pStrmData)),
        sh_params_ok(pSeqParamSet.model(), pPicParamSet.model()),
    ensures
        final(pStrmData).wf(),
        final(pStrmData).same_stream(old(pStrmData)),
        ({
            let st = sh_syntax(
                old(pStrmData).data(),
                old(pStrmData).size(),
                old(pStrmData).pos(),
                pSeqParamSet.model(),
                pPicParamSet.model(),
                *pNalUnit,
            );
            &&& r == (if st.0 { HANTRO_OK } else { HANTRO_NOK })
            &&& st.0 ==> {
                &&& final(pSliceHeader).model() == st.1
                &&& final(pStrmData).pos() == st.2
            }
        }),
{
    *pSliceHeader = sliceHeader_t::zeroed();
    let tmp = read_sh_head(pStrmData, pSliceHeader, pSeqParamSet, pPicParamSet, pNalUnit);
    if tmp != HANTRO_OK {
        return tmp;
    }
    let tmp = read_sh_poc(pStrmData, pSliceHeader, pSeqParamSet, pPicParamSet, pNalUnit);
    if tmp != HANTRO_OK {
        return tmp;
    }
    let tmp = read_sh_refs(pStrmData, pSliceHeader, pSeqParamSet, pPicParamSet, pNalUnit);
    if tmp != HANTRO_OK {
        return tmp;
    }
    read_sh_tail(pStrmData, pSliceHeader, pSeqParamSet, pPicParamSet)
}

/// A slice header that decodes under picture order count type 0 with
/// delta_pic_order_cnt_bottom present gives the value that
/// `h264bsdCheckDeltaPicOrderCntBottom` peeks: the peek succeeds on that
/// stream and reads the header's delta_pic_order_cnt_bottom.
pub proof fn lemma_peek_delta_poc_bottom(s: strmData_t, sps: seqParamSet_t, pps: picParamSet_t, nal: nalUnit_t)
    requires
        sps.picOrderCntType == 0,
        pps.picOrderPresentFlag != 0,
        sh_syntax(s.strmBuff@, s.strmBuffSize as nat, s.pos(), sps.model(), pps.model(), nal).0,
    ensures
        ({
            let idr = nal.nalUnitType == NAL_CODED_SLICE_IDR;
            let a = after_idr(&s, s.pos(), sps.maxFrameNum, idr) + field_bits(sps.maxPicOrderCntLsb);
            &&& idr_ok(&s, s.pos(), sps.maxFrameNum, idr)
            &&& a <= s.len_bits()
            &&& se_ok(&s, a)
            &&& se_value(&s, a) == sh_syntax(
                s.strmBuff@,
                s.strmBuffSize as nat,
                s.pos(),
                sps.model(),
                pps.model(),
                nal,
            ).1.deltaPicOrderCntBottom
        }),
{
    reveal(sh_head);
    reveal(sh_poc);
    reveal(sh_refs);
    reveal(sh_tail);
}

/// A slice header that decodes with redundant_pic_cnt present gives the
/// value that `h264bsdCheckRedundantPicCnt` peeks: the peek succeeds on
/// that stream and reads the header's redundant_pic_cnt.
pub proof fn lemma_peek_redundant_pic_cnt(s: strmData_t, sps: seqParamSet_t, pps: picParamSet_t, nal: nalUnit_t)
    requires
        pps.redundantPicCntPresentFlag != 0,
        sh_syntax(s.strmBuff@, s.strmBuffSize as nat, s.pos(), sps.model(), pps.model(), nal).0,
    ensures
        ({
            let idr = nal.nalUnitType == NAL_CODED_SLICE_IDR;
            let q = after_idr(&s, s.pos(), sps.maxFrameNum, idr);
            let a = after_poc_from(&s, q, &sps, &pps);
            &&& idr_ok(&s, s.pos(), sps.maxFrameNum, idr)
            &&& poc_ok_from(&s, q, &sps, &pps)
            &&& ue_ok(&s, a)
            &&& ue_writes(&s, a)
            &&& ue_value(&s, a) == sh_syntax(
                s.strmBuff@,
                s.strmBuffSize as nat,
                s.pos(),
                sps.model(),
                pps.model(),
                nal,
            ).1.redundantPicCnt
        }),
{
    reveal(sh_head);
    reveal(sh_poc);
    reveal(sh_refs);
    reveal(sh_tail);
    let idr = nal.nalUnitType == NAL_CODED_SLICE_IDR;
    let q = after_idr(&s, s.pos(), sps.maxFrameNum, idr);
    lemma_ue_next(&s, after_poc_from(&s, q, &sps, &pps));
}

} // verus!

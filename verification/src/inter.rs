//! Motion vector prediction and inter prediction of a macroblock.
use vstd::prelude::*;
use crate::defs::{HANTRO_FALSE, HANTRO_NOK, HANTRO_OK, HANTRO_TRUE};
use crate::util::{udiv, urem};
use crate::dpb::{dpbStorage_t, h264bsdGetRefPicData, ref_pic_data};
use crate::image::{h264bsdSetCurrImageMbPointers, h264bsdWriteMacroblock, image_t};
use crate::intra::{
    block_xy, add_res, block_pos, block_stride, h264bsdAddResidual, in_block4, lemma_blk_grid, lemma_chroma_blocks_apart,
    lemma_luma_blocks_apart, residual_ok,
};
use crate::neighbour::{blk_x, blk_y};
use crate::reconstruct::{at8, mb_at, chroma_pred, in_block, luma_pred, plane_fn, predict_samples_in};
use crate::macroblock::{
    macroblockLayer_t, P_L0_16x16, P_L0_L0_16x8, P_L0_L0_8x16, h264bsdNumSubMbPart, h264bsdSubMbPartMode, mbPred_t, mbStorage_t, mv_t, num_sub_mb_part, subMbPred_t, MB_SP_4x8,
    MB_SP_8x4, MB_SP_8x8, P_8x8, P_8x8ref0, P_Skip,
};
use crate::neighbour::{
    above_left_of, above_of, above_right_of, h264bsdGetNeighbourMb, h264bsdNeighbour4x4BlockA, h264bsdNeighbour4x4BlockB,
    h264bsdNeighbour4x4BlockC, h264bsdNeighbour4x4BlockD, left_of, neighbour_mb, neighbour_t, MB_CURR, MB_NA,
    N_A_4x4B_INDEX, N_B_4x4B_INDEX, N_C_4x4B_INDEX, N_D_4x4B_INDEX,
};

verus! {

/// Availability, reference index and motion vector of a neighbouring
/// partition.
#[derive(Clone, Copy)]
pub struct interNeighbour_t {
    pub available: u32,
    pub refIndex: u32,
    pub mv: mv_t,
}

/// Median of three numbers.
pub open spec fn median3(a: int, b: int, c: int) -> int {
    let lo = if a < b { a } else { b };
    let hi = if a < b { b } else { a };
    if c < lo {
        lo
    } else if c > hi {
        hi
    } else {
        c
    }
}

/// Median filtering for motion vector prediction.
pub fn MedianFilter(a: i32, b: i32, c: i32) -> (med: i32)
    ensures
        med == median3(a as int, b as int, c as int),
{
    let mut max = a;
    let mut min = a;
    let med: i32;
    if b > max {
        max = b;
    } else if b < min {
        min = b;
    }
    if c > max {
        med = max;
    } else if c < min {
        med = min;
    } else {
        med = c;
    }
    med
}

/// The median does not depend on the order of its arguments, and is one
/// of them, between the other two.
pub proof fn lemma_median3_symmetric(a: int, b: int, c: int)
    ensures
        median3(a, b, c) == median3(b, a, c),
        median3(a, b, c) == median3(a, c, b),
        median3(a, b, c) == median3(c, b, a),
        median3(a, b, c) == a || median3(a, b, c) == b || median3(a, b, c) == c,
        (a <= median3(a, b, c) || b <= median3(a, b, c)) && (median3(a, b, c) <= a || median3(a, b, c) <= b),
{
}

/// Motion vector predicted from neighbours A, B and C (for reference index
/// `refIndex`), as a pair of components.
pub open spec fn predicted_mv3(a: interNeighbour_t, b: interNeighbour_t, c: interNeighbour_t, refIndex: u32) -> (int, int) {
    if b.available != 0 || c.available != 0 || a.available == 0 {
        let isA = a.refIndex == refIndex;
        let isB = b.refIndex == refIndex;
        let isC = c.refIndex == refIndex;
        let count = (if isA { 1int } else { 0int }) + (if isB { 1int } else { 0int }) + (if isC { 1int } else { 0int });
        if count != 1 {
            (median3(a.mv.hor as int, b.mv.hor as int, c.mv.hor as int), median3(a.mv.ver as int, b.mv.ver as int, c.mv.ver as int))
        } else if isA {
            (a.mv.hor as int, a.mv.ver as int)
        } else if isB {
            (b.mv.hor as int, b.mv.ver as int)
        } else {
            (c.mv.hor as int, c.mv.ver as int)
        }
    } else {
        (a.mv.hor as int, a.mv.ver as int)
    }
}

/// The predictor of `predicted_mv3` for the three neighbours of `a`.
pub open spec fn predicted_mv(a: [interNeighbour_t; 3], refIndex: u32) -> (int, int) {
    predicted_mv3(a[0], a[1], a[2], refIndex)
}

/// The predictor as a motion vector.
pub open spec fn pred_mv3(a: interNeighbour_t, b: interNeighbour_t, c: interNeighbour_t, refIndex: u32) -> mv_t {
    mv_t { hor: predicted_mv3(a, b, c, refIndex).0 as i16, ver: predicted_mv3(a, b, c, refIndex).1 as i16 }
}

/// Compute the motion vector predictor from neighbours A, B and C: the
/// median of the three, or the only one with the same reference index, or
/// A when only A is available.
pub fn GetPredictionMv(mv: &mut mv_t, a: &[interNeighbour_t; 3], refIndex: u32)
    ensures
        final(mv).hor as int == predicted_mv(*a, refIndex).0,
        final(mv).ver as int == predicted_mv(*a, refIndex).1,
        *final(mv) == pred_mv3(a[0], a[1], a[2], refIndex),
{
    proof {
        lemma_median3_symmetric(a[0].mv.hor as int, a[1].mv.hor as int, a[2].mv.hor as int);
        lemma_median3_symmetric(a[0].mv.ver as int, a[1].mv.ver as int, a[2].mv.ver as int);
    }
    if a[1].available != 0 || a[2].available != 0 || a[0].available == 0 {
        let isA: u32 = if a[0].refIndex == refIndex { HANTRO_TRUE } else { HANTRO_FALSE };
        let isB: u32 = if a[1].refIndex == refIndex { HANTRO_TRUE } else { HANTRO_FALSE };
        let isC: u32 = if a[2].refIndex == refIndex { HANTRO_TRUE } else { HANTRO_FALSE };
        if isA + isB + isC != 1 {
            mv.hor = MedianFilter(a[0].mv.hor as i32, a[1].mv.hor as i32, a[2].mv.hor as i32) as i16;
            mv.ver = MedianFilter(a[0].mv.ver as i32, a[1].mv.ver as i32, a[2].mv.ver as i32) as i16;
        } else if isA != 0 {
            *mv = a[0].mv;
        } else if isB != 0 {
            *mv = a[1].mv;
        } else {
            *mv = a[2].mv;
        }
    } else {
        *mv = a[0].mv;
    }
}


/// No neighbour: not available, reference index -1 and a zero vector.
pub open spec fn no_neighbour() -> interNeighbour_t {
    interNeighbour_t { available: HANTRO_FALSE, refIndex: 0xFFFF_FFFF, mv: mv_t { hor: 0, ver: 0 } }
}

/// Block `index` of macroblock `n` as a neighbour for a macroblock of
/// slice `sliceId`: available when `n` exists in the same slice; its
/// reference index and vector when it is an inter macroblock.
pub open spec fn inter_nbr(mbs: Seq<mbStorage_t>, sliceId: u32, n: Option<usize>, index: int) -> interNeighbour_t {
    match n {
        Some(j) => if mbs[j as int].sliceId == sliceId {
            if mbs[j as int].mbType <= P_8x8ref0 {
                interNeighbour_t {
                    available: HANTRO_TRUE,
                    refIndex: mbs[j as int].refPic@[index / 4],
                    mv: mbs[j as int].mv@[index],
                }
            } else {
                interNeighbour_t { available: HANTRO_TRUE, ..no_neighbour() }
            }
        } else {
            no_neighbour()
        },
        None => no_neighbour(),
    }
}

/// Get availability, reference index and motion vector of block `index`
/// of neighbouring macroblock `nMb`.
fn GetInterNeighbour(sliceId: u32, mbs: &[mbStorage_t], nMb: Option<usize>, n: &mut interNeighbour_t, index: u32)
    requires
        nMb matches Some(j) ==> j < mbs.len(),
        index < 16,
    ensures
        *final(n) == inter_nbr(mbs@, sliceId, nMb, index as int),
{
    n.available = HANTRO_FALSE;
    n.refIndex = 0xFFFF_FFFF;
    n.mv.hor = 0;
    n.mv.ver = 0;
    if let Some(j) = nMb {
        if sliceId == mbs[j].sliceId {
            let tmp = mbs[j].mbType;
            n.available = HANTRO_TRUE;
            if tmp <= P_8x8ref0 {
                let tmpMv = mbs[j].mv[index as usize];
                assert(index >> 2 == index / 4) by (bit_vector);
                n.refIndex = mbs[j].refPic[(index >> 2) as usize];
                n.mv = tmpMv;
            }
        }
    }
}

/// The neighbour C when available, else D.
pub open spec fn c_or_d(c: interNeighbour_t, d: interNeighbour_t) -> interNeighbour_t {
    if c.available == 0 {
        d
    } else {
        c
    }
}

/// A 16-bit component after wrapping addition.
pub open spec fn wrap16(x: int) -> i16 {
    if x > i16::MAX {
        (x - 65536) as i16
    } else if x < i16::MIN {
        (x + 65536) as i16
    } else {
        x as i16
    }
}

/// Motion vector difference `d` added to predictor `p`, each component
/// wrapping at 16 bits.
pub open spec fn mv_add(d: mv_t, p: mv_t) -> mv_t {
    mv_t { hor: wrap16(d.hor + p.hor), ver: wrap16(d.ver + p.ver) }
}

/// The vector lies in the range of the standard: horizontal
/// [-2048, 2047.75], vertical [-512, 511.75] samples.
pub open spec fn mv_in_range(mv: mv_t) -> bool {
    &&& -8192 <= mv.hor < 8192
    &&& -2048 <= mv.ver < 2048
}

/// The zero vector.
pub open spec fn zero_mv() -> mv_t {
    mv_t { hor: 0, ver: 0 }
}

fn add_mv(d: mv_t, p: mv_t) -> (r: mv_t)
    ensures
        r == mv_add(d, p),
{
    mv_t { hor: d.hor.wrapping_add(p.hor), ver: d.ver.wrapping_add(p.ver) }
}

fn mv_ok(mv: &mv_t) -> (r: bool)
    ensures
        r == mv_in_range(*mv),
{
    -8192 <= mv.hor && mv.hor < 8192 && -2048 <= mv.ver && mv.ver < 2048
}

/// The neighbours of the macroblock are in the array and are other
/// macroblocks.
pub open spec fn inter_nbrs_ok(mbs: Seq<mbStorage_t>, cur: int) -> bool {
    &&& 0 <= cur < mbs.len()
    &&& mbs[cur].mbA matches Some(j) ==> j < mbs.len() && j != cur
    &&& mbs[cur].mbB matches Some(j) ==> j < mbs.len() && j != cur
    &&& mbs[cur].mbC matches Some(j) ==> j < mbs.len() && j != cur
    &&& mbs[cur].mbD matches Some(j) ==> j < mbs.len() && j != cur
}

/// All fields of the two macroblock states but the motion (vectors,
/// reference indices and reference memories) agree.
pub open spec fn same_but_motion(x: mbStorage_t, y: mbStorage_t) -> bool {
    &&& x.mbType == y.mbType
    &&& x.sliceId == y.sliceId
    &&& x.disableDeblockingFilterIdc == y.disableDeblockingFilterIdc
    &&& x.filterOffsetA == y.filterOffsetA
    &&& x.filterOffsetB == y.filterOffsetB
    &&& x.qpY == y.qpY
    &&& x.chromaQpIndexOffset == y.chromaQpIndexOffset
    &&& x.totalCoeff == y.totalCoeff
    &&& x.intra4x4PredMode == y.intra4x4PredMode
    &&& x.decoded == y.decoded
    &&& x.mbA == y.mbA
    &&& x.mbB == y.mbB
    &&& x.mbC == y.mbC
    &&& x.mbD == y.mbD
}

/// Motion vector of a 16x16 partition and whether it is acceptable (in
/// range; always for the zero vector of a skipped macroblock).
pub open spec fn mv16x16(mbs: Seq<mbStorage_t>, cur: int, mbPred: mbPred_t) -> (mv_t, bool) {
    let m = mbs[cur];
    let s = m.sliceId;
    let a = inter_nbr(mbs, s, m.mbA, 5);
    let b = inter_nbr(mbs, s, m.mbB, 10);
    if m.mbType == P_Skip && (a.available == 0 || b.available == 0 || a.refIndex == 0 && a.mv == zero_mv() || b.refIndex
        == 0 && b.mv == zero_mv()) {
        (zero_mv(), true)
    } else {
        let c = c_or_d(inter_nbr(mbs, s, m.mbC, 10), inter_nbr(mbs, s, m.mbD, 15));
        let mv = mv_add(mbPred.mvdL0@[0], pred_mv3(a, b, c, mbPred.refIdxL0@[0]));
        (mv, mv_in_range(mv))
    }
}

/// Motion vector prediction for the 16x16 partition: on success every
/// block gets the vector and every 8x8 block the reference index and its
/// memory; on failure nothing changes.
fn MvPrediction16x16(mbs: &mut Vec<mbStorage_t>, cur: usize, mbPred: &mbPred_t, dpb: &dpbStorage_t) -> (r: u32)
    requires
        inter_nbrs_ok(old(mbs)@, cur as int),
        dpb.wf(),
    ensures
        ({
            let (mv, ok) = mv16x16(old(mbs)@, cur as int, *mbPred);
            let d = ref_pic_data(dpb, mbPred.refIdxL0@[0]);
            let m = final(mbs)@[cur as int];
            &&& r == if ok && d is Some { HANTRO_OK } else { HANTRO_NOK }
            &&& final(mbs)@.len() == old(mbs)@.len()
            &&& forall|j: int| 0 <= j < old(mbs)@.len() && j != cur ==> final(mbs)@[j] == old(mbs)@[j]
            &&& same_but_motion(m, old(mbs)@[cur as int])
            &&& r == HANTRO_OK ==> (forall|k: int| 0 <= k < 16 ==> m.mv@[k] == mv) && (forall|k: int|
                0 <= k < 4 ==> m.refPic@[k] == mbPred.refIdxL0@[0] && m.refAddr@[k] == d->0)
            &&& r != HANTRO_OK ==> m == old(mbs)@[cur as int]
        }),
{
    let mut mv = mv_t { hor: 0, ver: 0 };
    let mut mvPred = mv_t { hor: 0, ver: 0 };
    let mut a = [interNeighbour_t { available: 0, refIndex: 0, mv: mv_t { hor: 0, ver: 0 } }; 3];
    let refIndex = mbPred.refIdxL0[0];
    let sliceId = mbs[cur].sliceId;
    let mut n = a[0];
    GetInterNeighbour(sliceId, mbs, mbs[cur].mbA, &mut n, 5);
    a[0] = n;
    GetInterNeighbour(sliceId, mbs, mbs[cur].mbB, &mut n, 10);
    a[1] = n;
    if mbs[cur].mbType == P_Skip && (a[0].available == 0 || a[1].available == 0 || a[0].refIndex == 0 && a[0].mv.hor == 0
        && a[0].mv.ver == 0 || a[1].refIndex == 0 && a[1].mv.hor == 0 && a[1].mv.ver == 0) {
        mv.hor = 0;
        mv.ver = 0;
    } else {
        GetInterNeighbour(sliceId, mbs, mbs[cur].mbC, &mut n, 10);
        if n.available == 0 {
            GetInterNeighbour(sliceId, mbs, mbs[cur].mbD, &mut n, 15);
        }
        a[2] = n;
        GetPredictionMv(&mut mvPred, &a, refIndex);
        mv = add_mv(mbPred.mvdL0[0], mvPred);
        if !mv_ok(&mv) {
            return HANTRO_NOK;
        }
    }
    let tmp = match h264bsdGetRefPicData(dpb, refIndex) {
        Some(t) => t,
        None => {
            return HANTRO_NOK;
        },
    };
    let mut m = mbs[cur];
    m.mv = [mv; 16];
    m.refPic = [refIndex; 4];
    m.refAddr = [tmp; 4];
    mbs.set(cur, m);
    HANTRO_OK
}


/// The current partition as a neighbour: available, with reference index
/// `refIndex` and vector `mv`.
pub open spec fn own_nbr(refIndex: u32, mv: mv_t) -> interNeighbour_t {
    interNeighbour_t { available: HANTRO_TRUE, refIndex, mv }
}

/// Motion vector of the upper 16x8 partition and whether it is in range:
/// the predictor is B when B has the same reference index, else the
/// median prediction.
pub open spec fn mv16x8_0(mbs: Seq<mbStorage_t>, cur: int, mbPred: mbPred_t) -> (mv_t, bool) {
    let m = mbs[cur];
    let s = m.sliceId;
    let ri = mbPred.refIdxL0@[0];
    let b = inter_nbr(mbs, s, m.mbB, 10);
    let p = if b.refIndex == ri {
        b.mv
    } else {
        pred_mv3(inter_nbr(mbs, s, m.mbA, 5), b, c_or_d(inter_nbr(mbs, s, m.mbC, 10), inter_nbr(mbs, s, m.mbD, 15)), ri)
    };
    let mv = mv_add(mbPred.mvdL0@[0], p);
    (mv, mv_in_range(mv))
}

/// Motion vector of the lower 16x8 partition, the upper one having vector
/// `mv0`: the predictor is A when A has the same reference index, else
/// the median of A, the upper partition and A's block 7.
pub open spec fn mv16x8_1(mbs: Seq<mbStorage_t>, cur: int, mbPred: mbPred_t, mv0: mv_t) -> (mv_t, bool) {
    let m = mbs[cur];
    let s = m.sliceId;
    let ri = mbPred.refIdxL0@[1];
    let a = inter_nbr(mbs, s, m.mbA, 13);
    let p = if a.refIndex == ri {
        a.mv
    } else {
        pred_mv3(a, own_nbr(mbPred.refIdxL0@[0], mv0), inter_nbr(mbs, s, m.mbA, 7), ri)
    };
    let mv = mv_add(mbPred.mvdL0@[1], p);
    (mv, mv_in_range(mv))
}

/// Motion vector of the left 8x16 partition: the predictor is A when A
/// has the same reference index, else the median prediction with B's
/// block 14 (or D) for C.
pub open spec fn mv8x16_0(mbs: Seq<mbStorage_t>, cur: int, mbPred: mbPred_t) -> (mv_t, bool) {
    let m = mbs[cur];
    let s = m.sliceId;
    let ri = mbPred.refIdxL0@[0];
    let a = inter_nbr(mbs, s, m.mbA, 5);
    let p = if a.refIndex == ri {
        a.mv
    } else {
        pred_mv3(a, inter_nbr(mbs, s, m.mbB, 10), c_or_d(inter_nbr(mbs, s, m.mbB, 14), inter_nbr(mbs, s, m.mbD, 15)), ri)
    };
    let mv = mv_add(mbPred.mvdL0@[0], p);
    (mv, mv_in_range(mv))
}

/// Motion vector of the right 8x16 partition, the left one having vector
/// `mv0`: the predictor is C (or B's block 11) when it has the same
/// reference index, else the median of the left partition, B's block 14
/// and C.
pub open spec fn mv8x16_1(mbs: Seq<mbStorage_t>, cur: int, mbPred: mbPred_t, mv0: mv_t) -> (mv_t, bool) {
    let m = mbs[cur];
    let s = m.sliceId;
    let ri = mbPred.refIdxL0@[1];
    let c = c_or_d(inter_nbr(mbs, s, m.mbC, 10), inter_nbr(mbs, s, m.mbB, 11));
    let p = if c.refIndex == ri {
        c.mv
    } else {
        pred_mv3(own_nbr(mbPred.refIdxL0@[0], mv0), inter_nbr(mbs, s, m.mbB, 14), c, ri)
    };
    let mv = mv_add(mbPred.mvdL0@[1], p);
    (mv, mv_in_range(mv))
}

/// Block `k` lies in 16x8 partition `p` (upper 0, lower 1).
pub open spec fn in_16x8(p: int, k: int) -> bool {
    8 * p <= k < 8 * p + 8
}

/// Block `k` lies in 8x16 partition `p` (left 0, right 1).
pub open spec fn in_8x16(p: int, k: int) -> bool {
    4 * p <= k < 4 * p + 4 || 8 + 4 * p <= k < 12 + 4 * p
}

/// Motion vector prediction for the two 16x8 partitions, the upper first;
/// each partition that succeeds gets its vector, reference index and
/// memory, and prediction stops at the first that fails.
fn MvPrediction16x8(mbs: &mut Vec<mbStorage_t>, cur: usize, mbPred: &mbPred_t, dpb: &dpbStorage_t) -> (r: u32)
    requires
        inter_nbrs_ok(old(mbs)@, cur as int),
        dpb.wf(),
    ensures
        ({
            let (mv0, in0) = mv16x8_0(old(mbs)@, cur as int, *mbPred);
            let (mv1, in1) = mv16x8_1(old(mbs)@, cur as int, *mbPred, mv0);
            let d0 = ref_pic_data(dpb, mbPred.refIdxL0@[0]);
            let d1 = ref_pic_data(dpb, mbPred.refIdxL0@[1]);
            let ok0 = in0 && d0 is Some;
            let ok1 = in1 && d1 is Some;
            let m = final(mbs)@[cur as int];
            let o = old(mbs)@[cur as int];
            &&& r == if ok0 && ok1 { HANTRO_OK } else { HANTRO_NOK }
            &&& final(mbs)@.len() == old(mbs)@.len()
            &&& forall|j: int| 0 <= j < old(mbs)@.len() && j != cur ==> final(mbs)@[j] == old(mbs)@[j]
            &&& same_but_motion(m, o)
            &&& !ok0 ==> m == o
            &&& ok0 ==> forall|k: int|
                0 <= k < 16 ==> m.mv@[k] == if in_16x8(0, k) {
                    mv0
                } else if ok1 {
                    mv1
                } else {
                    o.mv@[k]
                }
            &&& ok0 ==> forall|k: int|
                0 <= k < 4 ==> m.refPic@[k] == if k < 2 {
                    mbPred.refIdxL0@[0]
                } else if ok1 {
                    mbPred.refIdxL0@[1]
                } else {
                    o.refPic@[k]
                } && m.refAddr@[k] == if k < 2 {
                    d0->0
                } else if ok1 {
                    d1->0
                } else {
                    o.refAddr@[k]
                }
        }),
{
    let mut mvPred = mv_t { hor: 0, ver: 0 };
    let mut a = [interNeighbour_t { available: 0, refIndex: 0, mv: mv_t { hor: 0, ver: 0 } }; 3];
    let sliceId = mbs[cur].sliceId;
    let mut refIndex = mbPred.refIdxL0[0];
    let mut n = a[0];
    GetInterNeighbour(sliceId, mbs, mbs[cur].mbB, &mut n, 10);
    a[1] = n;
    if a[1].refIndex == refIndex {
        mvPred = a[1].mv;
    } else {
        GetInterNeighbour(sliceId, mbs, mbs[cur].mbA, &mut n, 5);
        a[0] = n;
        GetInterNeighbour(sliceId, mbs, mbs[cur].mbC, &mut n, 10);
        if n.available == 0 {
            GetInterNeighbour(sliceId, mbs, mbs[cur].mbD, &mut n, 15);
        }
        a[2] = n;
        GetPredictionMv(&mut mvPred, &a, refIndex);
    }
    let mv0 = add_mv(mbPred.mvdL0[0], mvPred);
    if !mv_ok(&mv0) {
        return HANTRO_NOK;
    }
    let tmp0 = match h264bsdGetRefPicData(dpb, refIndex) {
        Some(t) => t,
        None => {
            return HANTRO_NOK;
        },
    };
    let ghost o = mbs@[cur as int];
    let ghost old_mbs = mbs@;
    let mut m = mbs[cur];
    let mut k: usize = 0;
    while k < 8
        invariant
            k <= 8,
            same_but_motion(m, o),
            m.refPic == o.refPic,
            m.refAddr == o.refAddr,
            forall|i: int| 0 <= i < 16 ==> m.mv@[i] == if i < k { mv0 } else { o.mv@[i] },
        decreases 8 - k,
    {
        m.mv[k] = mv0;
        k += 1;
    }
    m.refPic[0] = refIndex;
    m.refPic[1] = refIndex;
    m.refAddr[0] = tmp0;
    m.refAddr[1] = tmp0;
    proof {
        assert(m.refPic@ =~= seq![refIndex, refIndex, o.refPic@[2], o.refPic@[3]]);
        assert(m.refAddr@ =~= seq![tmp0, tmp0, o.refAddr@[2], o.refAddr@[3]]);
    }
    mbs.set(cur, m);

    refIndex = mbPred.refIdxL0[1];
    proof {
        if let Some(j) = old_mbs[cur as int].mbA {
            assert(mbs@[j as int] == old_mbs[j as int]);
        }
        assert(m.mv@[0] == mv0);
    }
    GetInterNeighbour(sliceId, mbs, mbs[cur].mbA, &mut n, 13);
    a[0] = n;
    if a[0].refIndex == refIndex {
        mvPred = a[0].mv;
    } else {
        a[1] = interNeighbour_t { available: HANTRO_TRUE, refIndex: m.refPic[0], mv: m.mv[0] };
        GetInterNeighbour(sliceId, mbs, mbs[cur].mbA, &mut n, 7);
        a[2] = n;
        GetPredictionMv(&mut mvPred, &a, refIndex);
    }
    let mv1 = add_mv(mbPred.mvdL0[1], mvPred);
    if !mv_ok(&mv1) {
        return HANTRO_NOK;
    }
    let tmp1 = match h264bsdGetRefPicData(dpb, refIndex) {
        Some(t) => t,
        None => {
            return HANTRO_NOK;
        },
    };
    let ghost rp = m.refPic;
    let ghost ra = m.refAddr;
    while k < 16
        invariant
            8 <= k <= 16,
            same_but_motion(m, o),
            m.refPic == rp,
            m.refAddr == ra,
            forall|i: int| 0 <= i < 16 ==> m.mv@[i] == if i < 8 { mv0 } else if i < k { mv1 } else { o.mv@[i] },
        decreases 16 - k,
    {
        m.mv[k] = mv1;
        k += 1;
    }
    m.refPic[2] = refIndex;
    m.refPic[3] = refIndex;
    m.refAddr[2] = tmp1;
    m.refAddr[3] = tmp1;
    proof {
        assert(m.refPic@ =~= seq![mbPred.refIdxL0@[0], mbPred.refIdxL0@[0], refIndex, refIndex]);
        assert(m.refAddr@ =~= seq![tmp0, tmp0, tmp1, tmp1]);
    }
    mbs.set(cur, m);
    HANTRO_OK
}


/// Motion vector prediction for the two 8x16 partitions, the left first;
/// each partition that succeeds gets its vector, reference index and
/// memory, and prediction stops at the first that fails.
fn MvPrediction8x16(mbs: &mut Vec<mbStorage_t>, cur: usize, mbPred: &mbPred_t, dpb: &dpbStorage_t) -> (r: u32)
    requires
        inter_nbrs_ok(old(mbs)@, cur as int),
        dpb.wf(),
    ensures
        ({
            let (mv0, in0) = mv8x16_0(old(mbs)@, cur as int, *mbPred);
            let (mv1, in1) = mv8x16_1(old(mbs)@, cur as int, *mbPred, mv0);
            let d0 = ref_pic_data(dpb, mbPred.refIdxL0@[0]);
            let d1 = ref_pic_data(dpb, mbPred.refIdxL0@[1]);
            let ok0 = in0 && d0 is Some;
            let ok1 = in1 && d1 is Some;
            let m = final(mbs)@[cur as int];
            let o = old(mbs)@[cur as int];
            &&& r == if ok0 && ok1 { HANTRO_OK } else { HANTRO_NOK }
            &&& final(mbs)@.len() == old(mbs)@.len()
            &&& forall|j: int| 0 <= j < old(mbs)@.len() && j != cur ==> final(mbs)@[j] == old(mbs)@[j]
            &&& same_but_motion(m, o)
            &&& !ok0 ==> m == o
            &&& ok0 ==> forall|k: int|
                0 <= k < 16 ==> m.mv@[k] == if in_8x16(0, k) {
                    mv0
                } else if ok1 {
                    mv1
                } else {
                    o.mv@[k]
                }
            &&& ok0 ==> forall|k: int|
                0 <= k < 4 ==> m.refPic@[k] == if k % 2 == 0 {
                    mbPred.refIdxL0@[0]
                } else if ok1 {
                    mbPred.refIdxL0@[1]
                } else {
                    o.refPic@[k]
                } && m.refAddr@[k] == if k % 2 == 0 {
                    d0->0
                } else if ok1 {
                    d1->0
                } else {
                    o.refAddr@[k]
                }
        }),
{
    let mut mvPred = mv_t { hor: 0, ver: 0 };
    let mut a = [interNeighbour_t { available: 0, refIndex: 0, mv: mv_t { hor: 0, ver: 0 } }; 3];
    let sliceId = mbs[cur].sliceId;
    let mut refIndex = mbPred.refIdxL0[0];
    let mut n = a[0];
    GetInterNeighbour(sliceId, mbs, mbs[cur].mbA, &mut n, 5);
    a[0] = n;
    if a[0].refIndex == refIndex {
        mvPred = a[0].mv;
    } else {
        GetInterNeighbour(sliceId, mbs, mbs[cur].mbB, &mut n, 10);
        a[1] = n;
        GetInterNeighbour(sliceId, mbs, mbs[cur].mbB, &mut n, 14);
        if n.available == 0 {
            GetInterNeighbour(sliceId, mbs, mbs[cur].mbD, &mut n, 15);
        }
        a[2] = n;
        GetPredictionMv(&mut mvPred, &a, refIndex);
    }
    let mv0 = add_mv(mbPred.mvdL0[0], mvPred);
    if !mv_ok(&mv0) {
        return HANTRO_NOK;
    }
    let tmp0 = match h264bsdGetRefPicData(dpb, refIndex) {
        Some(t) => t,
        None => {
            return HANTRO_NOK;
        },
    };
    let ghost o = mbs@[cur as int];
    let ghost old_mbs = mbs@;
    let mut m = mbs[cur];
    let mut k: usize = 0;
    while k < 16
        invariant
            k <= 16,
            same_but_motion(m, o),
            m.refPic == o.refPic,
            m.refAddr == o.refAddr,
            forall|i: int| 0 <= i < 16 ==> m.mv@[i] == (if i < k && (i < 4 || 8 <= i < 12) { mv0 } else { o.mv@[i] }),
        decreases 16 - k,
    {
        if k < 4 || 8 <= k && k < 12 {
            m.mv[k] = mv0;
        }
        k += 1;
    }
    m.refPic[0] = refIndex;
    m.refPic[2] = refIndex;
    m.refAddr[0] = tmp0;
    m.refAddr[2] = tmp0;
    proof {
        assert(m.refPic@ =~= seq![refIndex, o.refPic@[1], refIndex, o.refPic@[3]]);
        assert(m.refAddr@ =~= seq![tmp0, o.refAddr@[1], tmp0, o.refAddr@[3]]);
    }
    mbs.set(cur, m);

    let ri0 = refIndex;
    refIndex = mbPred.refIdxL0[1];
    proof {
        if let Some(j) = old_mbs[cur as int].mbB {
            assert(mbs@[j as int] == old_mbs[j as int]);
        }
        if let Some(j) = old_mbs[cur as int].mbC {
            assert(mbs@[j as int] == old_mbs[j as int]);
        }
        assert(m.mv@[0] == mv0);
    }
    GetInterNeighbour(sliceId, mbs, mbs[cur].mbC, &mut n, 10);
    if n.available == 0 {
        GetInterNeighbour(sliceId, mbs, mbs[cur].mbB, &mut n, 11);
    }
    a[2] = n;
    if a[2].refIndex == refIndex {
        mvPred = a[2].mv;
    } else {
        a[0] = interNeighbour_t { available: HANTRO_TRUE, refIndex: m.refPic[0], mv: m.mv[0] };
        GetInterNeighbour(sliceId, mbs, mbs[cur].mbB, &mut n, 14);
        a[1] = n;
        GetPredictionMv(&mut mvPred, &a, refIndex);
    }
    let mv1 = add_mv(mbPred.mvdL0[1], mvPred);
    if !mv_ok(&mv1) {
        return HANTRO_NOK;
    }
    let tmp1 = match h264bsdGetRefPicData(dpb, refIndex) {
        Some(t) => t,
        None => {
            return HANTRO_NOK;
        },
    };
    let ghost rp = m.refPic;
    let ghost ra = m.refAddr;
    k = 0;
    while k < 16
        invariant
            k <= 16,
            same_but_motion(m, o),
            m.refPic == rp,
            m.refAddr == ra,
            forall|i: int| 0 <= i < 16 ==> m.mv@[i] == (if i < 4 || 8 <= i < 12 { mv0 } else if i < k { mv1 } else { o.mv@[i] }),
        decreases 16 - k,
    {
        if 4 <= k && k < 8 || 12 <= k {
            m.mv[k] = mv1;
        }
        k += 1;
    }
    m.refPic[1] = refIndex;
    m.refPic[3] = refIndex;
    m.refAddr[1] = tmp1;
    m.refAddr[3] = tmp1;
    proof {
        assert(m.refPic@ =~= seq![ri0, refIndex, ri0, refIndex]);
        assert(m.refAddr@ =~= seq![tmp0, tmp1, tmp0, tmp1]);
    }
    mbs.set(cur, m);
    HANTRO_OK
}


/// Neighbour `n` (macroblock, block) of the current macroblock `cur`
/// whose motion so far (vectors, reference indices) is `mot`.
pub open spec fn mot_nbr(mbs: Seq<mbStorage_t>, cur: int, mot: (Seq<mv_t>, Seq<u32>), n: (u32, int)) -> interNeighbour_t {
    if n.0 == MB_CURR {
        own_nbr(mot.1[n.1 / 4], mot.0[n.1])
    } else {
        inter_nbr(mbs, mbs[cur].sliceId, neighbour_mb(mbs[cur], cur as usize, n.0), n.1)
    }
}

/// First (top-left) block of sub-partition `j` of 8x8 partition `i` in
/// sub-partition mode `mode`.
pub open spec fn sub_first(i: int, mode: int, j: int) -> int {
    if mode == MB_SP_8x8 {
        4 * i
    } else if mode == MB_SP_8x4 {
        4 * i + 2 * j
    } else {
        4 * i + j
    }
}

/// Top-right block of sub-partition `j` of 8x8 partition `i`.
pub open spec fn sub_right(i: int, mode: int, j: int) -> int {
    if mode == MB_SP_8x8 {
        4 * i + 1
    } else if mode == MB_SP_8x4 {
        4 * i + 2 * j + 1
    } else {
        4 * i + j
    }
}

/// Block `k` belongs to sub-partition `j` of 8x8 partition `i`.
pub open spec fn sub_covers(i: int, mode: int, j: int, k: int) -> bool {
    if mode == MB_SP_8x8 {
        4 * i <= k < 4 * i + 4
    } else if mode == MB_SP_8x4 {
        k == 4 * i + 2 * j || k == 4 * i + 2 * j + 1
    } else if mode == MB_SP_4x8 {
        k == 4 * i + j || k == 4 * i + j + 2
    } else {
        k == 4 * i + j
    }
}

/// Motion vector of sub-partition `j` of 8x8 partition `i`: the median
/// prediction from the blocks left of, above, above right of (or else
/// above left of) the sub-partition, plus its difference.
#[verifier::opaque]
pub open spec fn sub_mv(mbs: Seq<mbStorage_t>, cur: int, mot: (Seq<mv_t>, Seq<u32>), sp: subMbPred_t, i: int, j: int) -> mv_t {
    let mode = sp.subMbType@[i] as int;
    let f = sub_first(i, mode, j);
    let a = mot_nbr(mbs, cur, mot, left_of(f));
    let b = mot_nbr(mbs, cur, mot, above_of(f));
    let c = c_or_d(mot_nbr(mbs, cur, mot, above_right_of(sub_right(i, mode, j))), mot_nbr(mbs, cur, mot, above_left_of(f)));
    mv_add(sp.mvdL0@[i]@[j], pred_mv3(a, b, c, sp.refIdxL0@[i]))
}

/// Motion after sub-partition `j` of partition `i`, when its vector is in
/// range.
pub open spec fn sub_set(mot: (Seq<mv_t>, Seq<u32>), mode: int, i: int, j: int, mv: mv_t) -> (Seq<mv_t>, Seq<u32>) {
    (Seq::new(16, |k: int| if sub_covers(i, mode, j, k) { mv } else { mot.0[k] }), mot.1)
}

/// Motion after the first `q` sub-partitions of partition `i`, and
/// whether all their vectors were in range.
pub open spec fn sub_run(mbs: Seq<mbStorage_t>, cur: int, mot: (Seq<mv_t>, Seq<u32>), sp: subMbPred_t, i: int, q: nat) -> (
    (Seq<mv_t>, Seq<u32>),
    bool,
)
    decreases q,
{
    if q == 0 {
        (mot, true)
    } else {
        let (m1, ok) = sub_run(mbs, cur, mot, sp, i, (q - 1) as nat);
        if !ok {
            (m1, false)
        } else {
            let mv = sub_mv(mbs, cur, m1, sp, i, q - 1);
            if mv_in_range(mv) {
                (sub_set(m1, sp.subMbType@[i] as int, i, q - 1, mv), true)
            } else {
                (m1, false)
            }
        }
    }
}

/// Motion and reference memories after the first `p` 8x8 partitions, and
/// whether all succeeded: each takes its reference index, then its
/// reference memory (failing when there is none), then the vectors of its
/// sub-partitions.
pub open spec fn part_run(
    mbs: Seq<mbStorage_t>,
    cur: int,
    dpb: &dpbStorage_t,
    mot: (Seq<mv_t>, Seq<u32>),
    addr: Seq<usize>,
    sp: subMbPred_t,
    p: nat,
) -> ((Seq<mv_t>, Seq<u32>), Seq<usize>, bool)
    decreases p,
{
    if p == 0 {
        (mot, addr, true)
    } else {
        let (m1, a1, ok) = part_run(mbs, cur, dpb, mot, addr, sp, (p - 1) as nat);
        if !ok {
            (m1, a1, false)
        } else {
            let i = p - 1;
            let ri = sp.refIdxL0@[i];
            let m2 = (m1.0, m1.1.update(i, ri));
            match ref_pic_data(dpb, ri) {
                None => (m2, a1, false),
                Some(d) => {
                    let (m3, ok3) = sub_run(mbs, cur, m2, sp, i, num_sub_mb_part(sp.subMbType@[i]));
                    (m3, a1.update(i, d), ok3)
                },
            }
        }
    }
}

/// The neighbour block indices of the luma blocks are luma blocks.
proof fn lemma_luma_nbr_index(b: int)
    requires
        0 <= b < 16,
    ensures
        0 <= N_A_4x4B_INDEX@[b] < 16,
        0 <= N_B_4x4B_INDEX@[b] < 16,
        0 <= N_C_4x4B_INDEX@[b] < 16,
        0 <= N_D_4x4B_INDEX@[b] < 16,
{
    assert(b == 0 || b == 1 || b == 2 || b == 3 || b == 4 || b == 5 || b == 6 || b == 7 || b == 8 || b == 9 || b == 10 || b
        == 11 || b == 12 || b == 13 || b == 14 || b == 15);
}

/// Neighbour `nb` of the current macroblock, whose state is `m`.
fn sub_neighbour(mbs: &[mbStorage_t], cur: usize, m: &mbStorage_t, nb: neighbour_t, n: &mut interNeighbour_t)
    requires
        inter_nbrs_ok(mbs@, cur as int),
        same_but_motion(*m, mbs@[cur as int]),
        nb.index < 16,
    ensures
        *final(n) == mot_nbr(mbs@, cur as int, (m.mv@, m.refPic@), (nb.mb, nb.index as int)),
{
    if nb.mb == MB_CURR {
        *n = interNeighbour_t { available: HANTRO_TRUE, refIndex: m.refPic[(nb.index / 4) as usize], mv: m.mv[nb.index as usize] };
    } else {
        let nMb = h264bsdGetNeighbourMb(mbs, cur, nb.mb);
        GetInterNeighbour(m.sliceId, mbs, nMb, n, nb.index as u32);
    }
}

/// A neighbour found through a table entry equal to the one the block
/// geometry gives is that neighbour.
proof fn lemma_nbr_entry(mbs: Seq<mbStorage_t>, cur: int, mot: (Seq<mv_t>, Seq<u32>), nb: neighbour_t, g: (u32, int))
    requires
        nb.mb == g.0,
        nb.mb != MB_NA ==> nb.index == g.1,
    ensures
        mot_nbr(mbs, cur, mot, (nb.mb, nb.index as int)) == mot_nbr(mbs, cur, mot, g),
{
}

/// The vector of sub-partition `subMbPartIdx` of 8x8 partition
/// `mbPartIdx`, before the range check.
#[verifier::spinoff_prover]
fn sub_prediction(mbs: &[mbStorage_t], cur: usize, m: &mbStorage_t, subMbPred: &subMbPred_t, mbPartIdx: u32, subMbPartIdx: u32) -> (mv: mv_t)
    requires
        inter_nbrs_ok(mbs@, cur as int),
        same_but_motion(*m, mbs@[cur as int]),
        mbPartIdx < 4,
        subMbPred.subMbType@[mbPartIdx as int] < 4,
        subMbPartIdx < num_sub_mb_part(subMbPred.subMbType@[mbPartIdx as int]),
    ensures
        mv == sub_mv(mbs@, cur as int, (m.mv@, m.refPic@), *subMbPred, mbPartIdx as int, subMbPartIdx as int),
{
    reveal(sub_mv);
    let i = mbPartIdx as usize;
    let j = subMbPartIdx as usize;
    let mode = h264bsdSubMbPartMode(subMbPred.subMbType[i]);
    let refIndex = subMbPred.refIdxL0[i];
    let first: u32 = if mode == MB_SP_8x8 {
        4 * mbPartIdx
    } else if mode == MB_SP_8x4 {
        4 * mbPartIdx + 2 * subMbPartIdx
    } else {
        4 * mbPartIdx + subMbPartIdx
    };
    let right: u32 = if mode == MB_SP_8x8 {
        4 * mbPartIdx + 1
    } else if mode == MB_SP_8x4 {
        4 * mbPartIdx + 2 * subMbPartIdx + 1
    } else {
        4 * mbPartIdx + subMbPartIdx
    };
    assert(first as int == sub_first(i as int, mode as int, j as int));
    assert(right as int == sub_right(i as int, mode as int, j as int));
    proof {
        lemma_luma_nbr_index(first as int);
        lemma_luma_nbr_index(right as int);
    }
    let ghost mot = (m.mv@, m.refPic@);
    let mut a = [interNeighbour_t { available: 0, refIndex: 0, mv: mv_t { hor: 0, ver: 0 } }; 3];
    let mut n = a[0];
    let na = h264bsdNeighbour4x4BlockA(first);
    sub_neighbour(mbs, cur, m, na, &mut n);
    proof {
        lemma_nbr_entry(mbs@, cur as int, mot, na, left_of(first as int));
    }
    a[0] = n;
    let nb = h264bsdNeighbour4x4BlockB(first);
    sub_neighbour(mbs, cur, m, nb, &mut n);
    proof {
        lemma_nbr_entry(mbs@, cur as int, mot, nb, above_of(first as int));
    }
    a[1] = n;
    let nc = h264bsdNeighbour4x4BlockC(right);
    sub_neighbour(mbs, cur, m, nc, &mut n);
    proof {
        lemma_nbr_entry(mbs@, cur as int, mot, nc, above_right_of(right as int));
    }
    if n.available == 0 {
        let nd = h264bsdNeighbour4x4BlockD(first);
        sub_neighbour(mbs, cur, m, nd, &mut n);
        proof {
            lemma_nbr_entry(mbs@, cur as int, mot, nd, above_left_of(first as int));
        }
    }
    a[2] = n;
    let mut mvPred = mv_t { hor: 0, ver: 0 };
    GetPredictionMv(&mut mvPred, &a, refIndex);
    add_mv(subMbPred.mvdL0[i][j], mvPred)
}

/// Give the blocks of sub-partition `j` of 8x8 partition `i` (mode
/// `mode`) the vector `mv`.
#[verifier::spinoff_prover]
fn set_sub_mv(m: &mut mbStorage_t, mode: u32, i: usize, j: usize, mv: mv_t)
    requires
        i < 4,
        mode < 4,
        j < 4,
        mode == MB_SP_8x8 ==> j == 0,
        mode == MB_SP_8x4 || mode == MB_SP_4x8 ==> j < 2,
    ensures
        same_but_motion(*final(m), *old(m)),
        final(m).refPic == old(m).refPic,
        final(m).refAddr == old(m).refAddr,
        final(m).mv@ == sub_set((old(m).mv@, old(m).refPic@), mode as int, i as int, j as int, mv).0,
{
    let ghost m0 = *m;
    let b = 4 * i;
    if mode == MB_SP_8x8 {
        m.mv[b] = mv;
        m.mv[b + 1] = mv;
        m.mv[b + 2] = mv;
        m.mv[b + 3] = mv;
    } else if mode == MB_SP_8x4 {
        m.mv[b + 2 * j] = mv;
        m.mv[b + 2 * j + 1] = mv;
    } else if mode == MB_SP_4x8 {
        m.mv[b + j] = mv;
        m.mv[b + j + 2] = mv;
    } else {
        m.mv[b + j] = mv;
    }
    proof {
        assert(m.mv@ =~= sub_set((m0.mv@, m0.refPic@), mode as int, i as int, j as int, mv).0);
    }
}

/// Motion vector prediction for sub-partition `subMbPartIdx` of 8x8
/// partition `mbPartIdx`: on success its blocks get the vector.
#[verifier::spinoff_prover]
#[verifier::rlimit(30)]
fn MvPrediction(
    mbs: &[mbStorage_t],
    cur: usize,
    m: &mut mbStorage_t,
    subMbPred: &subMbPred_t,
    mbPartIdx: u32,
    subMbPartIdx: u32,
) -> (r: u32)
    requires
        inter_nbrs_ok(mbs@, cur as int),
        same_but_motion(*old(m), mbs@[cur as int]),
        mbPartIdx < 4,
        subMbPred.subMbType@[mbPartIdx as int] < 4,
        subMbPartIdx < num_sub_mb_part(subMbPred.subMbType@[mbPartIdx as int]),
    ensures
        ({
            let i = mbPartIdx as int;
            let mode = subMbPred.subMbType@[i] as int;
            let mv = sub_mv(mbs@, cur as int, (old(m).mv@, old(m).refPic@), *subMbPred, i, subMbPartIdx as int);
            &&& r == if mv_in_range(mv) { HANTRO_OK } else { HANTRO_NOK }
            &&& same_but_motion(*final(m), *old(m))
            &&& final(m).refPic == old(m).refPic
            &&& final(m).refAddr == old(m).refAddr
            &&& (final(m).mv@, final(m).refPic@) == if mv_in_range(mv) {
                sub_set((old(m).mv@, old(m).refPic@), mode, i, subMbPartIdx as int, mv)
            } else {
                (old(m).mv@, old(m).refPic@)
            }
        }),
{
    let mv = sub_prediction(mbs, cur, m, subMbPred, mbPartIdx, subMbPartIdx);
    if !mv_ok(&mv) {
        return HANTRO_NOK;
    }
    let mode = h264bsdSubMbPartMode(subMbPred.subMbType[mbPartIdx as usize]);
    set_sub_mv(m, mode, mbPartIdx as usize, subMbPartIdx as usize, mv);
    HANTRO_OK
}


/// Once a sub-partition fails, later ones change nothing.
proof fn lemma_sub_run_stops(mbs: Seq<mbStorage_t>, cur: int, mot: (Seq<mv_t>, Seq<u32>), sp: subMbPred_t, i: int, p: nat, q: nat)
    requires
        p <= q,
        !sub_run(mbs, cur, mot, sp, i, p).1,
    ensures
        sub_run(mbs, cur, mot, sp, i, q) == sub_run(mbs, cur, mot, sp, i, p),
    decreases q,
{
    if q > p {
        lemma_sub_run_stops(mbs, cur, mot, sp, i, p, (q - 1) as nat);
    }
}

/// Once an 8x8 partition fails, later ones change nothing.
proof fn lemma_part_run_stops(
    mbs: Seq<mbStorage_t>,
    cur: int,
    dpb: &dpbStorage_t,
    mot: (Seq<mv_t>, Seq<u32>),
    addr: Seq<usize>,
    sp: subMbPred_t,
    p: nat,
    q: nat,
)
    requires
        p <= q,
        !part_run(mbs, cur, dpb, mot, addr, sp, p).2,
    ensures
        part_run(mbs, cur, dpb, mot, addr, sp, q) == part_run(mbs, cur, dpb, mot, addr, sp, p),
    decreases q,
{
    if q > p {
        lemma_part_run_stops(mbs, cur, dpb, mot, addr, sp, p, (q - 1) as nat);
    }
}

/// The sub-macroblock types are the four of the standard.
pub open spec fn sub_types_ok(sp: subMbPred_t) -> bool {
    forall|i: int| 0 <= i < 4 ==> #[trigger] sp.subMbType@[i] < 4
}

/// Motion vector prediction for the sub-partitions of 8x8 partition `i`,
/// in order, stopping at the first failure.
#[verifier::spinoff_prover]
fn predict_sub_parts(mbs: &[mbStorage_t], cur: usize, m: &mut mbStorage_t, subMbPred: &subMbPred_t, i: u32) -> (r: u32)
    requires
        inter_nbrs_ok(mbs@, cur as int),
        same_but_motion(*old(m), mbs@[cur as int]),
        i < 4,
        sub_types_ok(*subMbPred),
    ensures
        ({
            let (mot, ok) = sub_run(
                mbs@,
                cur as int,
                (old(m).mv@, old(m).refPic@),
                *subMbPred,
                i as int,
                num_sub_mb_part(subMbPred.subMbType@[i as int]),
            );
            &&& r == if ok { HANTRO_OK } else { HANTRO_NOK }
            &&& (final(m).mv@, final(m).refPic@) == mot
            &&& same_but_motion(*final(m), *old(m))
            &&& final(m).refAddr == old(m).refAddr
        }),
{
    assert(subMbPred.subMbType@[i as int] < 4);
    let numSubMbPart = h264bsdNumSubMbPart(subMbPred.subMbType[i as usize]);
    let ghost m2 = (m.mv@, m.refPic@);
    let ghost m0 = *m;
    let mut j: u32 = 0;
    while j < numSubMbPart
        invariant
            j <= numSubMbPart,
            i < 4,
            numSubMbPart == num_sub_mb_part(subMbPred.subMbType@[i as int]),
            subMbPred.subMbType@[i as int] < 4,
            inter_nbrs_ok(mbs@, cur as int),
            same_but_motion(m0, mbs@[cur as int]),
            same_but_motion(*m, m0),
            m.refAddr == m0.refAddr,
            m2 == (m0.mv@, m0.refPic@),
            m0 == *old(m),
            sub_run(mbs@, cur as int, m2, *subMbPred, i as int, j as nat) == ((m.mv@, m.refPic@), true),
        decreases numSubMbPart - j,
    {
        let ghost mb = (m.mv@, m.refPic@);
        if MvPrediction(mbs, cur, m, subMbPred, i, j) != HANTRO_OK {
            proof {
                assert(sub_run(mbs@, cur as int, m2, *subMbPred, i as int, (j + 1) as nat) == (mb, false));
                lemma_sub_run_stops(mbs@, cur as int, m2, *subMbPred, i as int, (j + 1) as nat, numSubMbPart as nat);
            }
            return HANTRO_NOK;
        }
        j += 1;
    }
    HANTRO_OK
}

/// Motion vector prediction for the four 8x8 partitions, in order: each
/// takes its reference index and memory, then predicts the vectors of its
/// sub-partitions; prediction stops at the first failure.
#[verifier::spinoff_prover]
#[verifier::rlimit(50)]
fn MvPrediction8x8(mbs: &mut Vec<mbStorage_t>, cur: usize, subMbPred: &subMbPred_t, dpb: &dpbStorage_t) -> (r: u32)
    requires
        inter_nbrs_ok(old(mbs)@, cur as int),
        dpb.wf(),
        sub_types_ok(*subMbPred),
    ensures
        ({
            let o = old(mbs)@[cur as int];
            let (mot, addr, ok) = part_run(old(mbs)@, cur as int, dpb, (o.mv@, o.refPic@), o.refAddr@, *subMbPred, 4);
            let m = final(mbs)@[cur as int];
            &&& r == if ok { HANTRO_OK } else { HANTRO_NOK }
            &&& final(mbs)@.len() == old(mbs)@.len()
            &&& forall|j: int| 0 <= j < old(mbs)@.len() && j != cur ==> final(mbs)@[j] == old(mbs)@[j]
            &&& same_but_motion(m, o)
            &&& m.mv@ == mot.0
            &&& m.refPic@ == mot.1
            &&& m.refAddr@ == addr
        }),
{
    let ghost mbs0 = mbs@;
    let ghost o = mbs@[cur as int];
    let mut m = mbs[cur];
    let mut i: usize = 0;
    while i < 4
        invariant
            i <= 4,
            mbs@ == mbs0,
            mbs0 == old(mbs)@,
            inter_nbrs_ok(mbs0, cur as int),
            dpb.wf(),
            sub_types_ok(*subMbPred),
            o == mbs0[cur as int],
            same_but_motion(m, o),
            ({
                let (mot, addr, ok) = part_run(mbs0, cur as int, dpb, (o.mv@, o.refPic@), o.refAddr@, *subMbPred, i as nat);
                &&& ok
                &&& m.mv@ == mot.0
                &&& m.refPic@ == mot.1
                &&& m.refAddr@ == addr
            }),
        decreases 4 - i,
    {
        assert(subMbPred.subMbType@[i as int] < 4);
        let numSubMbPart = h264bsdNumSubMbPart(subMbPred.subMbType[i]);
        m.refPic[i] = subMbPred.refIdxL0[i];
        assert(m.refPic@ =~= part_run(mbs0, cur as int, dpb, (o.mv@, o.refPic@), o.refAddr@, *subMbPred, i as nat).0.1.update(
            i as int,
            subMbPred.refIdxL0@[i as int],
        ));
        match h264bsdGetRefPicData(dpb, subMbPred.refIdxL0[i]) {
            None => {
                proof {
                    assert(!part_run(mbs0, cur as int, dpb, (o.mv@, o.refPic@), o.refAddr@, *subMbPred, (i + 1) as nat).2);
                    lemma_part_run_stops(mbs0, cur as int, dpb, (o.mv@, o.refPic@), o.refAddr@, *subMbPred, (i + 1) as nat, 4);
                }
                mbs.set(cur, m);
                return HANTRO_NOK;
            },
            Some(t) => {
                m.refAddr[i] = t;
            },
        }
        let ghost m2 = (m.mv@, m.refPic@);
        let ghost a2 = m.refAddr@;
        assert(a2 =~= part_run(mbs0, cur as int, dpb, (o.mv@, o.refPic@), o.refAddr@, *subMbPred, i as nat).1.update(
            i as int,
            ref_pic_data(dpb, subMbPred.refIdxL0@[i as int])->0,
        ));
        if predict_sub_parts(mbs, cur, &mut m, subMbPred, i as u32) != HANTRO_OK {
            proof {
                assert(part_run(mbs0, cur as int, dpb, (o.mv@, o.refPic@), o.refAddr@, *subMbPred, (i + 1) as nat) == (
                    (m.mv@, m.refPic@),
                    m.refAddr@,
                    false,
                ));
                lemma_part_run_stops(mbs0, cur as int, dpb, (o.mv@, o.refPic@), o.refAddr@, *subMbPred, (i + 1) as nat, 4);
            }
            mbs.set(cur, m);
            return HANTRO_NOK;
        }
        i += 1;
    }
    mbs.set(cur, m);
    HANTRO_OK
}


/// Position in the picture of sample (c, r) of block `b` (luma 0..16, Cb
/// 16..20, Cr 20..24) of macroblock `mbNum`.
pub open spec fn image_block_pos(image: image_t, mbNum: int, b: int, r: int, c: int) -> int {
    let w = image.width as int;
    if b < 16 {
        image.mb_luma(mbNum) + (4 * blk_y(b) + r) * (16 * w) + 4 * blk_x(b) + c
    } else if b < 20 {
        image.mb_cb(mbNum) + (4 * ((b - 16) / 2) + r) * (8 * w) + 4 * ((b - 16) % 2) + c
    } else {
        image.mb_cr(mbNum) + (4 * ((b - 20) / 2) + r) * (8 * w) + 4 * ((b - 20) % 2) + c
    }
}

/// The prediction `data` with the residual of each block added and
/// clipped.
pub open spec fn with_residual(data: Seq<u8>, residual: Seq<[i32; 16]>, b: int, r: int, c: int) -> int {
    add_res(data[block_pos(b) + r * block_stride(b) + c] as int, residual[b]@, 4 * r + c)
}

/// Write macroblock `mbNum` into the picture: each block of the
/// prediction `data` with its residual added and clipped (a block with an
/// empty residual is copied). The rest of the picture is unchanged.
pub fn h264bsdWriteOutputBlocks(image: &mut image_t, mbNum: u32, data: &[u8; 384], residual: &[[i32; 16]; 26])
    requires
        old(image).wf(),
        mbNum < old(image).width * old(image).height,
        forall|b: int| 0 <= b < 24 ==> residual_ok(#[trigger] residual@[b]@),
    ensures
        final(image).width == old(image).width,
        final(image).height == old(image).height,
        final(image).luma == old(image).luma,
        final(image).cb == old(image).cb,
        final(image).cr == old(image).cr,
        final(image).data.len() == old(image).data.len(),
        forall|b: int, r: int, c: int|
            0 <= b < 24 && 0 <= r < 4 && 0 <= c < 4 ==> #[trigger] final(image).data@[image_block_pos(
                *old(image),
                mbNum as int,
                b,
                r,
                c,
            )] as int == with_residual(data@, residual@, b, r, c),
        forall|k: int|
            0 <= k < old(image).data.len() && !in_block(
                k,
                16 * old(image).width,
                old(image).mb_luma(mbNum as int),
                16,
                16,
            ) && !in_block(k, 8 * old(image).width, old(image).mb_cb(mbNum as int), 8, 8) && !in_block(
                k,
                8 * old(image).width,
                old(image).mb_cr(mbNum as int),
                8,
                8,
            ) ==> final(image).data@[k] == old(image).data@[k],
{
    let mut tmp = *data;
    let mut i: u32 = 0;
    while i < 24
        invariant
            i <= 24,
            forall|b: int| 0 <= b < 24 ==> residual_ok(#[trigger] residual@[b]@),
            forall|b: int, r: int, c: int|
                0 <= b < 24 && 0 <= r < 4 && 0 <= c < 4 ==> #[trigger] tmp@[block_pos(b) + r * block_stride(b) + c] as int
                    == if b < i {
                    with_residual(data@, residual@, b, r, c)
                } else {
                    data@[block_pos(b) + r * block_stride(b) + c] as int
                },
        decreases 24 - i,
    {
        let ghost t0 = tmp@;
        h264bsdAddResidual(&mut tmp, &residual[i as usize], i);
        proof {
            assert forall|b: int, r: int, c: int|
                0 <= b < 24 && 0 <= r < 4 && 0 <= c < 4 implies #[trigger] tmp@[block_pos(b) + r * block_stride(b) + c] as int
                == if b < i + 1 {
                with_residual(data@, residual@, b, r, c)
            } else {
                data@[block_pos(b) + r * block_stride(b) + c] as int
            } by {
                if b != i {
                    if b < 16 {
                        lemma_blk_grid(b);
                        if i < 16 {
                            lemma_luma_blocks_apart(b, i as int, r, c);
                        } else {
                            assert(block_pos(b) + r * 16 + c < 256);
                        }
                    } else {
                        if i >= 16 {
                            lemma_chroma_blocks_apart(b, i as int, r, c);
                        } else {
                            lemma_blk_grid(i as int);
                        }
                    }
                    assert(!in_block4(block_pos(b) + r * block_stride(b) + c, i as int));
                }
            }
        }
        i += 1;
    }
    let luma = image.luma;
    let cb = image.cb;
    let cr = image.cr;
    let ghost img0 = *image;
    h264bsdSetCurrImageMbPointers(image, mbNum);
    h264bsdWriteMacroblock(image, &tmp);
    proof {
        assert forall|b: int, r: int, c: int|
            0 <= b < 24 && 0 <= r < 4 && 0 <= c < 4 implies #[trigger] image.data@[image_block_pos(img0, mbNum as int, b, r, c)]
            as int == with_residual(data@, residual@, b, r, c) by {
            let w = img0.width as int;
            if b < 16 {
                lemma_blk_grid(b);
                let y = 4 * blk_y(b) + r;
                let x = 4 * blk_x(b) + c;
                assert(image.data@[image.luma + y * (16 * w) + x] == tmp@[16 * y + x]);
                assert(16 * y + x == block_pos(b) + r * block_stride(b) + c);
            } else if b < 20 {
                let y = 4 * ((b - 16) / 2) + r;
                let x = 4 * ((b - 16) % 2) + c;
                assert(image.data@[image.cb + y * (8 * w) + x] == tmp@[256 + 8 * y + x]);
                assert(256 + 8 * y + x == block_pos(b) + r * block_stride(b) + c);
            } else {
                let y = 4 * ((b - 20) / 2) + r;
                let x = 4 * ((b - 20) % 2) + c;
                assert(image.data@[image.cr + y * (8 * w) + x] == tmp@[320 + 8 * y + x]);
                assert(320 + 8 * y + x == block_pos(b) + r * block_stride(b) + c);
            }
        }
    }
    image.luma = luma;
    image.cb = cb;
    image.cr = cr;
}


/// Luma sample (x, y) of block `b` of the macroblock at luma position
/// (xA, yA), predicted with vector `mv` from picture `pic` of w x h
/// macroblocks.
pub open spec fn inter_luma(pic: Seq<u8>, w: int, h: int, xA: int, yA: int, b: int, mv: mv_t, x: int, y: int) -> int {
    luma_pred(
        plane_fn(pic, 0, 16 * w, 16 * h),
        xA + 4 * blk_x(b) + mv.hor as int / 4 + x,
        yA + 4 * blk_y(b) + mv.ver as int / 4 + y,
        mv.hor as int % 4,
        mv.ver as int % 4,
    )
}

/// Chroma sample (x, y) (component `comp`) of the 2x2 chroma samples
/// under luma block `b`, predicted likewise.
pub open spec fn inter_chroma(pic: Seq<u8>, w: int, h: int, xA: int, yA: int, b: int, mv: mv_t, comp: int, x: int, y: int) -> int {
    chroma_pred(
        plane_fn(pic, 256 * w * h + comp * (64 * w * h), 8 * w, 8 * h),
        (xA + 4 * blk_x(b)) / 2 + mv.hor as int / 8 + x,
        (yA + 4 * blk_y(b)) / 2 + mv.ver as int / 8 + y,
        mv.hor as int % 8,
        mv.ver as int % 8,
    )
}

/// Position in the macroblock array of chroma sample (x, y) of component
/// `comp` under luma block `b`.
pub open spec fn chroma_at(b: int, comp: int, x: int, y: int) -> int {
    256 + 64 * comp + 16 * blk_y(b) + 2 * blk_x(b) + 8 * y + x
}

/// Two different 2x2 blocks of a grid with rows of 8 samples do not
/// overlap.
proof fn lemma_grid2(bx: int, by: int, jx: int, jy: int, r: int, c: int)
    requires
        0 <= bx < 4,
        0 <= by < 8,
        0 <= jx < 4,
        0 <= jy < 8,
        bx != jx || by != jy,
        0 <= r < 2,
        0 <= c < 2,
    ensures
        ({
            let d = 8 * (2 * (by - jy) + r) + 2 * (bx - jx) + c;
            !(0 <= d && d % 8 < 2 && d / 8 < 2)
        }),
{
    let q = 2 * (by - jy) + r;
    let e = 2 * (bx - jx) + c;
    let d = 8 * q + e;
    if bx > jx {
        vstd::arithmetic::div_mod::lemma_fundamental_div_mod_converse(d, 8, q, e);
    } else if bx < jx {
        vstd::arithmetic::div_mod::lemma_fundamental_div_mod_converse(d, 8, q - 1, e + 8);
    } else {
        vstd::arithmetic::div_mod::lemma_fundamental_div_mod_converse(d, 8, q, e);
    }
}

/// Predict the 16 luma blocks (and the chroma samples under them) of the
/// macroblock at luma position (xA, yA), each with its own vector and the
/// reference memory of its 8x8 block.
#[verifier::spinoff_prover]
#[verifier::rlimit(50)]
fn predict_blocks(data: &mut [u8; 384], m: &mbStorage_t, pictures: &Vec<Vec<u8>>, w: u32, h: u32, xA: u32, yA: u32)
    requires
        1 <= w <= 4096,
        1 <= h <= 4096,
        xA <= 0xFFF0,
        yA <= 0xFFF0,
        forall|k: int| 0 <= k < 4 ==> #[trigger] m.refAddr@[k] < pictures.len(),
        forall|k: int| 0 <= k < pictures.len() ==> #[trigger] pictures@[k]@.len() == 384 * w * h,
    ensures
        forall|b: int, x: int, y: int|
            0 <= b < 16 && 0 <= x < 4 && 0 <= y < 4 ==> #[trigger] final(data)@[block_pos(b) + 16 * y + x] as int
                == inter_luma(pictures@[m.refAddr@[b / 4] as int]@, w as int, h as int, xA as int, yA as int, b, m.mv@[b], x, y),
        forall|b: int, comp: int, x: int, y: int|
            0 <= b < 16 && 0 <= comp < 2 && 0 <= x < 2 && 0 <= y < 2 ==> #[trigger] final(data)@[chroma_at(b, comp, x, y)] as int
                == inter_chroma(
                pictures@[m.refAddr@[b / 4] as int]@,
                w as int,
                h as int,
                xA as int,
                yA as int,
                b,
                m.mv@[b],
                comp,
                x,
                y,
            ),
{
    let mut i: u32 = 0;
    while i < 16
        invariant
            i <= 16,
            1 <= w <= 4096,
            1 <= h <= 4096,
            xA <= 0xFFF0,
            yA <= 0xFFF0,
            forall|k: int| 0 <= k < 4 ==> #[trigger] m.refAddr@[k] < pictures.len(),
            forall|k: int| 0 <= k < pictures.len() ==> #[trigger] pictures@[k]@.len() == 384 * w * h,
            forall|b: int, x: int, y: int|
                0 <= b < i && 0 <= x < 4 && 0 <= y < 4 ==> #[trigger] data@[block_pos(b) + 16 * y + x] as int == inter_luma(
                    pictures@[m.refAddr@[b / 4] as int]@,
                    w as int,
                    h as int,
                    xA as int,
                    yA as int,
                    b,
                    m.mv@[b],
                    x,
                    y,
                ),
            forall|b: int, comp: int, x: int, y: int|
                0 <= b < i && 0 <= comp < 2 && 0 <= x < 2 && 0 <= y < 2 ==> #[trigger] data@[chroma_at(b, comp, x, y)] as int
                    == inter_chroma(
                    pictures@[m.refAddr@[b / 4] as int]@,
                    w as int,
                    h as int,
                    xA as int,
                    yA as int,
                    b,
                    m.mv@[b],
                    comp,
                    x,
                    y,
                ),
        decreases 16 - i,
    {
        let (x, y) = block_xy(i);
        let mv = m.mv[i as usize];
        let pic = &pictures[m.refAddr[(i / 4) as usize]];
        let ghost d0 = data@;
        predict_samples_in(data, &mv, pic.as_slice(), w, h, xA, yA, x as u32, y as u32, 4, 4);
        proof {
            let bi = i as int;
            lemma_blk_grid(bi);
            assert forall|b: int, xx: int, yy: int|
                0 <= b < i + 1 && 0 <= xx < 4 && 0 <= yy < 4 implies #[trigger] data@[block_pos(b) + 16 * yy + xx] as int
                == inter_luma(pictures@[m.refAddr@[b / 4] as int]@, w as int, h as int, xA as int, yA as int, b, m.mv@[b], xx, yy) by {
                lemma_blk_grid(b);
                if b == bi {
                    assert(block_pos(b) == 16 * y + x);
                    assert(mb_at(data@, 16 * y + x, xx, yy) == data@[block_pos(b) + 16 * yy + xx] as int);
                } else {
                    lemma_luma_blocks_apart(b, bi, yy, xx);
                    let k = block_pos(b) + 16 * yy + xx;
                    assert(!in_block(k, 16, 16 * y + x, 4, 4));
                    assert(!in_block(k, 8, 256 + 8 * (y / 2) + x / 2, 2, 2));
                    assert(!in_block(k, 8, 320 + 8 * (y / 2) + x / 2, 2, 2));
                    assert(data@[k] == d0[k]);
                }
            }
            assert forall|b: int, comp: int, xx: int, yy: int|
                0 <= b < i + 1 && 0 <= comp < 2 && 0 <= xx < 2 && 0 <= yy < 2 implies #[trigger] data@[chroma_at(b, comp, xx, yy)]
                as int == inter_chroma(
                pictures@[m.refAddr@[b / 4] as int]@,
                w as int,
                h as int,
                xA as int,
                yA as int,
                b,
                m.mv@[b],
                comp,
                xx,
                yy,
            ) by {
                lemma_blk_grid(b);
                let k = chroma_at(b, comp, xx, yy);
                if b == bi {
                    assert(k == 256 + 8 * (y / 2) + x / 2 + 64 * comp + 8 * yy + xx);
                    assert(at8(data@, 256 + 8 * (y / 2) + x / 2 + 64 * comp, xx, yy) == data@[k] as int);
                    assert((xA + x) / 2 == (xA + 4 * blk_x(b)) / 2);
                } else {
                    assert(!in_block(k, 16, 16 * y + x, 4, 4));
                    lemma_grid2(blk_x(b), blk_y(b) + 4 * comp, blk_x(bi), blk_y(bi), yy, xx);
                    lemma_grid2(blk_x(b), blk_y(b) + 4 * comp, blk_x(bi), blk_y(bi) + 4, yy, xx);
                    assert(!in_block(k, 8, 256 + 8 * (y / 2) + x / 2, 2, 2));
                    assert(!in_block(k, 8, 320 + 8 * (y / 2) + x / 2, 2, 2));
                    assert(data@[k] == d0[k]);
                }
            }
        }
        i += 1;
    }
}


/// Motion vector prediction of the macroblock succeeds: every partition's
/// vector is in range and its reference picture exists.
pub open spec fn inter_mv_ok(mbs: Seq<mbStorage_t>, cur: int, layer: macroblockLayer_t, dpb: &dpbStorage_t) -> bool {
    let t = mbs[cur].mbType;
    let p = layer.mbPred;
    let d0 = ref_pic_data(dpb, p.refIdxL0@[0]);
    let d1 = ref_pic_data(dpb, p.refIdxL0@[1]);
    if t == P_Skip || t == P_L0_16x16 {
        mv16x16(mbs, cur, p).1 && d0 is Some
    } else if t == P_L0_L0_16x8 {
        let (mv0, in0) = mv16x8_0(mbs, cur, p);
        in0 && d0 is Some && mv16x8_1(mbs, cur, p, mv0).1 && d1 is Some
    } else if t == P_L0_L0_8x16 {
        let (mv0, in0) = mv8x16_0(mbs, cur, p);
        in0 && d0 is Some && mv8x16_1(mbs, cur, p, mv0).1 && d1 is Some
    } else {
        let o = mbs[cur];
        part_run(mbs, cur, dpb, (o.mv@, o.refPic@), o.refAddr@, layer.subMbPred, 4).2
    }
}

/// The vectors of the 16 blocks, the reference indices and the reference
/// memories of the 4 8x8 blocks after successful prediction.
pub open spec fn inter_motion(mbs: Seq<mbStorage_t>, cur: int, layer: macroblockLayer_t, dpb: &dpbStorage_t) -> (
    Seq<mv_t>,
    Seq<u32>,
    Seq<usize>,
) {
    let t = mbs[cur].mbType;
    let p = layer.mbPred;
    let ri0 = p.refIdxL0@[0];
    let ri1 = p.refIdxL0@[1];
    let a0 = ref_pic_data(dpb, ri0)->0;
    let a1 = ref_pic_data(dpb, ri1)->0;
    if t == P_Skip || t == P_L0_16x16 {
        let mv = mv16x16(mbs, cur, p).0;
        (Seq::new(16, |k: int| mv), seq![ri0, ri0, ri0, ri0], seq![a0, a0, a0, a0])
    } else if t == P_L0_L0_16x8 {
        let mv0 = mv16x8_0(mbs, cur, p).0;
        let mv1 = mv16x8_1(mbs, cur, p, mv0).0;
        (Seq::new(16, |k: int| if in_16x8(0, k) { mv0 } else { mv1 }), seq![ri0, ri0, ri1, ri1], seq![a0, a0, a1, a1])
    } else if t == P_L0_L0_8x16 {
        let mv0 = mv8x16_0(mbs, cur, p).0;
        let mv1 = mv8x16_1(mbs, cur, p, mv0).0;
        (Seq::new(16, |k: int| if in_8x16(0, k) { mv0 } else { mv1 }), seq![ri0, ri1, ri0, ri1], seq![a0, a1, a0, a1])
    } else {
        let o = mbs[cur];
        let r = part_run(mbs, cur, dpb, (o.mv@, o.refPic@), o.refAddr@, layer.subMbPred, 4);
        (r.0.0, r.0.1, r.1)
    }
}

/// Motion vector prediction by partition mode.
#[verifier::spinoff_prover]
#[verifier::rlimit(40)]
fn mv_prediction(mbs: &mut Vec<mbStorage_t>, cur: usize, pMbLayer: &macroblockLayer_t, dpb: &dpbStorage_t) -> (r: u32)
    requires
        inter_nbrs_ok(old(mbs)@, cur as int),
        dpb.wf(),
        old(mbs)@[cur as int].mbType >= P_8x8 ==> sub_types_ok(pMbLayer.subMbPred),
    ensures
        r == if inter_mv_ok(old(mbs)@, cur as int, *pMbLayer, dpb) { HANTRO_OK } else { HANTRO_NOK },
        final(mbs)@.len() == old(mbs)@.len(),
        forall|j: int| 0 <= j < old(mbs)@.len() && j != cur ==> final(mbs)@[j] == old(mbs)@[j],
        same_but_motion(final(mbs)@[cur as int], old(mbs)@[cur as int]),
        r == HANTRO_OK ==> {
            let m = final(mbs)@[cur as int];
            (m.mv@, m.refPic@, m.refAddr@) == inter_motion(old(mbs)@, cur as int, *pMbLayer, dpb)
        },
{
    let t = mbs[cur].mbType;
    let ghost mbs0 = mbs@;
    let ghost mot = inter_motion(mbs0, cur as int, *pMbLayer, dpb);
    if t == P_Skip || t == P_L0_16x16 {
        let r = MvPrediction16x16(mbs, cur, &pMbLayer.mbPred, dpb);
        proof {
            if r == HANTRO_OK {
                let m = mbs@[cur as int];
                assert(m.mv@ =~= mot.0);
                assert(m.refPic@ =~= mot.1);
                assert(m.refAddr@ =~= mot.2);
            }
        }
        r
    } else if t == P_L0_L0_16x8 {
        let r = MvPrediction16x8(mbs, cur, &pMbLayer.mbPred, dpb);
        proof {
            if r == HANTRO_OK {
                let m = mbs@[cur as int];
                assert(m.mv@ =~= mot.0);
                assert(m.refPic@ =~= mot.1);
                assert(m.refAddr@ =~= mot.2);
            }
        }
        r
    } else if t == P_L0_L0_8x16 {
        let r = MvPrediction8x16(mbs, cur, &pMbLayer.mbPred, dpb);
        proof {
            if r == HANTRO_OK {
                let m = mbs@[cur as int];
                assert(m.mv@ =~= mot.0);
                assert(m.refPic@ =~= mot.1);
                assert(m.refAddr@ =~= mot.2);
            }
        }
        r
    } else {
        MvPrediction8x8(mbs, cur, &pMbLayer.subMbPred, dpb)
    }
}


/// The reference memories of a successful 8x8 prediction exist in the
/// buffer, when those it started from do.
proof fn lemma_part_run_addr(mbs: Seq<mbStorage_t>, cur: int, dpb: &dpbStorage_t, o: mbStorage_t, sp: subMbPred_t, p: nat)
    requires
        dpb.wf(),
        part_run(mbs, cur, dpb, (o.mv@, o.refPic@), o.refAddr@, sp, p).2,
        p <= 4,
    ensures
        forall|k: int|
            0 <= k < p ==> #[trigger] part_run(mbs, cur, dpb, (o.mv@, o.refPic@), o.refAddr@, sp, p).1[k] < dpb.pictures.len(),
        part_run(mbs, cur, dpb, (o.mv@, o.refPic@), o.refAddr@, sp, p).1.len() == o.refAddr@.len(),
    decreases p,
{
    if p > 0 {
        lemma_part_run_addr(mbs, cur, dpb, o, sp, (p - 1) as nat);
        let ri = sp.refIdxL0@[p - 1];
        if let Some(d) = ref_pic_data(dpb, ri) {
            assert(dpb.list@[ri as int] matches Some(s) && s < dpb.buffer.len());
        }
    }
}

/// Process one inter macroblock: predict its motion vectors, predict its
/// samples from the reference pictures into `data`, and, unless it was
/// already written (`decoded` above 1), write it with its residual (a
/// skipped macroblock without) into the picture `image`. HANTRO_NOK when
/// motion vector prediction fails; then neither `data` nor `image`
/// changes.
pub fn h264bsdInterPrediction(
    mbs: &mut Vec<mbStorage_t>,
    cur: usize,
    pMbLayer: &macroblockLayer_t,
    dpb: &dpbStorage_t,
    mbNum: u32,
    image: &mut image_t,
    data: &mut [u8; 384],
) -> (r: u32)
    requires
        inter_nbrs_ok(old(mbs)@, cur as int),
        old(mbs)@[cur as int].mbType <= P_8x8ref0,
        old(mbs)@[cur as int].mbType >= P_8x8 ==> sub_types_ok(pMbLayer.subMbPred),
        dpb.wf(),
        old(image).wf(),
        mbNum < old(image).width * old(image).height,
        old(image).points_at(mbNum as int),
        old(image).current_ok(),
        forall|k: int| 0 <= k < dpb.pictures.len() ==> #[trigger] dpb.pictures@[k]@.len() == old(image).data.len(),
        old(mbs)@[cur as int].mbType != P_Skip ==> forall|b: int|
            0 <= b < 24 ==> residual_ok(#[trigger] pMbLayer.residual.level@[b]@),
    ensures
        ({
            let ok = inter_mv_ok(old(mbs)@, cur as int, *pMbLayer, dpb);
            let m = final(mbs)@[cur as int];
            let w = old(image).width as int;
            let h = old(image).height as int;
            let xA = 16 * (mbNum as int % w);
            let yA = 16 * (mbNum as int / w);
            &&& r == if ok { HANTRO_OK } else { HANTRO_NOK }
            &&& final(mbs)@.len() == old(mbs)@.len()
            &&& forall|j: int| 0 <= j < old(mbs)@.len() && j != cur ==> final(mbs)@[j] == old(mbs)@[j]
            &&& same_but_motion(m, old(mbs)@[cur as int])
            &&& final(image).width == old(image).width
            &&& final(image).height == old(image).height
            &&& final(image).luma == old(image).luma
            &&& final(image).cb == old(image).cb
            &&& final(image).cr == old(image).cr
            &&& final(image).data.len() == old(image).data.len()
            &&& !ok ==> final(data)@ == old(data)@ && final(image).data@ == old(image).data@
            &&& ok ==> (m.mv@, m.refPic@, m.refAddr@) == inter_motion(old(mbs)@, cur as int, *pMbLayer, dpb)
            &&& ok ==> forall|b: int, x: int, y: int|
                0 <= b < 16 && 0 <= x < 4 && 0 <= y < 4 ==> #[trigger] final(data)@[block_pos(b) + 16 * y + x] as int
                    == inter_luma(dpb.pictures@[m.refAddr@[b / 4] as int]@, w, h, xA, yA, b, m.mv@[b], x, y)
            &&& ok ==> forall|b: int, comp: int, x: int, y: int|
                0 <= b < 16 && 0 <= comp < 2 && 0 <= x < 2 && 0 <= y < 2 ==> #[trigger] final(data)@[chroma_at(b, comp, x, y)]
                    as int == inter_chroma(dpb.pictures@[m.refAddr@[b / 4] as int]@, w, h, xA, yA, b, m.mv@[b], comp, x, y)
            &&& ok && old(mbs)@[cur as int].decoded > 1 ==> final(image).data@ == old(image).data@
            &&& ok && old(mbs)@[cur as int].decoded <= 1 && m.mbType != P_Skip ==> forall|b: int, rr: int, c: int|
                0 <= b < 24 && 0 <= rr < 4 && 0 <= c < 4 ==> #[trigger] final(image).data@[image_block_pos(
                    *old(image),
                    mbNum as int,
                    b,
                    rr,
                    c,
                )] as int == with_residual(final(data)@, pMbLayer.residual.level@, b, rr, c)
            &&& ok && old(mbs)@[cur as int].decoded <= 1 && m.mbType == P_Skip ==> forall|x: int, y: int|
                0 <= x < 16 && 0 <= y < 16 ==> #[trigger] final(image).data@[old(image).luma + y * (16 * w) + x] == final(data)@[16
                    * y + x]
            &&& ok && old(mbs)@[cur as int].decoded <= 1 && m.mbType == P_Skip ==> forall|x: int, y: int|
                0 <= x < 8 && 0 <= y < 8 ==> #[trigger] final(image).data@[old(image).cb + y * (8 * w) + x] == final(data)@[256 + 8
                    * y + x] && final(image).data@[old(image).cr + y * (8 * w) + x] == final(data)@[320 + 8 * y + x]
            &&& forall|k: int|
                0 <= k < old(image).data.len() && !in_block(k, 16 * w, old(image).mb_luma(mbNum as int), 16, 16) && !in_block(
                    k,
                    8 * w,
                    old(image).mb_cb(mbNum as int),
                    8,
                    8,
                ) && !in_block(k, 8 * w, old(image).mb_cr(mbNum as int), 8, 8) ==> final(image).data@[k] == old(image).data@[k]
        }),
{
    let width = image.width;
    let row = udiv(mbNum, width);
    let col = urem(mbNum, width);
    proof {
        assert(row == mbNum as int / width as int);
        vstd::arithmetic::div_mod::lemma_fundamental_div_mod(mbNum as int, width as int);
        assert(col == mbNum as int % width as int);
        assert(row < image.height) by (nonlinear_arith)
            requires
                row == mbNum as int / width as int,
                mbNum < width * image.height,
                width >= 1,
        ;
    }
    let yA = row * 16;
    let xA = col * 16;
    if mv_prediction(mbs, cur, pMbLayer, dpb) != HANTRO_OK {
        return HANTRO_NOK;
    }
    let m = mbs[cur];
    proof {
        assert forall|k: int| 0 <= k < 4 implies #[trigger] m.refAddr@[k] < dpb.pictures.len() by {
            let mot = inter_motion(old(mbs)@, cur as int, *pMbLayer, dpb);
            assert(m.refAddr@[k] == mot.2[k]);
            let t = old(mbs)@[cur as int].mbType;
            if t >= P_8x8 && t != P_L0_L0_16x8 && t != P_L0_L0_8x16 && t != P_Skip && t != P_L0_16x16 {
                lemma_part_run_addr(old(mbs)@, cur as int, dpb, old(mbs)@[cur as int], pMbLayer.subMbPred, 4);
            }
        }
    }
    predict_blocks(data, &m, &dpb.pictures, image.width, image.height, xA, yA);
    if m.decoded > 1 {
        return HANTRO_OK;
    }
    if m.mbType != P_Skip {
        h264bsdWriteOutputBlocks(image, mbNum, data, &pMbLayer.residual.level);
    } else {
        h264bsdWriteMacroblock(image, data);
    }
    HANTRO_OK
}


/// Directional motion vector prediction (H.264 8.4.1.3): the predictor of
/// a 16x8 or 8x16 partition is the vector of one particular neighbour
/// whenever that neighbour has the partition's reference index, whatever
/// the other neighbours hold: B (block 10 of the upper macroblock) for
/// the upper 16x8 partition, A (block 13 of the left macroblock) for the
/// lower one, A (block 5 of the left macroblock) for the left 8x16
/// partition, and C (block 10 of the upper right macroblock, or block 11
/// of the upper one when C is not available) for the right one. The
/// partition's vector is that predictor plus its vector difference.
pub proof fn lemma_directional_prediction(mbs: Seq<mbStorage_t>, cur: int, p: mbPred_t, mv0: mv_t)
    ensures
        ({
            let m = mbs[cur];
            let s = m.sliceId;
            let a5 = inter_nbr(mbs, s, m.mbA, 5);
            let a13 = inter_nbr(mbs, s, m.mbA, 13);
            let b10 = inter_nbr(mbs, s, m.mbB, 10);
            let c = inter_nbr(mbs, s, m.mbC, 10);
            let cb = if c.available != 0 { c } else { inter_nbr(mbs, s, m.mbB, 11) };
            &&& b10.refIndex == p.refIdxL0@[0] ==> mv16x8_0(mbs, cur, p).0 == mv_add(p.mvdL0@[0], b10.mv)
            &&& a13.refIndex == p.refIdxL0@[1] ==> mv16x8_1(mbs, cur, p, mv0).0 == mv_add(p.mvdL0@[1], a13.mv)
            &&& a5.refIndex == p.refIdxL0@[0] ==> mv8x16_0(mbs, cur, p).0 == mv_add(p.mvdL0@[0], a5.mv)
            &&& cb.refIndex == p.refIdxL0@[1] ==> mv8x16_1(mbs, cur, p, mv0).0 == mv_add(p.mvdL0@[1], cb.mv)
        }),
{
}


/// Median motion vector prediction (H.264 8.4.1.3.1): when B and C are
/// both unavailable and A is available the predictor is A; otherwise,
/// when exactly one of A, B, C has the reference index, the predictor is
/// that neighbour's vector; else each component is the median of the
/// three, which is one of the three values and lies between their
/// smallest and largest.
pub proof fn lemma_median_prediction(a: interNeighbour_t, b: interNeighbour_t, c: interNeighbour_t, ri: u32)
    ensures
        ({
            let pr = predicted_mv3(a, b, c, ri);
            let isA = a.refIndex == ri;
            let isB = b.refIndex == ri;
            let isC = c.refIndex == ri;
            let general = b.available != 0 || c.available != 0 || a.available == 0;
            &&& !general ==> pr == (a.mv.hor as int, a.mv.ver as int)
            &&& general && isA && !isB && !isC ==> pr == (a.mv.hor as int, a.mv.ver as int)
            &&& general && !isA && isB && !isC ==> pr == (b.mv.hor as int, b.mv.ver as int)
            &&& general && !isA && !isB && isC ==> pr == (c.mv.hor as int, c.mv.ver as int)
            &&& general && !((isA && !isB && !isC) || (!isA && isB && !isC) || (!isA && !isB && isC)) ==> {
                &&& (pr.0 == a.mv.hor || pr.0 == b.mv.hor || pr.0 == c.mv.hor)
                &&& (pr.1 == a.mv.ver || pr.1 == b.mv.ver || pr.1 == c.mv.ver)
                &&& #[trigger] count_le(pr.0, a.mv.hor as int, b.mv.hor as int, c.mv.hor as int) >= 2
                &&& #[trigger] count_ge(pr.0, a.mv.hor as int, b.mv.hor as int, c.mv.hor as int) >= 2
                &&& count_le(pr.1, a.mv.ver as int, b.mv.ver as int, c.mv.ver as int) >= 2
                &&& count_ge(pr.1, a.mv.ver as int, b.mv.ver as int, c.mv.ver as int) >= 2
            }
        }),
{
}

/// How many of `a`, `b`, `c` are at most `x`.
pub open spec fn count_le(x: int, a: int, b: int, c: int) -> int {
    (if a <= x { 1int } else { 0 }) + (if b <= x { 1int } else { 0 }) + (if c <= x { 1int } else { 0 })
}

/// How many of `a`, `b`, `c` are at least `x`.
pub open spec fn count_ge(x: int, a: int, b: int, c: int) -> int {
    (if a >= x { 1int } else { 0 }) + (if b >= x { 1int } else { 0 }) + (if c >= x { 1int } else { 0 })
}

} // verus!

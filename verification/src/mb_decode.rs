//! Reconstruction of one macroblock: inverse quantisation and transform of
//! its residual, then intra or inter prediction into the picture.
use vstd::prelude::*;
use crate::defs::{EMPTY_RESIDUAL_INDICATOR, HANTRO_NOK, HANTRO_OK};
use crate::filter::{chroma_qp, qpc};
use crate::macroblock::{
    h264bsdMbPartPredMode, macroblockLayer_t, I_16x16_0_0_0, mbStorage_t, PRED_MODE_INTRA16x16, I_4x4, I_PCM, P_8x8, P_8x8ref0,
    P_Skip,
};
use crate::dpb::dpbStorage_t;
use crate::image::{h264bsdSetCurrImageMbPointers, h264bsdWriteMacroblock, image_t};
use crate::inter::{h264bsdInterPrediction, inter_mv_ok, inter_nbrs_ok, sub_types_ok};
use crate::intra::{chroma_ok, h264bsdIntraPrediction, i4_run, intra16x16_ok, pel_above, pel_left, residual_ok, usable};
use crate::transform::{
    block_fits, block_fits_check, block_residual, chroma_dc, chroma_dc_fits, chroma_dc_fits_check, h264bsdProcessBlock,
    h264bsdProcessChromaDc, h264bsdProcessLumaDc, luma_dc, luma_dc_fits, luma_dc_fits_check, residual_in_range,
};

verus! {

/// Position in the luma DC block of the DC coefficient of each luma
/// block.
pub const dcCoeffIndex: [u32; 16] = [0, 1, 4, 5, 2, 3, 6, 7, 8, 9, 12, 13, 10, 11, 14, 15];

/// Is the macroblock of type `t` an intra 16x16 one?
pub open spec fn is_i16(t: u32) -> bool {
    !(t <= P_8x8ref0) && t != I_4x4
}

/// The luma DC values of the macroblock: `lv[24]` transformed and scaled
/// when it has coefficients, else as it is.
pub open spec fn lumadc_out(lv: Seq<Seq<i32>>, m: mbStorage_t) -> Seq<int> {
    if m.totalCoeff@[24] != 0 {
        luma_dc(lv[24], m.qpY)
    } else {
        Seq::new(16, |i: int| lv[24][i] as int)
    }
}

/// The chroma quantizer of the macroblock.
pub open spec fn chroma_qp_of(m: mbStorage_t) -> u32 {
    qpc(m.qpY as int, m.chromaQpIndexOffset) as u32
}

/// The chroma DC values of the macroblock: the first eight entries of
/// `lv[25]` transformed and scaled when either chroma DC block has
/// coefficients, else as they are.
pub open spec fn chromadc_out(lv: Seq<Seq<i32>>, m: mbStorage_t) -> Seq<int> {
    if m.totalCoeff@[25] != 0 || m.totalCoeff@[26] != 0 {
        chroma_dc(lv[25].take(8), chroma_qp_of(m))
    } else {
        Seq::new(8, |i: int| lv[25][i] as int)
    }
}

/// Block `b` (luma 0..15, chroma 16..23) before its transform: its DC
/// coefficient taken from the DC block for intra 16x16 luma and for
/// chroma.
pub open spec fn block_in(lv: Seq<Seq<i32>>, m: mbStorage_t, b: int) -> Seq<i32> {
    if b < 16 {
        if is_i16(m.mbType) {
            lv[b].update(0, lumadc_out(lv, m)[dcCoeffIndex@[b] as int] as i32)
        } else {
            lv[b]
        }
    } else {
        lv[b].update(0, chromadc_out(lv, m)[b - 16] as i32)
    }
}

/// Quantizer of block `b`.
pub open spec fn block_qp(m: mbStorage_t, b: int) -> u32 {
    if b < 16 { m.qpY } else { chroma_qp_of(m) }
}

/// Is the DC coefficient of block `b` already scaled?
pub open spec fn block_skip(m: mbStorage_t, b: int) -> bool {
    b >= 16 || is_i16(m.mbType)
}

/// Has block `b` anything to transform?
pub open spec fn block_coded(lv: Seq<Seq<i32>>, m: mbStorage_t, b: int) -> bool {
    if b < 16 && !is_i16(m.mbType) {
        m.totalCoeff@[b] != 0
    } else {
        block_in(lv, m, b)[0] != 0 || m.totalCoeff@[b] != 0
    }
}

/// Does the residual of the macroblock process: the DC blocks and every
/// coded block stay within 32-bit arithmetic and every residual value
/// lies in [-512, 511]?
pub open spec fn residual_processes(lv: Seq<Seq<i32>>, m: mbStorage_t, map: Seq<u32>) -> bool {
    &&& is_i16(m.mbType) && m.totalCoeff@[24] != 0 ==> luma_dc_fits(lv[24], m.qpY)
    &&& m.totalCoeff@[25] != 0 || m.totalCoeff@[26] != 0 ==> chroma_dc_fits(lv[25].take(8), chroma_qp_of(m))
    &&& forall|b: int|
        0 <= b < 24 && #[trigger] block_coded(lv, m, b) ==> block_fits(
            block_in(lv, m, b),
            block_qp(m, b),
            block_skip(m, b),
            map[b],
        ) && residual_in_range(block_residual(block_in(lv, m, b), block_qp(m, b), block_skip(m, b), map[b]))
}

/// The residual of block `b` after processing: the transformed block, or
/// the block marked empty when it has nothing coded.
pub open spec fn block_out(lv: Seq<Seq<i32>>, m: mbStorage_t, map: Seq<u32>, b: int) -> Seq<int> {
    if block_coded(lv, m, b) {
        block_residual(block_in(lv, m, b), block_qp(m, b), block_skip(m, b), map[b])
    } else {
        Seq::new(16, |k: int| if k == 0 { EMPTY_RESIDUAL_INDICATOR as int } else { block_in(lv, m, b)[k] as int })
    }
}

/// Inverse quantisation and transform of the residual of macroblock `pMb`
/// in `level` (`residual_processes`, `block_out`). HANTRO_NOK when a block
/// does not process; a DC block or coded block whose arithmetic would
/// leave 32 bits is reported the same way.
pub fn ProcessResidual(pMb: &mbStorage_t, level: &mut [[i32; 16]; 26], coeffMap: &[u32; 24]) -> (r: u32)
    requires
        pMb.qpY <= 51,
        -51 <= pMb.chromaQpIndexOffset <= 51,
    ensures
        ({
            let lv = Seq::new(26, |i: int| old(level)@[i]@);
            &&& r == if residual_processes(lv, *pMb, coeffMap@) { HANTRO_OK } else { HANTRO_NOK }
            &&& r == HANTRO_OK ==> forall|b: int, k: int|
                0 <= b < 24 && 0 <= k < 16 ==> #[trigger] final(level)@[b]@[k] as int == block_out(lv, *pMb, coeffMap@, b)[k]
        }),
{
    let ghost lv = Seq::new(26, |i: int| level@[i]@);
    let ghost m = *pMb;
    let qp = pMb.qpY;
    let is16 = h264bsdMbPartPredMode(pMb.mbType) == PRED_MODE_INTRA16x16;
    if is16 && pMb.totalCoeff[24] != 0 {
        let mut dc = level[24];
        assert(dc@ == lv[24]);
        if !luma_dc_fits_check(&dc, qp) {
            return HANTRO_NOK;
        }
        h264bsdProcessLumaDc(&mut dc, qp);
        level[24] = dc;
        proof {
            assert forall|i: int| 0 <= i < 16 implies #[trigger] level@[24]@[i] as int == lumadc_out(lv, m)[i] by {}
        }
    } else {
        proof {
            assert forall|i: int| is16 && 0 <= i < 16 implies #[trigger] level@[24]@[i] as int == lumadc_out(lv, m)[i] by {}
        }
    }
    let mut b: usize = 0;
    while b < 16
        invariant
            b <= 16,
            qp == m.qpY,
            qp <= 51,
            *pMb == m,
            is16 == is_i16(m.mbType),
            lv == Seq::new(26, |i: int| old(level)@[i]@),
            forall|i: int| is16 && 0 <= i < 16 ==> #[trigger] level@[24]@[i] as int == lumadc_out(lv, m)[i],
            level@[25] == old(level)@[25],
            forall|j: int| b <= j < 24 ==> #[trigger] level@[j] == old(level)@[j],
            forall|j: int, k: int|
                0 <= j < b && 0 <= k < 16 ==> #[trigger] level@[j]@[k] as int == block_out(lv, m, coeffMap@, j)[k],
            forall|j: int|
                0 <= j < b && #[trigger] block_coded(lv, m, j) ==> block_fits(
                    block_in(lv, m, j),
                    block_qp(m, j),
                    block_skip(m, j),
                    coeffMap@[j],
                ) && residual_in_range(block_residual(block_in(lv, m, j), block_qp(m, j), block_skip(m, j), coeffMap@[j])),
            is16 && m.totalCoeff@[24] != 0 ==> luma_dc_fits(lv[24], m.qpY),
        decreases 16 - b,
    {
        let mut blk = level[b];
        if is16 {
            blk[0] = level[24][dcCoeffIndex[b] as usize];
        }
        let ghost bi = block_in(lv, m, b as int);
        assert(blk@ =~= bi);
        let coded = if is16 { blk[0] != 0 || pMb.totalCoeff[b] != 0 } else { pMb.totalCoeff[b] != 0 };
        assert(coded == block_coded(lv, m, b as int));
        if coded {
            if !block_fits_check(&blk, qp, is16, coeffMap[b]) {
                proof {
                    assert(!residual_processes(lv, m, coeffMap@));
                }
                return HANTRO_NOK;
            }
            let sk: u32 = if is16 { 1 } else { 0 };
            let cm = coeffMap[b];
            let ghost v0 = block_residual(blk@, qp, sk != 0, cm);
            assert(v0 == block_residual(bi, block_qp(m, b as int), block_skip(m, b as int), coeffMap@[b as int]));
            let pr = h264bsdProcessBlock(&mut blk, qp, sk, cm);
            if pr != HANTRO_OK {
                proof {
                    assert(!residual_processes(lv, m, coeffMap@));
                }
                return HANTRO_NOK;
            }
            proof {
                let v = block_residual(bi, block_qp(m, b as int), block_skip(m, b as int), coeffMap@[b as int]);
                assert(block_out(lv, m, coeffMap@, b as int) == v);
                assert(v0 == v);
                assert forall|k: int| 0 <= k < 16 implies #[trigger] blk@[k] as int == block_out(lv, m, coeffMap@, b as int)[k] by {
                    assert(blk@[k] as int == v0[k]);
                }
            }
        } else {
            blk[0] = EMPTY_RESIDUAL_INDICATOR as i32;
            proof {
                assert(EMPTY_RESIDUAL_INDICATOR as i32 == 0xFF_FFFFi32);
                assert forall|k: int| 0 <= k < 16 implies #[trigger] blk@[k] as int == block_out(lv, m, coeffMap@, b as int)[k] by {
                    if k > 0 {
                        assert(blk@[k] == bi[k]);
                    }
                }
            }
        }
        level[b] = blk;
        b += 1;
    }
    let cqp = chroma_qp(qp, pMb.chromaQpIndexOffset);
    let mut cdc: [i32; 8] = [
        level[25][0],
        level[25][1],
        level[25][2],
        level[25][3],
        level[25][4],
        level[25][5],
        level[25][6],
        level[25][7],
    ];
    assert(cdc@ =~= lv[25].take(8));
    if pMb.totalCoeff[25] != 0 || pMb.totalCoeff[26] != 0 {
        if !chroma_dc_fits_check(&cdc, cqp) {
            return HANTRO_NOK;
        }
        h264bsdProcessChromaDc(&mut cdc, cqp);
        proof {
            assert forall|i: int| 0 <= i < 8 implies #[trigger] cdc@[i] as int == chromadc_out(lv, m)[i] by {}
        }
    } else {
        proof {
            assert forall|i: int| 0 <= i < 8 implies #[trigger] cdc@[i] as int == chromadc_out(lv, m)[i] by {}
        }
    }
    while b < 24
        invariant
            16 <= b <= 24,
            qp == m.qpY,
            qp <= 51,
            cqp == chroma_qp_of(m),
            cqp <= 39,
            *pMb == m,
            is16 == is_i16(m.mbType),
            lv == Seq::new(26, |i: int| old(level)@[i]@),
            forall|i: int| 0 <= i < 8 ==> #[trigger] cdc@[i] as int == chromadc_out(lv, m)[i],
            forall|j: int| b <= j < 24 ==> #[trigger] level@[j] == old(level)@[j],
            forall|j: int, k: int|
                0 <= j < b && 0 <= k < 16 ==> #[trigger] level@[j]@[k] as int == block_out(lv, m, coeffMap@, j)[k],
            forall|j: int|
                0 <= j < b && #[trigger] block_coded(lv, m, j) ==> block_fits(
                    block_in(lv, m, j),
                    block_qp(m, j),
                    block_skip(m, j),
                    coeffMap@[j],
                ) && residual_in_range(block_residual(block_in(lv, m, j), block_qp(m, j), block_skip(m, j), coeffMap@[j])),
            is16 && m.totalCoeff@[24] != 0 ==> luma_dc_fits(lv[24], m.qpY),
            m.totalCoeff@[25] != 0 || m.totalCoeff@[26] != 0 ==> chroma_dc_fits(lv[25].take(8), chroma_qp_of(m)),
        decreases 24 - b,
    {
        let mut blk = level[b];
        blk[0] = cdc[b - 16];
        let ghost bi = block_in(lv, m, b as int);
        assert(blk@ =~= bi);
        assert((blk@[0] != 0 || pMb.totalCoeff@[b as int] != 0) == block_coded(lv, m, b as int));
        if blk[0] != 0 || pMb.totalCoeff[b] != 0 {
            if !block_fits_check(&blk, cqp, true, coeffMap[b]) {
                proof {
                    assert(!residual_processes(lv, m, coeffMap@));
                }
                return HANTRO_NOK;
            }
            let cm = coeffMap[b];
            let ghost v0 = block_residual(blk@, cqp, true, cm);
            assert(v0 == block_residual(bi, block_qp(m, b as int), block_skip(m, b as int), coeffMap@[b as int]));
            let pr = h264bsdProcessBlock(&mut blk, cqp, 1, cm);
            if pr != HANTRO_OK {
                proof {
                    assert(!residual_processes(lv, m, coeffMap@));
                }
                return HANTRO_NOK;
            }
            proof {
                let v = block_residual(bi, block_qp(m, b as int), block_skip(m, b as int), coeffMap@[b as int]);
                assert(block_out(lv, m, coeffMap@, b as int) == v);
                assert(v0 == v);
                assert forall|k: int| 0 <= k < 16 implies #[trigger] blk@[k] as int == block_out(lv, m, coeffMap@, b as int)[k] by {
                    assert(blk@[k] as int == v0[k]);
                }
            }
        } else {
            blk[0] = EMPTY_RESIDUAL_INDICATOR as i32;
            proof {
                assert(EMPTY_RESIDUAL_INDICATOR as i32 == 0xFF_FFFFi32);
                assert forall|k: int| 0 <= k < 16 implies #[trigger] blk@[k] as int == block_out(lv, m, coeffMap@, b as int)[k] by {
                    if k > 0 {
                        assert(blk@[k] == bi[k]);
                    }
                }
            }
        }
        level[b] = blk;
        b += 1;
    }
    HANTRO_OK
}

/// The luma quantizer after a QP delta: the sum wrapped into [0, 51].
pub open spec fn qp_update(qp: int, delta: int) -> int {
    if delta == 0 {
        qp
    } else if qp + delta < 0 {
        qp + delta + 52
    } else if qp + delta >= 52 {
        qp + delta - 52
    } else {
        qp + delta
    }
}

/// Macroblock `m` with the results of prediction (intra 4x4 modes,
/// motion vectors, reference indices and reference memories) taken from
/// `o`: the state a macroblock has before its prediction.
pub open spec fn before_prediction(m: mbStorage_t, o: mbStorage_t) -> mbStorage_t {
    mbStorage_t { intra4x4PredMode: o.intra4x4PredMode, mv: o.mv, refPic: o.refPic, refAddr: o.refAddr, ..m }
}

/// Does intra prediction of macroblock `cur` (number `mbNum`) succeed: its
/// 16x16 or 4x4 luma modes and its chroma mode find the neighbours they
/// use (`h264bsdIntraPrediction`).
pub open spec fn intra_pred_ok(
    mbs: Seq<mbStorage_t>,
    cur: int,
    l: macroblockLayer_t,
    image: image_t,
    mbNum: int,
    cip: bool,
    data: Seq<u8>,
) -> bool {
    let m = mbs[cur];
    let ab = pel_above(image, mbNum);
    let lf = pel_left(image, mbNum);
    let A = usable(mbs, cur, m.mbA, cip);
    let B = usable(mbs, cur, m.mbB, cip);
    let D = usable(mbs, cur, m.mbD, cip);
    let is16 = m.mbType > I_4x4;
    let mode16 = (m.mbType - I_16x16_0_0_0) % 4;
    let run = i4_run(mbs, cur, l, ab, lf, cip, data, m.intra4x4PredMode@, 16);
    let luma_ok = if is16 { intra16x16_ok(mode16, A, B, D) } else { run.0 };
    let pm = l.mbPred.intraChromaPredMode;
    let cmode = if pm > 3 { 3int } else { pm as int };
    luma_ok && chroma_ok(cmode, A, B, D)
}

/// A processed residual block can be added to a prediction.
proof fn lemma_block_out_ok(lv: Seq<Seq<i32>>, m: mbStorage_t, map: Seq<u32>, b: int, v: Seq<i32>)
    requires
        0 <= b < 24,
        residual_processes(lv, m, map),
        v.len() == 16,
        forall|k: int| 0 <= k < 16 ==> #[trigger] v[k] as int == block_out(lv, m, map, b)[k],
    ensures
        residual_ok(v),
{
    if block_coded(lv, m, b) {
        assert(residual_in_range(block_residual(block_in(lv, m, b), block_qp(m, b), block_skip(m, b), map[b])));
        assert forall|k: int| 0 <= k < 16 implies -512 <= #[trigger] v[k] <= 512 by {
            assert(v[k] as int == block_out(lv, m, map, b)[k]);
        }
    } else {
        assert(v[0] as int == block_out(lv, m, map, b)[0]);
    }
}

/// Decode one macroblock `cur` (number `mbNum` in the picture) from its
/// layer: its type and decoding count go to its state; an I_PCM
/// macroblock is written to the picture as it is (once); any other gets
/// its QP (`qp_update` for a coded one, and every coefficient count zero
/// for P_Skip), its residual processed (`ProcessResidual`) and its intra
/// or inter prediction (`h264bsdIntraPrediction`,
/// `h264bsdInterPrediction`).
#[verifier::rlimit(50)]
pub fn h264bsdDecodeMacroblock(
    mbs: &mut Vec<mbStorage_t>,
    cur: usize,
    pMbLayer: &mut macroblockLayer_t,
    currImage: &mut image_t,
    dpb: &dpbStorage_t,
    qpY: &mut i32,
    mbNum: u32,
    constrainedIntraPredFlag: u32,
    data: &mut [u8; 384],
) -> (r: u32)
    requires
        inter_nbrs_ok(old(mbs)@, cur as int),
        old(mbs)@[cur as int].decoded < u32::MAX,
        -12 <= old(mbs)@[cur as int].chromaQpIndexOffset <= 12,
        0 <= *old(qpY) <= 51,
        old(pMbLayer).mbType <= I_PCM,
        old(pMbLayer).mbType != P_Skip ==> -26 <= old(pMbLayer).mbQpDelta <= 25,
        P_8x8 <= old(pMbLayer).mbType <= P_8x8ref0 ==> sub_types_ok(old(pMbLayer).subMbPred),
        old(pMbLayer).mbType > P_8x8ref0 ==> forall|b: int|
            0 <= b < 16 ==> #[trigger] old(pMbLayer).mbPred.remIntra4x4PredMode@[b] < u32::MAX,
        dpb.wf(),
        old(currImage).wf(),
        mbNum < old(currImage).width * old(currImage).height,
        forall|k: int| 0 <= k < dpb.pictures.len() ==> #[trigger] dpb.pictures@[k]@.len() == old(currImage).data.len(),
    ensures
        ({
            let t = old(pMbLayer).mbType;
            let o = old(mbs)@[cur as int];
            let m = final(mbs)@[cur as int];
            let coded = t != I_PCM && t != P_Skip;
            let lv = Seq::new(26, |i: int| old(pMbLayer).residual.level@[i]@);
            let m1 = before_prediction(m, o);
            let mbs1 = old(mbs)@.update(cur as int, m1);
            let res_ok = residual_processes(lv, m1, old(pMbLayer).residual.coeffMap@);
            &&& r == HANTRO_OK || r == HANTRO_NOK
            &&& final(pMbLayer).mbType == t
            &&& final(pMbLayer).mbPred == old(pMbLayer).mbPred
            &&& final(pMbLayer).subMbPred == old(pMbLayer).subMbPred
            &&& final(mbs)@.len() == old(mbs)@.len()
            &&& forall|j: int| 0 <= j < old(mbs)@.len() && j != cur ==> final(mbs)@[j] == old(mbs)@[j]
            &&& m.mbType == t
            &&& m.decoded == o.decoded + 1
            &&& m.sliceId == o.sliceId
            &&& m.chromaQpIndexOffset == o.chromaQpIndexOffset
            &&& m.mbA == o.mbA && m.mbB == o.mbB && m.mbC == o.mbC && m.mbD == o.mbD
            &&& final(currImage).width == old(currImage).width
            &&& final(currImage).height == old(currImage).height
            &&& final(currImage).data.len() == old(currImage).data.len()
            &&& t == I_PCM ==> {
                &&& r == HANTRO_OK
                &&& *final(qpY) == *old(qpY)
                &&& m.qpY == 0
                &&& forall|b: int| 0 <= b < 24 ==> #[trigger] m.totalCoeff@[b] == 16
                &&& forall|b: int| 24 <= b < 27 ==> #[trigger] m.totalCoeff@[b] == o.totalCoeff@[b]
                &&& o.decoded == 0 ==> forall|b: int, k: int|
                    0 <= b < 24 && 0 <= k < 16 ==> #[trigger] final(data)@[16 * b + k] == old(pMbLayer).residual.level@[b]@[k] as u8
            }
            &&& t == P_Skip ==> {
                &&& *final(qpY) == *old(qpY)
                &&& m.qpY == *old(qpY)
                &&& forall|b: int| 0 <= b < 27 ==> #[trigger] m.totalCoeff@[b] == 0
            }
            &&& coded ==> {
                &&& *final(qpY) == qp_update(*old(qpY) as int, old(pMbLayer).mbQpDelta as int)
                &&& m.qpY == *final(qpY)
                &&& m.totalCoeff == old(pMbLayer).residual.totalCoeff
                &&& !res_ok ==> r == HANTRO_NOK
                &&& r == HANTRO_OK ==> res_ok
                &&& res_ok ==> forall|b: int, k: int|
                    0 <= b < 24 && 0 <= k < 16 ==> #[trigger] final(pMbLayer).residual.level@[b]@[k] as int == block_out(
                        lv,
                        m1,
                        old(pMbLayer).residual.coeffMap@,
                        b,
                    )[k]
            }
            &&& t > P_8x8ref0 && t != I_PCM && res_ok ==> r == if intra_pred_ok(
                mbs1,
                cur as int,
                *final(pMbLayer),
                *old(currImage),
                mbNum as int,
                constrainedIntraPredFlag != 0,
                old(data)@,
            ) {
                HANTRO_OK
            } else {
                HANTRO_NOK
            }
            &&& t <= P_8x8ref0 && (t == P_Skip || res_ok) ==> r == if inter_mv_ok(mbs1, cur as int, *final(pMbLayer), dpb) {
                HANTRO_OK
            } else {
                HANTRO_NOK
            }
        }),
{
    let ghost o = mbs@[cur as int];
    let ghost l0 = *pMbLayer;
    let t = pMbLayer.mbType;
    let mut m = mbs[cur];
    m.mbType = t;
    m.decoded = m.decoded + 1;
    h264bsdSetCurrImageMbPointers(currImage, mbNum);
    if t == I_PCM {
        m.qpY = 0;
        let mut i: usize = 0;
        while i < 24
            invariant
                i <= 24,
                forall|b: int| 0 <= b < i ==> #[trigger] m.totalCoeff@[b] == 16,
                forall|b: int| 24 <= b < 27 ==> #[trigger] m.totalCoeff@[b] == o.totalCoeff@[b],
                m.mbType == t,
                m.decoded == o.decoded + 1,
                m.qpY == 0,
                m.sliceId == o.sliceId,
                m.chromaQpIndexOffset == o.chromaQpIndexOffset,
                m.mbA == o.mbA && m.mbB == o.mbB && m.mbC == o.mbC && m.mbD == o.mbD,
            decreases 24 - i,
        {
            m.totalCoeff[i] = 16;
            i += 1;
        }
        if m.decoded > 1 {
            mbs.set(cur, m);
            return HANTRO_OK;
        }
        let mut b: usize = 0;
        while b < 24
            invariant
                b <= 24,
                *pMbLayer == l0,
                forall|bb: int, k: int|
                    0 <= bb < b && 0 <= k < 16 ==> #[trigger] data@[16 * bb + k] == l0.residual.level@[bb]@[k] as u8,
            decreases 24 - b,
        {
            let mut k: usize = 0;
            while k < 16
                invariant
                    b < 24,
                    k <= 16,
                    *pMbLayer == l0,
                    forall|bb: int, kk: int|
                        0 <= bb < b && 0 <= kk < 16 ==> #[trigger] data@[16 * bb + kk] == l0.residual.level@[bb]@[kk] as u8,
                    forall|kk: int| 0 <= kk < k ==> #[trigger] data@[16 * b + kk] == l0.residual.level@[b as int]@[kk] as u8,
                decreases 16 - k,
            {
                data[16 * b + k] = pMbLayer.residual.level[b][k] as u8;
                k += 1;
            }
            b += 1;
        }
        mbs.set(cur, m);
        h264bsdWriteMacroblock(currImage, data);
        return HANTRO_OK;
    }
    if t != P_Skip {
        m.totalCoeff = pMbLayer.residual.totalCoeff;
        let delta = pMbLayer.mbQpDelta;
        if delta != 0 {
            let mut q = *qpY + delta;
            if q < 0 {
                q = q + 52;
            } else if q >= 52 {
                q = q - 52;
            }
            *qpY = q;
        }
        m.qpY = *qpY as u32;
        let mut lv = pMbLayer.residual.level;
        let cm = pMbLayer.residual.coeffMap;
        let pr = ProcessResidual(&m, &mut lv, &cm);
        pMbLayer.residual.level = lv;
        mbs.set(cur, m);
        if pr != HANTRO_OK {
            return pr;
        }
        proof {
            let lvs = Seq::new(26, |i: int| l0.residual.level@[i]@);
            assert forall|b: int| 0 <= b < 24 implies residual_ok(#[trigger] pMbLayer.residual.level@[b]@) by {
                lemma_block_out_ok(lvs, m, cm@, b, pMbLayer.residual.level@[b]@);
            }
        }
    } else {
        m.totalCoeff = [0i16; 27];
        m.qpY = *qpY as u32;
        mbs.set(cur, m);
    }
    assert(before_prediction(m, o) == m);
    if t > P_8x8ref0 {
        assert(pel_above(*currImage, mbNum as int) =~= pel_above(*old(currImage), mbNum as int));
        assert(pel_left(*currImage, mbNum as int) =~= pel_left(*old(currImage), mbNum as int));
        h264bsdIntraPrediction(mbs, cur, pMbLayer, currImage, mbNum, constrainedIntraPredFlag, data)
    } else {
        h264bsdInterPrediction(mbs, cur, pMbLayer, dpb, mbNum, currImage, data)
    }
}

} // verus!

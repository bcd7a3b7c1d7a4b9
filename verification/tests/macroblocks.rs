use h264bsd::defs::{EMPTY_RESIDUAL_INDICATOR, HANTRO_FALSE, HANTRO_TRUE, IS_I_SLICE, IS_P_SLICE};
use h264bsd::inter::{interNeighbour_t, GetPredictionMv, MedianFilter};
use h264bsd::macroblock::{
    h264bsdMbPartPredMode, h264bsdNumMbPart, h264bsdNumSubMbPart, h264bsdPredModeIntra16x16, h264bsdSubMbPartMode,
    mbStorage_t, mv_t, CbpIntra16x16, IS_INTRA_MB, IS_I_PCM_MB, I_16x16_0_0_0, I_4x4, I_PCM, PRED_MODE_INTER,
    PRED_MODE_INTRA16x16, PRED_MODE_INTRA4x4, P_8x8, P_L0_16x16, P_L0_4x4, P_L0_8x4, P_L0_8x8, P_L0_L0_16x8, P_Skip,
};
use h264bsd::neighbour::{
    h264bsdIsNeighbourAvailable, h264bsdNeighbour4x4BlockA, h264bsdNeighbour4x4BlockB, h264bsdNeighbour4x4BlockC,
    h264bsdNeighbour4x4BlockD, MB_A, MB_B, MB_C, MB_CURR, MB_D, MB_NA,
};
use h264bsd::util::{h264bsdNextMbAddress, IS_RESIDUAL_EMPTY, MARK_RESIDUAL_EMPTY};

fn mb(mb_type: u32, slice_id: u32) -> mbStorage_t {
    mbStorage_t {
        mbType: mb_type,
        sliceId: slice_id,
        disableDeblockingFilterIdc: 0,
        filterOffsetA: 0,
        filterOffsetB: 0,
        qpY: 0,
        chromaQpIndexOffset: 0,
        totalCoeff: [0; 27],
        intra4x4PredMode: [0; 16],
        refPic: [0; 4],
        refAddr: [0; 4],
        mv: [mv_t { hor: 0, ver: 0 }; 16],
        decoded: 0,
        mbA: None,
        mbB: None,
        mbC: None,
        mbD: None,
    }
}

#[test]
fn macroblock_type_queries() {
    assert_eq!(h264bsdMbPartPredMode(P_Skip), PRED_MODE_INTER);
    assert_eq!(h264bsdMbPartPredMode(I_4x4), PRED_MODE_INTRA4x4);
    assert_eq!(h264bsdMbPartPredMode(I_16x16_0_0_0 + 5), PRED_MODE_INTRA16x16);
    assert_eq!(h264bsdNumMbPart(P_L0_16x16), 1);
    assert_eq!(h264bsdNumMbPart(P_L0_L0_16x8), 2);
    assert_eq!(h264bsdNumMbPart(P_8x8), 4);
    assert_eq!(h264bsdNumSubMbPart(P_L0_8x8), 1);
    assert_eq!(h264bsdNumSubMbPart(P_L0_8x4), 2);
    assert_eq!(h264bsdNumSubMbPart(P_L0_4x4), 4);
    assert_eq!(h264bsdSubMbPartMode(P_L0_8x4), 1);
    assert!(IS_INTRA_MB(&mb(I_4x4, 0)));
    assert!(!IS_INTRA_MB(&mb(P_8x8, 0)));
    assert!(IS_I_PCM_MB(&mb(I_PCM, 0)));
    assert!(IS_I_SLICE(7) && IS_P_SLICE(5) && !IS_P_SLICE(2));
}

#[test]
fn intra16x16_mode_and_coded_block_pattern() {
    /* I_16x16_2_1_1: prediction mode 2, chroma cbp 1, luma cbp 15 */
    let t = I_16x16_0_0_0 + 12 + 4 + 2;
    assert_eq!(h264bsdPredModeIntra16x16(t), 2);
    assert_eq!(CbpIntra16x16(t), 15 + 16);
    assert_eq!(CbpIntra16x16(I_16x16_0_0_0), 0);
    assert_eq!(CbpIntra16x16(I_16x16_0_0_0 + 11), 32 + 0);
}

#[test]
fn neighbour_blocks() {
    /* block 0 is the top-left one: A is block 5 of the left macroblock, B
     * block 10 of the one above, D block 15 of the one above-left */
    let a = h264bsdNeighbour4x4BlockA(0);
    assert_eq!((a.mb, a.index), (MB_A, 5));
    let b = h264bsdNeighbour4x4BlockB(0);
    assert_eq!((b.mb, b.index), (MB_B, 10));
    let d = h264bsdNeighbour4x4BlockD(0);
    assert_eq!((d.mb, d.index), (MB_D, 15));
    /* block 3 lies inside the macroblock */
    let a = h264bsdNeighbour4x4BlockA(3);
    assert_eq!((a.mb, a.index), (MB_CURR, 2));
    /* the right neighbour above block 5 is in macroblock C */
    let c = h264bsdNeighbour4x4BlockC(5);
    assert_eq!((c.mb, c.index), (MB_C, 10));
    /* block 3's above-right block is decoded later: not available */
    assert_eq!(h264bsdNeighbour4x4BlockC(3).mb, MB_NA);
}

#[test]
fn neighbour_availability() {
    let cur = mb(I_4x4, 1);
    assert_eq!(h264bsdIsNeighbourAvailable(&cur, Some(&mb(P_Skip, 1))), HANTRO_TRUE);
    assert_eq!(h264bsdIsNeighbourAvailable(&cur, Some(&mb(P_Skip, 2))), HANTRO_FALSE);
    assert_eq!(h264bsdIsNeighbourAvailable(&cur, None), HANTRO_FALSE);
}

#[test]
fn median_of_three() {
    assert_eq!(MedianFilter(3, 1, 2), 2);
    assert_eq!(MedianFilter(-5, 7, 7), 7);
    assert_eq!(MedianFilter(0, 0, -1), 0);
    assert_eq!(MedianFilter(1, 2, 3), MedianFilter(3, 2, 1));
}

fn nb(available: u32, ref_index: u32, hor: i16, ver: i16) -> interNeighbour_t {
    interNeighbour_t { available, refIndex: ref_index, mv: mv_t { hor, ver } }
}

#[test]
fn motion_vector_prediction() {
    let mut mv = mv_t { hor: 0, ver: 0 };
    /* all three with the same reference: componentwise median */
    GetPredictionMv(&mut mv, &[nb(1, 0, 4, -2), nb(1, 0, 8, 6), nb(1, 0, -1, 3)], 0);
    assert_eq!((mv.hor, mv.ver), (4, 3));
    /* only B has the reference: B's vector */
    GetPredictionMv(&mut mv, &[nb(1, 1, 4, -2), nb(1, 0, 8, 6), nb(1, 2, -1, 3)], 0);
    assert_eq!((mv.hor, mv.ver), (8, 6));
    /* only A available: A's vector whatever its reference */
    GetPredictionMv(&mut mv, &[nb(1, 3, 5, 5), nb(0, 9, 0, 0), nb(0, 9, 0, 0)], 0);
    assert_eq!((mv.hor, mv.ver), (5, 5));
}

#[test]
fn next_macroblock_of_slice_group() {
    let map = [0, 1, 1, 0, 1, 0];
    assert_eq!(h264bsdNextMbAddress(&map, 6, 0), 3);
    assert_eq!(h264bsdNextMbAddress(&map, 6, 1), 2);
    assert_eq!(h264bsdNextMbAddress(&map, 6, 4), 0);
}

#[test]
fn residual_empty_marker() {
    let mut r = [5i32, 6, 7];
    assert!(!IS_RESIDUAL_EMPTY(&r));
    MARK_RESIDUAL_EMPTY(&mut r);
    assert_eq!(r[0], EMPTY_RESIDUAL_INDICATOR as i32);
    assert!(IS_RESIDUAL_EMPTY(&r));
}

use h264bsd::deblock::{
    bS_t, EdgeBoundaryStrength, GetBoundaryStrengths, GetMbFilteringFlags, InnerBoundaryStrength,
    IsSliceBoundaryOnLeft, FILTER_INNER_EDGE, FILTER_LEFT_EDGE, FILTER_TOP_EDGE,
};
use h264bsd::defs::{HANTRO_FALSE, HANTRO_TRUE};
use h264bsd::macroblock::{mbStorage_t, mv_t, I_4x4, P_L0_16x16, P_L0_L0_16x8, P_8x8};

fn mb(mb_type: u32, slice_id: u32) -> mbStorage_t {
    mbStorage_t {
        mbType: mb_type,
        sliceId: slice_id,
        disableDeblockingFilterIdc: 0,
        filterOffsetA: 0,
        filterOffsetB: 0,
        qpY: 26,
        chromaQpIndexOffset: 0,
        totalCoeff: [0; 27],
        intra4x4PredMode: [0; 16],
        refPic: [0; 4],
        refAddr: [7; 4],
        mv: [mv_t { hor: 0, ver: 0 }; 16],
        decoded: 0,
        mbA: None,
        mbB: None,
        mbC: None,
        mbD: None,
    }
}

/// A 2x2 picture: 0 1 / 2 3, each with its neighbours A and B set.
fn picture(t: u32) -> Vec<mbStorage_t> {
    let mut v = vec![mb(t, 0), mb(t, 0), mb(t, 0), mb(t, 0)];
    v[1].mbA = Some(0);
    v[2].mbB = Some(0);
    v[3].mbA = Some(2);
    v[3].mbB = Some(1);
    v
}

#[test]
fn filtering_flags_follow_neighbours_and_idc() {
    let mut p = picture(P_L0_16x16);
    assert_eq!(GetMbFilteringFlags(&p, 0), FILTER_INNER_EDGE);
    assert_eq!(GetMbFilteringFlags(&p, 1), FILTER_INNER_EDGE | FILTER_LEFT_EDGE);
    assert_eq!(GetMbFilteringFlags(&p, 2), FILTER_INNER_EDGE | FILTER_TOP_EDGE);
    assert_eq!(GetMbFilteringFlags(&p, 3), FILTER_INNER_EDGE | FILTER_LEFT_EDGE | FILTER_TOP_EDGE);
    p[3].disableDeblockingFilterIdc = 1;
    assert_eq!(GetMbFilteringFlags(&p, 3), 0);
    p[3].disableDeblockingFilterIdc = 2;
    p[3].sliceId = 1;
    p[1].sliceId = 1;
    assert_eq!(IsSliceBoundaryOnLeft(&p, 3), HANTRO_TRUE);
    assert_eq!(GetMbFilteringFlags(&p, 3), FILTER_INNER_EDGE | FILTER_TOP_EDGE);
}

#[test]
fn intra_macroblock_strengths() {
    let p = picture(I_4x4);
    let mut bs = [bS_t { top: 9, left: 9 }; 16];
    let flags = FILTER_INNER_EDGE | FILTER_LEFT_EDGE | FILTER_TOP_EDGE;
    assert_eq!(GetBoundaryStrengths(&p, 3, &mut bs, flags), HANTRO_TRUE);
    for r in 0..16 {
        assert_eq!(bs[r].top, if r < 4 { 4 } else { 3 });
        assert_eq!(bs[r].left, if r % 4 == 0 { 4 } else { 3 });
    }
}

#[test]
fn unfiltered_edges_get_zero() {
    let p = picture(I_4x4);
    let mut bs = [bS_t { top: 9, left: 9 }; 16];
    assert_eq!(GetBoundaryStrengths(&p, 0, &mut bs, FILTER_INNER_EDGE), HANTRO_TRUE);
    for r in 0..4 {
        assert_eq!(bs[r].top, 0);
        assert_eq!(bs[4 * r].left, 0);
    }
    assert_eq!(bs[5].top, 3);
}

#[test]
fn inter_macroblocks_without_differences() {
    let p = picture(P_L0_16x16);
    let mut bs = [bS_t { top: 9, left: 9 }; 16];
    let flags = FILTER_INNER_EDGE | FILTER_LEFT_EDGE | FILTER_TOP_EDGE;
    assert_eq!(GetBoundaryStrengths(&p, 3, &mut bs, flags), HANTRO_FALSE);
    for r in 0..16 {
        assert_eq!(bs[r].top, 0);
        assert_eq!(bs[r].left, 0);
    }
}

#[test]
fn coefficients_give_strength_two() {
    let mut p = picture(P_L0_16x16);
    /* block 3 lies at raster position 5 */
    p[3].totalCoeff[3] = 2;
    let mut bs = [bS_t { top: 9, left: 9 }; 16];
    let flags = FILTER_INNER_EDGE | FILTER_LEFT_EDGE | FILTER_TOP_EDGE;
    assert_eq!(GetBoundaryStrengths(&p, 3, &mut bs, flags), HANTRO_TRUE);
    assert_eq!(bs[5].top, 2);
    assert_eq!(bs[9].top, 2);
    assert_eq!(bs[5].left, 2);
    assert_eq!(bs[6].left, 2);
    assert_eq!(bs[6].top, 0);
    assert_eq!(bs[0].top, 0);
}

#[test]
fn motion_and_reference_differences() {
    let mut p = picture(P_8x8);
    p[3].mv[1] = mv_t { hor: 4, ver: 0 };
    p[3].refAddr[2] = 9;
    let mut bs = [bS_t { top: 9, left: 9 }; 16];
    assert_eq!(GetBoundaryStrengths(&p, 3, &mut bs, FILTER_INNER_EDGE), HANTRO_TRUE);
    /* block 1 is raster 1: its left edge and the top edge of raster 5 */
    assert_eq!(bs[1].left, 1);
    assert_eq!(bs[2].left, 1);
    assert_eq!(bs[5].top, 1);
    /* partition 2 (blocks 8..11, raster 8, 9, 12, 13) has another reference */
    assert_eq!(bs[8].top, 1);
    assert_eq!(bs[9].top, 1);
    assert_eq!(bs[12].top, 0);
    assert_eq!(bs[10].left, 1);
    assert_eq!(bs[13].left, 0);
    assert_eq!(InnerBoundaryStrength(&p[3], 0, 1), 1);
    assert_eq!(InnerBoundaryStrength(&p[3], 0, 4), 0);
    assert_eq!(EdgeBoundaryStrength(&p[3], &p[2], 8, 13), 1);
    assert_eq!(EdgeBoundaryStrength(&p[3], &p[2], 0, 5), 0);
}

#[test]
fn sixteen_by_eight_checks_only_middle_edge_motion() {
    let mut p = picture(P_L0_L0_16x8);
    /* lower partition moves: blocks 8..15 */
    for b in 8..16 {
        p[3].mv[b] = mv_t { hor: 0, ver: 8 };
    }
    let mut bs = [bS_t { top: 9, left: 9 }; 16];
    assert_eq!(GetBoundaryStrengths(&p, 3, &mut bs, FILTER_INNER_EDGE), HANTRO_TRUE);
    for r in 4..16 {
        assert_eq!(bs[r].top, if (8..12).contains(&r) { 1 } else { 0 });
    }
    for r in 0..16 {
        if r % 4 != 0 {
            assert_eq!(bs[r].left, 0);
        }
    }
}

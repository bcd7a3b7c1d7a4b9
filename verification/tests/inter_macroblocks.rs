use h264bsd::defs::{HANTRO_NOK, HANTRO_OK};
use h264bsd::dpb::{dpbOutPicture_t, dpbPicture_t, dpbStorage_t, h264bsdGetRefPicData, SHORT_TERM, UNUSED};
use h264bsd::image::{h264bsdSetCurrImageMbPointers, image_t};
use h264bsd::inter::{h264bsdInterPrediction, h264bsdWriteOutputBlocks};
use h264bsd::macroblock::{
    macroblockLayer_t, mbPred_t, mbStorage_t, mv_t, residual_t, subMbPred_t, P_L0_16x16, P_L0_L0_16x8, P_Skip,
};
use h264bsd::neighbour::h264bsdInitMbNeighbours;

const EMPTY: i32 = 0xFF_FFFF;

fn mb(mb_type: u32) -> mbStorage_t {
    mbStorage_t {
        mbType: mb_type,
        sliceId: 1,
        disableDeblockingFilterIdc: 0,
        filterOffsetA: 0,
        filterOffsetB: 0,
        qpY: 26,
        chromaQpIndexOffset: 0,
        totalCoeff: [0; 27],
        intra4x4PredMode: [0; 16],
        refPic: [0; 4],
        refAddr: [0; 4],
        mv: [mv_t { hor: 0, ver: 0 }; 16],
        decoded: 0,
        mbA: None,
        mbB: None,
        mbC: None,
        mbD: None,
    }
}

fn pic() -> dpbPicture_t {
    dpbPicture_t {
        data: 0,
        picNum: 0,
        frameNum: 0,
        picOrderCnt: 0,
        status: UNUSED,
        toBeDisplayed: 0,
        picId: 0,
        numErrMbs: 0,
        isIdr: 0,
    }
}

fn reference() -> Vec<u8> {
    (0..384 * 4usize).map(|i: usize| ((i * 37 + (i / 7) * 11) % 256) as u8).collect()
}

/// A buffer whose reference list holds one short-term picture.
fn dpb() -> dpbStorage_t {
    let mut buffer = vec![pic(); 17];
    buffer[0].status = SHORT_TERM;
    let mut list = vec![None; 17];
    list[0] = Some(0);
    dpbStorage_t {
        buffer,
        list,
        currentOut: 1,
        outBuf: vec![dpbOutPicture_t { data: 0, picId: 0, numErrMbs: 0, isIdr: 0 }; 2],
        numOut: 0,
        outIndex: 0,
        maxRefFrames: 1,
        dpbSize: 1,
        maxFrameNum: 16,
        maxLongTermFrameIdx: 0xFFFF,
        numRefFrames: 1,
        fullness: 1,
        prevRefFrameNum: 0,
        lastContainsMmco5: 0,
        noReordering: 0,
        flushed: 0,
        pictures: vec![reference()],
    }
}

fn layer(mb_type: u32, mvd: [mv_t; 4], ref_idx: [u32; 4]) -> macroblockLayer_t {
    let mut level = [[0i32; 16]; 26];
    for b in level.iter_mut() {
        b[0] = EMPTY;
    }
    macroblockLayer_t {
        mbType: mb_type,
        codedBlockPattern: 0,
        mbQpDelta: 0,
        mbPred: mbPred_t {
            prevIntra4x4PredModeFlag: [0; 16],
            remIntra4x4PredMode: [0; 16],
            intraChromaPredMode: 0,
            refIdxL0: ref_idx,
            mvdL0: mvd,
        },
        subMbPred: subMbPred_t { subMbType: [0; 4], refIdxL0: [0; 4], mvdL0: [[mv_t { hor: 0, ver: 0 }; 4]; 4] },
        residual: residual_t { totalCoeff: [0; 27], level, coeffMap: [0; 24] },
    }
}

fn picture() -> image_t {
    let mut img = image_t { data: vec![0; 384 * 4], width: 2, height: 2, luma: 0, cb: 0, cr: 0 };
    h264bsdSetCurrImageMbPointers(&mut img, 0);
    img
}

fn mv(hor: i16, ver: i16) -> mv_t {
    mv_t { hor, ver }
}

fn macroblocks(t: u32) -> Vec<mbStorage_t> {
    let mut v = vec![mb(t), mb(t), mb(t), mb(t)];
    h264bsdInitMbNeighbours(&mut v, 2, 4);
    v
}

#[test]
fn reference_data_of_the_list() {
    let d = dpb();
    assert_eq!(h264bsdGetRefPicData(&d, 0), Some(0));
    assert_eq!(h264bsdGetRefPicData(&d, 1), None);
    assert_eq!(h264bsdGetRefPicData(&d, 17), None);
}

#[test]
fn whole_sample_vector_copies_the_shifted_reference() {
    let mut mbs = macroblocks(P_L0_16x16);
    let l = layer(P_L0_16x16, [mv(4, 0), mv(0, 0), mv(0, 0), mv(0, 0)], [0; 4]);
    let d = dpb();
    let mut img = picture();
    let mut data = [0u8; 384];
    let r = h264bsdInterPrediction(&mut mbs, 0, &l, &d, 0, &mut img, &mut data);
    assert_eq!(r, HANTRO_OK);
    let refp = reference();
    for y in 0..16 {
        for x in 0..16 {
            assert_eq!(data[16 * y + x], refp[32 * y + x + 1]);
            assert_eq!(img.data[32 * y + x], data[16 * y + x]);
        }
    }
    // chroma: half-sample horizontal position, the average of two samples
    for c in 0..2 {
        for y in 0..8 {
            for x in 0..8 {
                let base = 1024 + 256 * c + 16 * y + x;
                let expect = ((refp[base] as u32 + refp[base + 1] as u32 + 1) / 2) as u8;
                assert_eq!(data[256 + 64 * c + 8 * y + x], expect);
            }
        }
    }
    for k in 0..16 {
        assert_eq!(mbs[0].mv[k].hor, 4);
        assert_eq!(mbs[0].mv[k].ver, 0);
    }
    assert_eq!(mbs[0].refAddr, [0; 4]);
}

#[test]
fn vector_out_of_range_is_refused() {
    let mut mbs = macroblocks(P_L0_16x16);
    let l = layer(P_L0_16x16, [mv(8192, 0), mv(0, 0), mv(0, 0), mv(0, 0)], [0; 4]);
    let d = dpb();
    let mut img = picture();
    let mut data = [7u8; 384];
    let r = h264bsdInterPrediction(&mut mbs, 0, &l, &d, 0, &mut img, &mut data);
    assert_eq!(r, HANTRO_NOK);
    assert_eq!(data, [7u8; 384]);
    assert_eq!(img.data, vec![0; 384 * 4]);
    assert_eq!(mbs[0].mv[0].hor, 0);
}

#[test]
fn missing_reference_picture_is_refused() {
    let mut mbs = macroblocks(P_L0_16x16);
    let l = layer(P_L0_16x16, [mv(0, 0); 4], [1, 0, 0, 0]);
    let d = dpb();
    let mut img = picture();
    let mut data = [0u8; 384];
    assert_eq!(h264bsdInterPrediction(&mut mbs, 0, &l, &d, 0, &mut img, &mut data), HANTRO_NOK);
}

#[test]
fn skipped_macroblock_without_neighbours_copies_reference() {
    let mut mbs = macroblocks(P_Skip);
    let l = layer(P_Skip, [mv(12, 12); 4], [0; 4]);
    let d = dpb();
    let mut img = picture();
    let mut data = [0u8; 384];
    assert_eq!(h264bsdInterPrediction(&mut mbs, 0, &l, &d, 0, &mut img, &mut data), HANTRO_OK);
    let refp = reference();
    for y in 0..16 {
        for x in 0..16 {
            assert_eq!(data[16 * y + x], refp[32 * y + x]);
            assert_eq!(img.data[32 * y + x], refp[32 * y + x]);
        }
    }
    assert_eq!(mbs[0].mv[5].hor, 0);
}

#[test]
fn lower_sixteen_by_eight_partition_predicts_from_upper() {
    let mut mbs = macroblocks(P_L0_L0_16x8);
    let l = layer(P_L0_L0_16x8, [mv(8, 0), mv(0, 4), mv(0, 0), mv(0, 0)], [0; 4]);
    let d = dpb();
    let mut img = picture();
    let mut data = [0u8; 384];
    assert_eq!(h264bsdInterPrediction(&mut mbs, 0, &l, &d, 0, &mut img, &mut data), HANTRO_OK);
    assert_eq!((mbs[0].mv[0].hor, mbs[0].mv[0].ver), (8, 0));
    assert_eq!((mbs[0].mv[8].hor, mbs[0].mv[8].ver), (8, 4));
    assert_eq!((mbs[0].mv[15].hor, mbs[0].mv[15].ver), (8, 4));
    assert_eq!(mbs[0].refPic, [0; 4]);
}

#[test]
fn second_macroblock_takes_left_neighbour_vector() {
    let mut mbs = macroblocks(P_L0_16x16);
    let d = dpb();
    let mut img = picture();
    let mut data = [0u8; 384];
    let l0 = layer(P_L0_16x16, [mv(8, -4), mv(0, 0), mv(0, 0), mv(0, 0)], [0; 4]);
    assert_eq!(h264bsdInterPrediction(&mut mbs, 0, &l0, &d, 0, &mut img, &mut data), HANTRO_OK);
    // macroblock 1: A is macroblock 0 with the same reference, B and C absent
    h264bsdSetCurrImageMbPointers(&mut img, 1);
    let l1 = layer(P_L0_16x16, [mv(1, 1), mv(0, 0), mv(0, 0), mv(0, 0)], [0; 4]);
    assert_eq!(h264bsdInterPrediction(&mut mbs, 1, &l1, &d, 1, &mut img, &mut data), HANTRO_OK);
    assert_eq!((mbs[1].mv[0].hor, mbs[1].mv[0].ver), (9, -3));
}

#[test]
fn output_blocks_add_the_residual() {
    let mut img = picture();
    let mut data = [0u8; 384];
    for (i, v) in data.iter_mut().enumerate() {
        *v = (i % 200) as u8 + 50;
    }
    let mut level = [[0i32; 16]; 26];
    for b in level.iter_mut() {
        b[0] = EMPTY;
    }
    level[0] = [5; 16];
    level[16] = [-300; 16];
    h264bsdWriteOutputBlocks(&mut img, 3, &data, &level);
    // macroblock 3 is at luma (16, 16)
    let luma = 16 * 32 + 16;
    for y in 0..4 {
        for x in 0..4 {
            assert_eq!(img.data[luma + 32 * y + x], data[16 * y + x] + 5);
        }
    }
    assert_eq!(img.data[luma + 4], data[4]);
    let cb = 1024 + 8 * 16 + 8;
    for y in 0..4 {
        for x in 0..4 {
            assert_eq!(img.data[cb + 16 * y + x], 0);
        }
    }
    assert_eq!(img.data[cb + 4], data[260]);
    assert_eq!(img.data[0], 0);
}

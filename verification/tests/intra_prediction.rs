use h264bsd::defs::{HANTRO_NOK, HANTRO_OK};
use h264bsd::image::{h264bsdSetCurrImageMbPointers, image_t};
use h264bsd::intra::{h264bsdAddResidual, h264bsdGetNeighbourPels, h264bsdIntraPrediction};
use h264bsd::macroblock::{macroblockLayer_t, mbPred_t, mbStorage_t, mv_t, residual_t, subMbPred_t, I_4x4, P_L0_16x16};
use h264bsd::neighbour::{h264bsdGetNeighbourMb, h264bsdInitMbNeighbours, MB_A, MB_B, MB_C, MB_CURR, MB_D};

const EMPTY: i32 = 0xFF_FFFF;

fn mb(mb_type: u32, modes: [u8; 16]) -> mbStorage_t {
    mbStorage_t {
        mbType: mb_type,
        sliceId: 1,
        disableDeblockingFilterIdc: 0,
        filterOffsetA: 0,
        filterOffsetB: 0,
        qpY: 26,
        chromaQpIndexOffset: 0,
        totalCoeff: [0; 27],
        intra4x4PredMode: modes,
        refPic: [0; 4],
        refAddr: [0; 4],
        mv: [mv_t { hor: 0, ver: 0 }; 16],
        decoded: 0,
        mbA: None,
        mbB: None,
        mbC: None,
        mbD: None,
    }
}

fn picture() -> image_t {
    let data: Vec<u8> = (0..384 * 4).map(|i: usize| ((i * 29 + (i / 5) * 7 + 3) % 256) as u8).collect();
    image_t { data, width: 2, height: 2, luma: 0, cb: 0, cr: 0 }
}

fn layer(mb_type: u32, chroma: u32, prev: [u32; 16], rem: [u32; 16], level: [[i32; 16]; 26]) -> macroblockLayer_t {
    macroblockLayer_t {
        mbType: mb_type,
        codedBlockPattern: 0,
        mbQpDelta: 0,
        mbPred: mbPred_t {
            prevIntra4x4PredModeFlag: prev,
            remIntra4x4PredMode: rem,
            intraChromaPredMode: chroma,
            refIdxL0: [0; 4],
            mvdL0: [mv_t { hor: 0, ver: 0 }; 4],
        },
        subMbPred: subMbPred_t { subMbType: [0; 4], refIdxL0: [0; 4], mvdL0: [[mv_t { hor: 0, ver: 0 }; 4]; 4] },
        residual: residual_t { totalCoeff: [0; 27], level, coeffMap: [0; 24] },
    }
}

fn empty_levels() -> [[i32; 16]; 26] {
    let mut l = [[0i32; 16]; 26];
    for b in l.iter_mut() {
        b[0] = EMPTY;
    }
    l
}

/// Macroblocks 0..3 of a 2x2 picture, neighbours set, the last one of type `t`.
fn macroblocks(t: u32, a_modes: [u8; 16], b_modes: [u8; 16]) -> Vec<mbStorage_t> {
    let mut v = vec![mb(I_4x4, [0; 16]), mb(I_4x4, b_modes), mb(I_4x4, a_modes), mb(t, [9; 16])];
    h264bsdInitMbNeighbours(&mut v, 2, 4);
    v
}

/// Predict macroblock 3 and check the image got it.
fn predict(mbs: &mut Vec<mbStorage_t>, l: &macroblockLayer_t, cip: u32) -> (u32, [u8; 384], image_t) {
    let mut img = picture();
    h264bsdSetCurrImageMbPointers(&mut img, 3);
    let before = img.data.clone();
    let mut data = [0u8; 384];
    let r = h264bsdIntraPrediction(mbs, 3, l, &mut img, 3, cip, &mut data);
    if r == HANTRO_OK {
        for y in 0..16 {
            for x in 0..16 {
                assert_eq!(img.data[img.luma + y * 32 + x], data[16 * y + x]);
            }
        }
        for y in 0..8 {
            for x in 0..8 {
                assert_eq!(img.data[img.cb + y * 16 + x], data[256 + 8 * y + x]);
                assert_eq!(img.data[img.cr + y * 16 + x], data[320 + 8 * y + x]);
            }
        }
    } else {
        assert_eq!(img.data, before);
    }
    (r, data, img)
}


#[test]
fn intra_16x16_plane_and_chroma_plane() {
    let mut mbs = macroblocks(10, [0; 16], [0; 16]);
    let l = layer(10, 3, [0; 16], [0; 16], empty_levels());
    let (r, data, _) = predict(&mut mbs, &l, 0);
    assert_eq!(r, HANTRO_OK);
    let expected: [u8; 384] = [155, 155, 155, 155, 156, 156, 156, 156, 157, 157, 157, 157, 158, 158, 158, 158, 156, 156, 156, 156, 157, 157, 157, 157, 158, 158, 158, 158, 159, 159, 159, 159, 156, 157, 157, 157, 157, 158, 158, 158, 158, 159, 159, 159, 159, 160, 160, 160, 157, 158, 158, 158, 158, 159, 159, 159, 159, 160, 160, 160, 160, 161, 161, 161, 158, 158, 159, 159, 159, 159, 160, 160, 160, 160, 161, 161, 161, 161, 162, 162, 159, 159, 160, 160, 160, 160, 161, 161, 161, 161, 162, 162, 162, 162, 163, 163, 160, 160, 160, 161, 161, 161, 161, 162, 162, 162, 162, 163, 163, 163, 163, 164, 161, 161, 161, 162, 162, 162, 162, 163, 163, 163, 163, 164, 164, 164, 164, 165, 162, 162, 162, 162, 163, 163, 163, 163, 164, 164, 164, 164, 165, 165, 165, 165, 163, 163, 163, 163, 164, 164, 164, 164, 165, 165, 165, 165, 166, 166, 166, 166, 163, 164, 164, 164, 164, 165, 165, 165, 165, 166, 166, 166, 166, 167, 167, 167, 164, 165, 165, 165, 165, 166, 166, 166, 166, 167, 167, 167, 167, 168, 168, 168, 165, 165, 166, 166, 166, 166, 167, 167, 167, 167, 168, 168, 168, 168, 169, 169, 166, 166, 167, 167, 167, 167, 168, 168, 168, 168, 169, 169, 169, 169, 170, 170, 167, 167, 167, 168, 168, 168, 168, 169, 169, 169, 169, 170, 170, 170, 170, 171, 168, 168, 168, 169, 169, 169, 169, 170, 170, 170, 170, 171, 171, 171, 171, 172, 255, 248, 241, 233, 225, 217, 210, 202, 248, 240, 232, 225, 217, 209, 201, 194, 240, 232, 224, 216, 209, 201, 193, 185, 231, 224, 216, 208, 200, 193, 185, 177, 223, 215, 207, 200, 192, 184, 176, 169, 215, 207, 199, 191, 184, 176, 168, 160, 206, 199, 191, 183, 175, 168, 160, 152, 198, 190, 183, 175, 167, 159, 152, 144, 0, 13, 26, 40, 53, 67, 80, 94, 4, 17, 31, 44, 58, 71, 84, 98, 8, 22, 35, 49, 62, 75, 89, 102, 13, 26, 40, 53, 66, 80, 93, 107, 17, 31, 44, 57, 71, 84, 98, 111, 22, 35, 48, 62, 75, 89, 102, 115, 26, 39, 53, 66, 80, 93, 106, 120, 30, 44, 57, 71, 84, 97, 111, 124];
    assert_eq!(data, expected);
}


#[test]
fn intra_16x16_dc_and_chroma_dc() {
    let mut mbs = macroblocks(9, [0; 16], [0; 16]);
    let l = layer(9, 0, [0; 16], [0; 16], empty_levels());
    let (r, data, _) = predict(&mut mbs, &l, 0);
    assert_eq!(r, HANTRO_OK);
    let expected: [u8; 384] = [136, 136, 136, 136, 136, 136, 136, 136, 136, 136, 136, 136, 136, 136, 136, 136, 136, 136, 136, 136, 136, 136, 136, 136, 136, 136, 136, 136, 136, 136, 136, 136, 136, 136, 136, 136, 136, 136, 136, 136, 136, 136, 136, 136, 136, 136, 136, 136, 136, 136, 136, 136, 136, 136, 136, 136, 136, 136, 136, 136, 136, 136, 136, 136, 136, 136, 136, 136, 136, 136, 136, 136, 136, 136, 136, 136, 136, 136, 136, 136, 136, 136, 136, 136, 136, 136, 136, 136, 136, 136, 136, 136, 136, 136, 136, 136, 136, 136, 136, 136, 136, 136, 136, 136, 136, 136, 136, 136, 136, 136, 136, 136, 136, 136, 136, 136, 136, 136, 136, 136, 136, 136, 136, 136, 136, 136, 136, 136, 136, 136, 136, 136, 136, 136, 136, 136, 136, 136, 136, 136, 136, 136, 136, 136, 136, 136, 136, 136, 136, 136, 136, 136, 136, 136, 136, 136, 136, 136, 136, 136, 136, 136, 136, 136, 136, 136, 136, 136, 136, 136, 136, 136, 136, 136, 136, 136, 136, 136, 136, 136, 136, 136, 136, 136, 136, 136, 136, 136, 136, 136, 136, 136, 136, 136, 136, 136, 136, 136, 136, 136, 136, 136, 136, 136, 136, 136, 136, 136, 136, 136, 136, 136, 136, 136, 136, 136, 136, 136, 136, 136, 136, 136, 136, 136, 136, 136, 136, 136, 136, 136, 136, 136, 136, 136, 136, 136, 136, 136, 136, 136, 136, 136, 136, 136, 136, 136, 136, 136, 136, 136, 136, 136, 136, 136, 136, 136, 130, 130, 130, 130, 129, 129, 129, 129, 130, 130, 130, 130, 129, 129, 129, 129, 130, 130, 130, 130, 129, 129, 129, 129, 130, 130, 130, 130, 129, 129, 129, 129, 85, 85, 85, 85, 107, 107, 107, 107, 85, 85, 85, 85, 107, 107, 107, 107, 85, 85, 85, 85, 107, 107, 107, 107, 85, 85, 85, 85, 107, 107, 107, 107, 137, 137, 137, 137, 168, 168, 168, 168, 137, 137, 137, 137, 168, 168, 168, 168, 137, 137, 137, 137, 168, 168, 168, 168, 137, 137, 137, 137, 168, 168, 168, 168, 124, 124, 124, 124, 146, 146, 146, 146, 124, 124, 124, 124, 146, 146, 146, 146, 124, 124, 124, 124, 146, 146, 146, 146, 124, 124, 124, 124, 146, 146, 146, 146];
    assert_eq!(data, expected);
}


#[test]
fn intra_16x16_vertical_and_chroma_vertical() {
    let mut mbs = macroblocks(7, [0; 16], [0; 16]);
    let l = layer(7, 2, [0; 16], [0; 16], empty_levels());
    let (r, data, _) = predict(&mut mbs, &l, 0);
    assert_eq!(r, HANTRO_OK);
    let expected: [u8; 384] = [232, 5, 34, 63, 99, 128, 157, 186, 215, 251, 24, 53, 82, 111, 147, 176, 232, 5, 34, 63, 99, 128, 157, 186, 215, 251, 24, 53, 82, 111, 147, 176, 232, 5, 34, 63, 99, 128, 157, 186, 215, 251, 24, 53, 82, 111, 147, 176, 232, 5, 34, 63, 99, 128, 157, 186, 215, 251, 24, 53, 82, 111, 147, 176, 232, 5, 34, 63, 99, 128, 157, 186, 215, 251, 24, 53, 82, 111, 147, 176, 232, 5, 34, 63, 99, 128, 157, 186, 215, 251, 24, 53, 82, 111, 147, 176, 232, 5, 34, 63, 99, 128, 157, 186, 215, 251, 24, 53, 82, 111, 147, 176, 232, 5, 34, 63, 99, 128, 157, 186, 215, 251, 24, 53, 82, 111, 147, 176, 232, 5, 34, 63, 99, 128, 157, 186, 215, 251, 24, 53, 82, 111, 147, 176, 232, 5, 34, 63, 99, 128, 157, 186, 215, 251, 24, 53, 82, 111, 147, 176, 232, 5, 34, 63, 99, 128, 157, 186, 215, 251, 24, 53, 82, 111, 147, 176, 232, 5, 34, 63, 99, 128, 157, 186, 215, 251, 24, 53, 82, 111, 147, 176, 232, 5, 34, 63, 99, 128, 157, 186, 215, 251, 24, 53, 82, 111, 147, 176, 232, 5, 34, 63, 99, 128, 157, 186, 215, 251, 24, 53, 82, 111, 147, 176, 232, 5, 34, 63, 99, 128, 157, 186, 215, 251, 24, 53, 82, 111, 147, 176, 232, 5, 34, 63, 99, 128, 157, 186, 215, 251, 24, 53, 82, 111, 147, 176, 215, 251, 24, 53, 82, 111, 147, 176, 215, 251, 24, 53, 82, 111, 147, 176, 215, 251, 24, 53, 82, 111, 147, 176, 215, 251, 24, 53, 82, 111, 147, 176, 215, 251, 24, 53, 82, 111, 147, 176, 215, 251, 24, 53, 82, 111, 147, 176, 215, 251, 24, 53, 82, 111, 147, 176, 215, 251, 24, 53, 82, 111, 147, 176, 67, 96, 125, 154, 183, 219, 248, 21, 67, 96, 125, 154, 183, 219, 248, 21, 67, 96, 125, 154, 183, 219, 248, 21, 67, 96, 125, 154, 183, 219, 248, 21, 67, 96, 125, 154, 183, 219, 248, 21, 67, 96, 125, 154, 183, 219, 248, 21, 67, 96, 125, 154, 183, 219, 248, 21, 67, 96, 125, 154, 183, 219, 248, 21];
    assert_eq!(data, expected);
}


#[test]
fn intra_16x16_horizontal_and_chroma_horizontal() {
    let mut mbs = macroblocks(8, [0; 16], [0; 16]);
    let l = layer(8, 1, [0; 16], [0; 16], empty_levels());
    let (r, data, _) = predict(&mut mbs, &l, 0);
    assert_eq!(r, HANTRO_OK);
    let expected: [u8; 384] = [149, 149, 149, 149, 149, 149, 149, 149, 149, 149, 149, 149, 149, 149, 149, 149, 95, 95, 95, 95, 95, 95, 95, 95, 95, 95, 95, 95, 95, 95, 95, 95, 48, 48, 48, 48, 48, 48, 48, 48, 48, 48, 48, 48, 48, 48, 48, 48, 250, 250, 250, 250, 250, 250, 250, 250, 250, 250, 250, 250, 250, 250, 250, 250, 203, 203, 203, 203, 203, 203, 203, 203, 203, 203, 203, 203, 203, 203, 203, 203, 149, 149, 149, 149, 149, 149, 149, 149, 149, 149, 149, 149, 149, 149, 149, 149, 95, 95, 95, 95, 95, 95, 95, 95, 95, 95, 95, 95, 95, 95, 95, 95, 48, 48, 48, 48, 48, 48, 48, 48, 48, 48, 48, 48, 48, 48, 48, 48, 250, 250, 250, 250, 250, 250, 250, 250, 250, 250, 250, 250, 250, 250, 250, 250, 203, 203, 203, 203, 203, 203, 203, 203, 203, 203, 203, 203, 203, 203, 203, 203, 149, 149, 149, 149, 149, 149, 149, 149, 149, 149, 149, 149, 149, 149, 149, 149, 95, 95, 95, 95, 95, 95, 95, 95, 95, 95, 95, 95, 95, 95, 95, 95, 48, 48, 48, 48, 48, 48, 48, 48, 48, 48, 48, 48, 48, 48, 48, 48, 250, 250, 250, 250, 250, 250, 250, 250, 250, 250, 250, 250, 250, 250, 250, 250, 203, 203, 203, 203, 203, 203, 203, 203, 203, 203, 203, 203, 203, 203, 203, 203, 149, 149, 149, 149, 149, 149, 149, 149, 149, 149, 149, 149, 149, 149, 149, 149, 159, 159, 159, 159, 159, 159, 159, 159, 139, 139, 139, 139, 139, 139, 139, 139, 112, 112, 112, 112, 112, 112, 112, 112, 85, 85, 85, 85, 85, 85, 85, 85, 58, 58, 58, 58, 58, 58, 58, 58, 31, 31, 31, 31, 31, 31, 31, 31, 11, 11, 11, 11, 11, 11, 11, 11, 240, 240, 240, 240, 240, 240, 240, 240, 11, 11, 11, 11, 11, 11, 11, 11, 240, 240, 240, 240, 240, 240, 240, 240, 213, 213, 213, 213, 213, 213, 213, 213, 186, 186, 186, 186, 186, 186, 186, 186, 159, 159, 159, 159, 159, 159, 159, 159, 139, 139, 139, 139, 139, 139, 139, 139, 112, 112, 112, 112, 112, 112, 112, 112, 85, 85, 85, 85, 85, 85, 85, 85];
    assert_eq!(data, expected);
}


#[test]
fn intra_16x16_residual_is_added_and_clipped() {
    let mut mbs = macroblocks(9, [0; 16], [0; 16]);
    let mut level = empty_levels();
    level[5] = [-20, 17, 13, 9, 5, 1, -3, -7, -11, -15, -19, 18, 14, 10, 6, 2];
    level[18] = [-10, 3, -5, 8, 0, -8, 5, -3, 10, 2, -6, 7, -1, -9, 4, -4];
    let l = layer(9, 0, [0; 16], [0; 16], level);
    let (r, data, _) = predict(&mut mbs, &l, 0);
    assert_eq!(r, HANTRO_OK);
    let expected: [u8; 384] = [136, 136, 136, 136, 136, 136, 136, 136, 136, 136, 136, 136, 116, 153, 149, 145, 136, 136, 136, 136, 136, 136, 136, 136, 136, 136, 136, 136, 141, 137, 133, 129, 136, 136, 136, 136, 136, 136, 136, 136, 136, 136, 136, 136, 125, 121, 117, 154, 136, 136, 136, 136, 136, 136, 136, 136, 136, 136, 136, 136, 150, 146, 142, 138, 136, 136, 136, 136, 136, 136, 136, 136, 136, 136, 136, 136, 136, 136, 136, 136, 136, 136, 136, 136, 136, 136, 136, 136, 136, 136, 136, 136, 136, 136, 136, 136, 136, 136, 136, 136, 136, 136, 136, 136, 136, 136, 136, 136, 136, 136, 136, 136, 136, 136, 136, 136, 136, 136, 136, 136, 136, 136, 136, 136, 136, 136, 136, 136, 136, 136, 136, 136, 136, 136, 136, 136, 136, 136, 136, 136, 136, 136, 136, 136, 136, 136, 136, 136, 136, 136, 136, 136, 136, 136, 136, 136, 136, 136, 136, 136, 136, 136, 136, 136, 136, 136, 136, 136, 136, 136, 136, 136, 136, 136, 136, 136, 136, 136, 136, 136, 136, 136, 136, 136, 136, 136, 136, 136, 136, 136, 136, 136, 136, 136, 136, 136, 136, 136, 136, 136, 136, 136, 136, 136, 136, 136, 136, 136, 136, 136, 136, 136, 136, 136, 136, 136, 136, 136, 136, 136, 136, 136, 136, 136, 136, 136, 136, 136, 136, 136, 136, 136, 136, 136, 136, 136, 136, 136, 136, 136, 136, 136, 136, 136, 136, 136, 136, 136, 136, 136, 136, 136, 136, 136, 136, 136, 130, 130, 130, 130, 129, 129, 129, 129, 130, 130, 130, 130, 129, 129, 129, 129, 130, 130, 130, 130, 129, 129, 129, 129, 130, 130, 130, 130, 129, 129, 129, 129, 75, 88, 80, 93, 107, 107, 107, 107, 85, 77, 90, 82, 107, 107, 107, 107, 95, 87, 79, 92, 107, 107, 107, 107, 84, 76, 89, 81, 107, 107, 107, 107, 137, 137, 137, 137, 168, 168, 168, 168, 137, 137, 137, 137, 168, 168, 168, 168, 137, 137, 137, 137, 168, 168, 168, 168, 137, 137, 137, 137, 168, 168, 168, 168, 124, 124, 124, 124, 146, 146, 146, 146, 124, 124, 124, 124, 146, 146, 146, 146, 124, 124, 124, 124, 146, 146, 146, 146, 124, 124, 124, 124, 146, 146, 146, 146];
    assert_eq!(data, expected);
}


#[test]
fn intra_4x4_modes_from_neighbours_and_coded_modes() {
    let mut mbs = macroblocks(I_4x4, [0, 5, 1, 6, 2, 7, 3, 8, 4, 0, 5, 1, 6, 2, 7, 3], [3, 1, 8, 6, 4, 2, 0, 7, 5, 3, 1, 8, 6, 4, 2, 0]);
    let mut level = empty_levels();
    level[9] = [-4, 3, 1, -1, -3, 4, 2, 0, -2, -4, 3, 1, -1, -3, 4, 2];
    let l = layer(I_4x4, 0, [1, 0, 0, 1, 0, 0, 1, 0, 0, 0, 1, 0, 0, 0, 0, 1], [0, 7, 3, 0, 4, 5, 0, 6, 2, 1, 0, 7, 5, 3, 6, 0], level);
    let (r, data, _) = predict(&mut mbs, &l, 0);
    assert_eq!(r, HANTRO_OK);
    assert_eq!(mbs[3].intra4x4PredMode, [1, 8, 4, 4, 5, 6, 4, 7, 3, 1, 3, 8, 6, 3, 7, 3]);
    let expected: [u8; 384] = [149, 149, 149, 149, 122, 97, 72, 110, 201, 233, 138, 39, 46, 57, 82, 113, 95, 95, 95, 95, 72, 110, 149, 200, 174, 217, 185, 88, 64, 55, 46, 57, 48, 48, 48, 48, 149, 200, 250, 250, 152, 201, 233, 138, 113, 88, 64, 55, 250, 250, 250, 250, 250, 250, 250, 250, 190, 174, 217, 185, 162, 137, 113, 88, 238, 250, 250, 250, 250, 250, 250, 250, 235, 201, 189, 198, 150, 125, 101, 88, 201, 238, 250, 250, 250, 250, 250, 250, 250, 235, 201, 189, 137, 113, 94, 88, 149, 201, 238, 250, 250, 250, 250, 250, 250, 250, 235, 201, 125, 101, 88, 88, 97, 149, 201, 238, 247, 250, 250, 250, 250, 250, 250, 235, 113, 94, 88, 88, 149, 197, 231, 246, 242, 249, 247, 245, 248, 249, 250, 250, 97, 90, 88, 88, 197, 231, 246, 249, 246, 253, 251, 249, 247, 247, 248, 249, 90, 88, 88, 88, 231, 246, 249, 250, 248, 246, 253, 251, 250, 249, 247, 247, 88, 88, 88, 88, 246, 249, 250, 250, 249, 247, 254, 252, 252, 251, 250, 249, 88, 88, 88, 88, 249, 250, 250, 249, 249, 250, 251, 252, 252, 251, 250, 169, 88, 88, 88, 88, 250, 250, 249, 249, 251, 252, 253, 253, 251, 250, 209, 128, 88, 88, 88, 88, 250, 249, 249, 252, 253, 253, 253, 253, 251, 250, 169, 88, 88, 88, 88, 88, 249, 249, 252, 253, 253, 253, 253, 253, 250, 209, 128, 88, 88, 88, 88, 88, 130, 130, 130, 130, 129, 129, 129, 129, 130, 130, 130, 130, 129, 129, 129, 129, 130, 130, 130, 130, 129, 129, 129, 129, 130, 130, 130, 130, 129, 129, 129, 129, 85, 85, 85, 85, 107, 107, 107, 107, 85, 85, 85, 85, 107, 107, 107, 107, 85, 85, 85, 85, 107, 107, 107, 107, 85, 85, 85, 85, 107, 107, 107, 107, 137, 137, 137, 137, 168, 168, 168, 168, 137, 137, 137, 137, 168, 168, 168, 168, 137, 137, 137, 137, 168, 168, 168, 168, 137, 137, 137, 137, 168, 168, 168, 168, 124, 124, 124, 124, 146, 146, 146, 146, 124, 124, 124, 124, 146, 146, 146, 146, 124, 124, 124, 124, 146, 146, 146, 146, 124, 124, 124, 124, 146, 146, 146, 146];
    assert_eq!(data, expected);
}


#[test]
fn intra_4x4_vertical_horizontal_and_dc() {
    let mut mbs = macroblocks(I_4x4, [0, 5, 1, 6, 2, 7, 3, 8, 4, 0, 5, 1, 6, 2, 7, 3], [3, 1, 8, 6, 4, 2, 0, 7, 5, 3, 1, 8, 6, 4, 2, 0]);
    let l = layer(I_4x4, 0, [0; 16], [0, 1, 0, 1, 1, 0, 0, 1, 1, 0, 1, 1, 0, 1, 0, 0], empty_levels());
    let (r, data, _) = predict(&mut mbs, &l, 0);
    assert_eq!(r, HANTRO_OK);
    assert_eq!(mbs[3].intra4x4PredMode, [0, 2, 1, 2, 1, 1, 0, 2, 2, 0, 1, 2, 1, 2, 0, 1]);
    let expected: [u8; 384] = [232, 5, 34, 63, 103, 103, 103, 103, 103, 103, 103, 103, 103, 103, 103, 103, 232, 5, 34, 63, 103, 103, 103, 103, 103, 103, 103, 103, 103, 103, 103, 103, 232, 5, 34, 63, 103, 103, 103, 103, 103, 103, 103, 103, 103, 103, 103, 103, 232, 5, 34, 63, 103, 103, 103, 103, 103, 103, 103, 103, 103, 103, 103, 103, 203, 203, 203, 203, 113, 113, 113, 113, 103, 103, 103, 103, 103, 103, 103, 103, 149, 149, 149, 149, 113, 113, 113, 113, 103, 103, 103, 103, 103, 103, 103, 103, 95, 95, 95, 95, 113, 113, 113, 113, 103, 103, 103, 103, 103, 103, 103, 103, 48, 48, 48, 48, 113, 113, 113, 113, 103, 103, 103, 103, 103, 103, 103, 103, 111, 111, 111, 111, 113, 113, 113, 113, 113, 113, 113, 113, 108, 108, 108, 108, 111, 111, 111, 111, 113, 113, 113, 113, 113, 113, 113, 113, 108, 108, 108, 108, 111, 111, 111, 111, 113, 113, 113, 113, 113, 113, 113, 113, 108, 108, 108, 108, 111, 111, 111, 111, 113, 113, 113, 113, 113, 113, 113, 113, 108, 108, 108, 108, 48, 48, 48, 48, 138, 138, 138, 138, 113, 113, 113, 113, 113, 113, 113, 113, 250, 250, 250, 250, 138, 138, 138, 138, 113, 113, 113, 113, 113, 113, 113, 113, 203, 203, 203, 203, 138, 138, 138, 138, 113, 113, 113, 113, 113, 113, 113, 113, 149, 149, 149, 149, 138, 138, 138, 138, 113, 113, 113, 113, 113, 113, 113, 113, 130, 130, 130, 130, 129, 129, 129, 129, 130, 130, 130, 130, 129, 129, 129, 129, 130, 130, 130, 130, 129, 129, 129, 129, 130, 130, 130, 130, 129, 129, 129, 129, 85, 85, 85, 85, 107, 107, 107, 107, 85, 85, 85, 85, 107, 107, 107, 107, 85, 85, 85, 85, 107, 107, 107, 107, 85, 85, 85, 85, 107, 107, 107, 107, 137, 137, 137, 137, 168, 168, 168, 168, 137, 137, 137, 137, 168, 168, 168, 168, 137, 137, 137, 137, 168, 168, 168, 168, 137, 137, 137, 137, 168, 168, 168, 168, 124, 124, 124, 124, 146, 146, 146, 146, 124, 124, 124, 124, 146, 146, 146, 146, 124, 124, 124, 124, 146, 146, 146, 146, 124, 124, 124, 124, 146, 146, 146, 146];
    assert_eq!(data, expected);
}


#[test]
fn vertical_prediction_needs_the_macroblock_above() {
    let mut mbs = macroblocks(7, [0; 16], [0; 16]);
    mbs[1].sliceId = 2;
    let l = layer(7, 0, [0; 16], [0; 16], empty_levels());
    let (r, data, _) = predict(&mut mbs, &l, 0);
    assert_eq!(r, HANTRO_NOK);
    assert_eq!(data, [0u8; 384]);
}

#[test]
fn constrained_intra_prediction_ignores_inter_neighbours() {
    let mut mbs = macroblocks(8, [0; 16], [0; 16]);
    mbs[2].mbType = P_L0_16x16;
    let l = layer(8, 0, [0; 16], [0; 16], empty_levels());
    let (r, _, _) = predict(&mut mbs, &l, 1);
    assert_eq!(r, HANTRO_NOK);
    let (r, _, _) = predict(&mut mbs, &l, 0);
    assert_eq!(r, HANTRO_OK);
}

#[test]
fn chroma_plane_needs_all_neighbours() {
    let mut mbs = macroblocks(9, [0; 16], [0; 16]);
    mbs[0].sliceId = 5;
    let l = layer(9, 3, [0; 16], [0; 16], empty_levels());
    let (r, data, _) = predict(&mut mbs, &l, 0);
    assert_eq!(r, HANTRO_NOK);
    assert!(data[256..].iter().all(|&v| v == 0));
}

#[test]
fn already_decoded_macroblock_is_not_written_again() {
    let mut mbs = macroblocks(9, [0; 16], [0; 16]);
    mbs[3].decoded = 2;
    let l = layer(9, 0, [0; 16], [0; 16], empty_levels());
    let mut img = picture();
    h264bsdSetCurrImageMbPointers(&mut img, 3);
    let before = img.data.clone();
    let mut data = [0u8; 384];
    assert_eq!(h264bsdIntraPrediction(&mut mbs, 3, &l, &mut img, 3, 0, &mut data), HANTRO_OK);
    assert_eq!(img.data, before);
    assert_eq!(data[0], 136);
}

#[test]
fn residual_added_with_clipping() {
    let mut data = [100u8; 384];
    let mut res = [0i32; 16];
    res[0] = 200;
    res[5] = -150;
    res[15] = 7;
    h264bsdAddResidual(&mut data, &res, 6);
    assert_eq!(data[4 * 16 + 8], 255);
    assert_eq!(data[5 * 16 + 9], 0);
    assert_eq!(data[7 * 16 + 11], 107);
    assert_eq!(data[4 * 16 + 9], 100);
    assert_eq!(data[0], 100);
    let mut res2 = [3i32; 16];
    h264bsdAddResidual(&mut data, &res2, 21);
    assert_eq!(data[320 + 4], 103);
    assert_eq!(data[320 + 3 * 8 + 7], 103);
    assert_eq!(data[320 + 8], 100);
    assert_eq!(data[256 + 4], 100);
    res2[0] = EMPTY;
    let copy = data;
    h264bsdAddResidual(&mut data, &res2, 0);
    assert_eq!(data, copy);
}

#[test]
fn neighbour_pels_of_a_macroblock() {
    let img = picture();
    let mut above = [7u8; 39];
    let mut left = [7u8; 32];
    h264bsdGetNeighbourPels(&img, &mut above, &mut left, 3);
    // luma of macroblock 3 starts at row 16, column 16 of a 32 wide plane
    assert_eq!(above[0], img.data[15 * 32 + 15]);
    assert_eq!(above[1], img.data[15 * 32 + 16]);
    assert_eq!(above[20], img.data[15 * 32 + 35]);
    assert_eq!(left[0], img.data[16 * 32 + 15]);
    assert_eq!(left[15], img.data[31 * 32 + 15]);
    assert_eq!(above[21], img.data[1024 + 7 * 16 + 7]);
    assert_eq!(above[30], img.data[1280 + 7 * 16 + 7]);
    assert_eq!(left[16], img.data[1024 + 8 * 16 + 7]);
    assert_eq!(left[31], img.data[1280 + 15 * 16 + 7]);
    let mut above = [7u8; 39];
    let mut left = [7u8; 32];
    h264bsdGetNeighbourPels(&img, &mut above, &mut left, 1);
    assert_eq!(above, [7u8; 39]);
    assert_eq!(left[0], img.data[15]);
    h264bsdGetNeighbourPels(&img, &mut above, &mut left, 0);
    assert_eq!(above, [7u8; 39]);
}

#[test]
fn macroblock_neighbours_of_a_picture() {
    let mut v = vec![mb(I_4x4, [0; 16]); 7];
    h264bsdInitMbNeighbours(&mut v, 3, 6);
    assert_eq!((v[0].mbA, v[0].mbB, v[0].mbC, v[0].mbD), (None, None, None, None));
    assert_eq!((v[1].mbA, v[1].mbB), (Some(0), None));
    assert_eq!((v[3].mbA, v[3].mbB, v[3].mbC, v[3].mbD), (None, Some(0), Some(1), None));
    assert_eq!((v[4].mbA, v[4].mbB, v[4].mbC, v[4].mbD), (Some(3), Some(1), Some(2), Some(0)));
    assert_eq!((v[5].mbA, v[5].mbB, v[5].mbC, v[5].mbD), (Some(4), Some(2), None, Some(1)));
    assert_eq!(v[6].mbA, None);
    assert_eq!(h264bsdGetNeighbourMb(&v, 4, MB_A), Some(3));
    assert_eq!(h264bsdGetNeighbourMb(&v, 4, MB_B), Some(1));
    assert_eq!(h264bsdGetNeighbourMb(&v, 4, MB_C), Some(2));
    assert_eq!(h264bsdGetNeighbourMb(&v, 4, MB_D), Some(0));
    assert_eq!(h264bsdGetNeighbourMb(&v, 4, MB_CURR), Some(4));
    assert_eq!(h264bsdGetNeighbourMb(&v, 4, 0xFF), None);
}

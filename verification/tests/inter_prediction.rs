use h264bsd::image::image_t;
use h264bsd::macroblock::mv_t;
use h264bsd::reconstruct::{
    h264bsdFillBlock, h264bsdFillRow7, h264bsdInterpolateChromaHor, h264bsdInterpolateChromaHorVer,
    h264bsdInterpolateChromaVer, h264bsdInterpolateHorHalf, h264bsdInterpolateHorQuarter,
    h264bsdInterpolateHorVerQuarter, h264bsdInterpolateMidHalf, h264bsdInterpolateMidHorQuarter,
    h264bsdInterpolateMidVerQuarter, h264bsdInterpolateVerHalf, h264bsdInterpolateVerQuarter,
    h264bsdPredictSamples,
};

/// A picture of one macroblock: 256 luma, 64 Cb and 64 Cr samples.
fn picture() -> Vec<u8> {
    (0..384u32).map(|i| ((i * 37 + 11) % 256) as u8).collect()
}

fn block4(mb: &[u8]) -> Vec<u8> {
    let mut v = Vec::new();
    for y in 0..4 {
        for x in 0..4 {
            v.push(mb[16 * y + x]);
        }
    }
    v
}

#[test]
fn fill_row_repeats_border_samples() {
    let r = [3u8, 4, 5, 6];
    let mut fill = [0u8; 8];
    h264bsdFillRow7(&r, 1, &mut fill, 1, 2, 3, 2);
    assert_eq!(fill, [0, 4, 4, 4, 5, 6, 6, 6]);
}

#[test]
fn fill_block_clamps_to_the_picture() {
    let pic = picture();
    let mut fill = [0u8; 20];
    h264bsdFillBlock(&pic, 0, &mut fill, 0, -2, -1, 16, 16, 5, 4, 5);
    assert_eq!(fill.to_vec(), vec![11, 11, 11, 48, 85, 11, 11, 11, 48, 85, 91, 91, 91, 128, 165, 171, 171, 171, 208, 245]);
}

#[test]
fn horizontal_half_sample_inside_and_outside() {
    let pic = picture();
    let mut mb = [1u8; 256];
    h264bsdInterpolateHorHalf(&pic, 0, &mut mb, 0, 1, 2, 16, 16, 4, 4);
    assert_eq!(block4(&mb), vec![13, 90, 119, 156, 125, 162, 191, 255, 237, 114, 0, 68, 0, 74, 103, 140]);
    assert_eq!(mb[4], 1);
    assert_eq!(mb[64], 1);
    let mut mb2 = [1u8; 256];
    h264bsdInterpolateHorHalf(&pic, 0, &mut mb2, 0, -3, 13, 16, 16, 4, 4);
    assert_eq!(block4(&mb2), vec![24, 42, 84, 120, 104, 122, 164, 192, 176, 234, 116, 0, 176, 234, 116, 0]);
}

#[test]
fn quarter_and_half_samples() {
    let pic = picture();
    let mut mb = [0u8; 256];
    h264bsdInterpolateVerQuarter(&pic, 0, &mut mb, 0, 5, -1, 16, 16, 4, 4, 1);
    assert_eq!(block4(&mb), vec![62, 99, 152, 209, 180, 217, 250, 79, 48, 85, 122, 75, 48, 81, 118, 195]);
    h264bsdInterpolateVerHalf(&pic, 0, &mut mb, 0, 0, 0, 16, 16, 4, 4);
    assert_eq!(block4(&mb), vec![243, 120, 157, 26, 163, 32, 69, 186, 75, 192, 229, 98, 235, 104, 141, 18]);
    h264bsdInterpolateHorQuarter(&pic, 0, &mut mb, 0, 4, 4, 16, 16, 4, 4, 0);
    assert_eq!(block4(&mb), vec![55, 88, 125, 158, 131, 164, 221, 178, 227, 184, 13, 70, 19, 76, 109, 146]);
    h264bsdInterpolateHorVerQuarter(&pic, 0, &mut mb, 0, 0, 0, 16, 16, 4, 4, 3);
    assert_eq!(block4(&mb), vec![61, 94, 171, 204, 173, 230, 103, 65, 109, 68, 43, 72, 49, 78, 135, 188]);
}

#[test]
fn centre_samples() {
    let pic = picture();
    let mut mb = [0u8; 256];
    h264bsdInterpolateMidHalf(&pic, 0, &mut mb, 0, 10, 10, 16, 16, 4, 4);
    assert_eq!(block4(&mb), vec![247, 180, 123, 166, 168, 99, 40, 84, 73, 129, 195, 208, 153, 185, 221, 241]);
    h264bsdInterpolateMidVerQuarter(&pic, 0, &mut mb, 0, 2, 3, 16, 16, 4, 4, 0);
    assert_eq!(block4(&mb), vec![80, 133, 192, 168, 196, 171, 193, 110, 197, 117, 13, 108, 19, 111, 180, 158]);
    h264bsdInterpolateMidHorQuarter(&pic, 0, &mut mb, 0, 2, 3, 16, 16, 4, 4, 1);
    assert_eq!(block4(&mb), vec![105, 182, 241, 137, 241, 140, 142, 55, 148, 62, 38, 153, 44, 156, 229, 123]);
}

#[test]
fn chroma_interpolation() {
    let pic = picture();
    let mut out = [0u8; 128];
    h264bsdInterpolateChromaHorVer(&pic, 256, &mut out, 0, 1, 2, 8, 8, 3, 5, 2, 2);
    assert_eq!([out[0], out[1], out[8], out[9]], [167, 204, 207, 184]);
    assert_eq!([out[64], out[65], out[72], out[73]], [171, 72, 75, 52]);
    let mut out2 = [0u8; 128];
    h264bsdInterpolateChromaHor(&pic, 256, &mut out2, 0, 6, -1, 8, 8, 2, 2, 2);
    assert_eq!([out2[0], out2[1], out2[8], out2[9]], [178, 14, 178, 14]);
    assert_eq!([out2[64], out2[65], out2[72], out2[73]], [50, 78, 50, 78]);
    let mut out3 = [0u8; 128];
    h264bsdInterpolateChromaVer(&pic, 256, &mut out3, 0, 0, 0, 8, 8, 0, 1, 1);
    assert_eq!(out3[0], pic[256]);
    assert_eq!(out3[64], pic[320]);
}

#[test]
fn predict_samples_of_a_partition() {
    let pic = picture();
    let image = image_t { data: pic, width: 1, height: 1, luma: 0, cb: 0, cr: 0 };
    let mut data = [1u8; 384];
    let mv = mv_t { hor: 5, ver: -3 };
    h264bsdPredictSamples(&mut data, &mv, &image, 0, 0, 8, 0, 8, 8);
    let luma = [
        94, 127, 160, 237, 190, 9, 56, 50, 110, 167, 200, 177, 133, 25, 72, 66, 211, 188, 145, 18, 74, 146, 173, 171,
        150, 23, 80, 153, 189, 144, 172, 170, 86, 159, 192, 165, 121, 5, 44, 38, 198, 171, 128, 8, 57, 112, 160, 158, 134,
        11, 64, 117, 173, 208, 156, 154, 70, 123, 180, 209, 185, 144, 11, 26,
    ];
    for y in 0..8 {
        for x in 0..8 {
            assert_eq!(data[16 * y + 8 + x], luma[8 * y + x]);
        }
        assert_eq!(data[16 * y], 1);
    }
    let cb = [182, 219, 96, 14, 207, 144, 61, 39, 147, 64, 65, 79, 67, 68, 105, 119];
    let cr = [86, 27, 64, 78, 51, 52, 89, 103, 55, 92, 129, 143, 95, 132, 169, 183];
    for y in 0..4 {
        for x in 0..4 {
            assert_eq!(data[256 + 8 * y + 4 + x], cb[4 * y + x]);
            assert_eq!(data[320 + 8 * y + 4 + x], cr[4 * y + x]);
        }
        assert_eq!(data[256 + 8 * y], 1);
    }
}

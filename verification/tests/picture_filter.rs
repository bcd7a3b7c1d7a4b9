use h264bsd::filter::h264bsdFilterPicture;
use h264bsd::image::image_t;
use h264bsd::macroblock::{mbStorage_t, mv_t, I_4x4};
use h264bsd::neighbour::h264bsdInitMbNeighbours;

fn mb(qp: u32, idc: u32) -> mbStorage_t {
    mbStorage_t {
        mbType: I_4x4,
        sliceId: 0,
        disableDeblockingFilterIdc: idc,
        filterOffsetA: 0,
        filterOffsetB: 0,
        qpY: qp,
        chromaQpIndexOffset: 0,
        totalCoeff: [0; 27],
        intra4x4PredMode: [0; 16],
        refPic: [0; 4],
        refAddr: [0; 4],
        mv: [mv_t { hor: 0, ver: 0 }; 16],
        decoded: 1,
        mbA: None,
        mbB: None,
        mbC: None,
        mbD: None,
    }
}

/// Four intra macroblocks of a 2x2 picture, with their neighbours.
fn macroblocks(qp: u32, idc: u32) -> Vec<mbStorage_t> {
    let mut v = vec![mb(qp, idc), mb(qp, idc), mb(qp, idc), mb(qp, idc)];
    h264bsdInitMbNeighbours(&mut v, 2, 4);
    v
}

/// A picture with small steps between its 4x4 blocks.
fn picture() -> image_t {
    let data: Vec<u8> = (0..384 * 4usize).map(|i: usize| ((100 + (i * 7) % 13 + ((i / 4) % 3) * 5 + (i % 97) / 9) % 256) as u8).collect();
    image_t { data, width: 2, height: 2, luma: 0, cb: 0, cr: 0 }
}

#[test]
fn intra_picture_is_filtered_at_every_edge() {
    let mbs = macroblocks(36, 0);
    let mut img = picture();
    h264bsdFilterPicture(&mut img, &mbs);
    let expected: [u8; 1536] = [100, 107, 105, 106, 109, 110, 112, 113, 116, 118, 116, 117, 113, 108, 107, 108, 109, 110, 113, 116, 116, 119, 119, 117, 114, 108, 106, 108, 111, 112, 110, 117, 116, 123, 120, 118, 115, 113, 111, 110, 110, 113, 115, 117, 117, 120, 120, 119, 117, 116, 113, 110, 111, 113, 116, 117, 120, 121, 119, 120, 116, 114, 111, 119, 118, 112, 115, 115, 119, 122, 122, 121, 113, 113, 115, 116, 120, 118, 117, 118, 120, 121, 120, 122, 114, 114, 116, 117, 121, 122, 121, 117, 121, 124, 128, 122, 119, 108, 110, 112, 110, 113, 113, 111, 112, 115, 115, 116, 109, 109, 110, 111, 113, 113, 116, 119, 115, 116, 117, 118, 110, 108, 110, 113, 112, 115, 119, 113, 125, 114, 111, 112, 110, 109, 110, 111, 112, 113, 114, 115, 121, 119, 116, 114, 111, 111, 112, 113, 116, 116, 116, 116, 121, 124, 124, 114, 112, 110, 107, 114, 114, 117, 115, 116, 123, 124, 122, 123, 115, 115, 115, 115, 115, 118, 118, 118, 123, 122, 126, 124, 117, 116, 116, 116, 117, 118, 120, 118, 125, 126, 124, 131, 115, 118, 106, 105, 111, 109, 115, 117, 115, 115, 114, 115, 112, 111, 110, 110, 110, 108, 111, 117, 117, 116, 116, 116, 116, 110, 111, 113, 114, 112, 119, 109, 121, 117, 118, 116, 115, 115, 115, 116, 115, 114, 114, 116, 117, 118, 118, 119, 114, 115, 117, 117, 117, 116, 116, 118, 118, 120, 120, 118, 115, 113, 119, 114, 122, 115, 120, 118, 115, 116, 116, 117, 116, 115, 114, 114, 119, 120, 121, 121, 122, 123, 117, 117, 117, 117, 117, 116, 117, 121, 123, 124, 127, 126, 117, 123, 111, 120, 113, 108, 113, 111, 112, 114, 113, 114, 115, 115, 107, 108, 109, 110, 110, 111, 113, 113, 115, 116, 116, 116, 112, 106, 107, 108, 111, 112, 115, 118, 115, 124, 116, 119, 115, 107, 109, 115, 114, 114, 114, 114, 118, 119, 120, 119, 113, 115, 109, 110, 115, 116, 116, 117, 120, 122, 120, 121, 114, 115, 112, 106, 120, 112, 117, 119, 118, 123, 123, 116, 115, 115, 113, 113, 114, 114, 116, 118, 116, 119, 121, 122, 116, 116, 117, 117, 120, 118, 115, 117, 117, 121, 129, 123, 118, 114, 116, 118, 117, 111, 109, 115, 116, 115, 114, 113, 109, 112, 105, 116, 115, 120, 112, 111, 116, 117, 117, 118, 111, 109, 114, 116, 116, 119, 119, 114, 117, 120, 118, 118, 118, 109, 111, 115, 114, 114, 114, 115, 116, 118, 117, 116, 113, 117, 114, 114, 115, 115, 116, 117, 117, 116, 118, 119, 113, 111, 115, 115, 117, 121, 118, 117, 119, 125, 113, 117, 113, 114, 115, 116, 117, 120, 122, 123, 124, 125, 115, 116, 115, 115, 115, 116, 118, 118, 121, 122, 125, 126, 116, 132, 118, 110, 118, 117, 120, 107, 114, 114, 113, 114, 115, 115, 116, 107, 106, 107, 108, 109, 116, 116, 116, 115, 115, 117, 117, 118, 109, 108, 108, 111, 118, 109, 119, 116, 117, 116, 120, 112, 114, 108, 114, 114, 115, 115, 115, 119, 117, 118, 114, 115, 116, 117, 116, 115, 116, 117, 116, 121, 120, 119, 116, 114, 118, 111, 118, 117, 117, 116, 120, 121, 114, 120, 114, 114, 115, 114, 114, 119, 120, 119, 120, 121, 115, 117, 117, 116, 116, 116, 115, 122, 122, 120, 119, 122, 116, 128, 118, 118, 117, 116, 117, 122, 115, 118, 114, 114, 114, 115, 115, 110, 109, 109, 111, 112, 115, 117, 117, 116, 116, 116, 116, 107, 108, 109, 116, 113, 114, 118, 117, 120, 118, 117, 115, 108, 114, 117, 115, 114, 114, 116, 118, 122, 126, 121, 113, 111, 115, 117, 117, 116, 117, 117, 119, 122, 121, 121, 120, 110, 113, 107, 119, 118, 117, 116, 115, 124, 119, 116, 115, 114, 114, 115, 116, 117, 119, 120, 122, 123, 116, 117, 116, 116, 116, 116, 117, 118, 120, 122, 120, 125, 129, 123, 117, 119, 117, 116, 113, 118, 115, 114, 115, 115, 114, 115, 114, 110, 109, 109, 110, 111, 115, 115, 116, 117, 117, 116, 115, 110, 111, 112, 116, 113, 107, 114, 116, 118, 117, 118, 116, 110, 111, 112, 116, 115, 115, 114, 115, 117, 117, 116, 114, 113, 116, 116, 116, 116, 116, 116, 115, 118, 116, 117, 113, 112, 109, 114, 114, 117, 117, 120, 120, 120, 120, 118, 118, 117, 116, 113, 116, 120, 123, 123, 125, 124, 117, 117, 117, 116, 115, 116, 116, 120, 122, 118, 126, 127, 125, 115, 117, 116, 117, 121, 120, 121, 121, 121, 116, 115, 116, 113, 106, 105, 105, 106, 109, 110, 116, 116, 115, 115, 115, 116, 116, 105, 107, 114, 109, 112, 116, 114, 118, 117, 116, 119, 119, 109, 107, 108, 115, 115, 116, 116, 119, 120, 118, 119, 115, 116, 114, 113, 115, 116, 116, 117, 118, 121, 121, 117, 116, 114, 118, 112, 115, 116, 116, 118, 120, 121, 120, 117, 117, 114, 116, 115, 117, 117, 118, 118, 116, 122, 121, 121, 114, 115, 115, 116, 120, 120, 118, 115, 122, 123, 121, 128, 114, 116, 116, 116, 122, 123, 121, 114, 123, 114, 116, 116, 115, 113, 112, 112, 111, 113, 112, 111, 113, 115, 116, 116, 109, 107, 113, 112, 113, 114, 112, 119, 116, 115, 117, 117, 110, 109, 110, 113, 116, 112, 115, 114, 114, 114, 112, 112, 112, 110, 111, 111, 113, 114, 114, 116, 122, 123, 113, 113, 112, 110, 113, 108, 118, 115, 115, 117, 121, 124, 124, 118, 113, 111, 116, 115, 113, 117, 111, 122, 117, 129, 125, 124, 116, 116, 116, 115, 115, 119, 117, 119, 123, 126, 130, 124, 121, 115, 113, 115, 118, 119, 121, 122, 125, 126, 118, 115, 111, 108, 107, 106, 107, 108, 111, 113, 115, 117, 117, 115, 112, 110, 109, 107, 107, 110, 108, 115, 114, 121, 117, 116, 112, 111, 112, 115, 114, 112, 113, 115, 115, 118, 118, 117, 115, 114, 114, 114, 116, 115, 113, 115, 118, 119, 117, 118, 114, 112, 109, 116, 116, 123, 117, 116, 118, 117, 124, 119, 115, 110, 117, 116, 118, 117, 124, 118, 117, 124, 119, 121, 115, 117, 111, 116, 119, 124, 118, 125, 126, 119, 126, 120, 117, 111, 118, 117, 120, 119, 126, 125, 128, 126, 120, 112, 106, 108, 102, 109, 108, 115, 109, 114, 114, 118, 117, 112, 107, 102, 109, 111, 113, 110, 117, 111, 123, 117, 124, 113, 111, 114, 104, 109, 112, 117, 111, 113, 116, 124, 118, 126, 110, 104, 111, 110, 112, 111, 118, 117, 120, 119, 126, 120, 117, 111, 105, 112, 111, 119, 113, 118, 121, 126, 120, 121, 117, 118, 113, 112, 114, 113, 120, 114, 126, 117, 127, 122, 119, 113, 118, 120, 118, 120, 114, 119, 116, 128, 119, 129, 113, 115, 114, 120, 117, 115, 117, 119, 122, 122, 129, 120, 113, 104, 114, 105, 117, 111, 105, 110, 113, 119, 113, 114, 110, 111, 105, 110, 113, 118, 113, 107, 119, 113, 120, 114, 111, 105, 112, 111, 114, 113, 120, 114, 113, 120, 114, 121, 106, 113, 107, 116, 119, 120, 115, 117, 114, 114, 122, 114, 114, 107, 114, 108, 120, 114, 122, 117, 119, 122, 115, 117, 115, 115, 108, 116, 116, 122, 116, 123, 122, 129, 123, 118, 114, 109, 116, 115, 118, 116, 123, 122, 124, 124, 131, 125, 109, 116, 110, 115, 118, 123, 118, 123, 126, 131, 125, 132, 116, 100, 107, 101, 113, 107, 114, 113, 115, 114, 122, 117, 112, 107, 101, 106, 109, 114, 108, 116, 115, 122, 116, 118, 112, 114, 108, 107, 110, 109, 116, 115, 117, 116, 123, 117, 114, 109, 116, 110, 109, 116, 110, 115, 118, 123, 118, 120, 114, 116, 110, 117, 116, 110, 117, 117, 119, 118, 125, 120, 115, 110, 117, 116, 119, 118, 112, 119, 119, 125, 120, 120, 118, 120, 112, 118, 120, 125, 119, 118, 120, 120, 127, 117, 117, 112, 118, 119, 117, 117, 126, 125, 125, 127, 121, 123, 117, 118, 103, 114, 109, 116, 110, 117, 116, 110, 117, 112, 108, 103, 110, 109, 111, 110, 117, 111, 124, 118, 112, 114, 108, 110, 104, 109, 113, 118, 112, 117, 120, 125, 119, 113, 110, 104, 112, 115, 112, 112, 119, 118, 116, 119, 126, 118, 110, 112, 106, 113, 112, 119, 113, 119, 117, 127, 121, 119, 114, 106, 113, 117, 114, 114, 121, 115, 127, 121, 128, 122, 119, 113, 108, 113, 116, 121, 115, 120, 123, 128, 122, 130, 114, 121, 115, 114, 116, 115, 122, 121, 124, 123, 130, 124, 121, 115, 122, 106, 105, 114, 106, 113, 113, 119, 114, 114, 111, 112, 106, 113, 115, 106, 115, 107, 119, 112, 121, 113, 113, 106, 112, 112, 114, 113, 108, 113, 113, 121, 113, 122, 106, 113, 107, 113, 116, 121, 115, 114, 117, 115, 122, 117, 113, 108, 115, 109, 121, 115, 122, 115, 116, 123, 117, 118, 114, 115, 109, 114, 117, 122, 117, 124, 123, 117, 124, 118, 115, 109, 116, 115, 118, 117, 124, 123, 125, 124, 118, 125];
    assert_eq!(img.data, expected.to_vec());
}

#[test]
fn low_quantizer_changes_fewer_samples() {
    let mbs = macroblocks(20, 0);
    let mut img = picture();
    let before = img.data.clone();
    h264bsdFilterPicture(&mut img, &mbs);
    let changed = img.data.iter().zip(before.iter()).filter(|(a, b)| a != b).count();
    assert_eq!(changed, 22);
    let expected: [u8; 1536] = [100, 107, 101, 108, 107, 114, 108, 115, 114, 122, 116, 123, 107, 101, 108, 102, 114, 108, 116, 110, 122, 116, 123, 117, 114, 108, 102, 110, 109, 116, 110, 117, 116, 123, 117, 124, 109, 116, 110, 104, 116, 110, 117, 111, 123, 118, 125, 119, 116, 110, 117, 111, 110, 117, 112, 119, 118, 125, 119, 126, 110, 117, 111, 119, 118, 112, 119, 113, 125, 119, 126, 120, 118, 112, 119, 113, 125, 119, 113, 120, 119, 127, 121, 128, 112, 119, 113, 120, 119, 126, 121, 115, 127, 121, 128, 122, 119, 103, 110, 104, 116, 110, 117, 111, 110, 117, 112, 119, 103, 110, 104, 111, 110, 117, 111, 119, 118, 112, 119, 113, 110, 104, 111, 105, 118, 112, 119, 113, 125, 119, 113, 120, 104, 112, 106, 113, 112, 119, 113, 120, 119, 126, 121, 115, 112, 106, 113, 107, 119, 113, 120, 115, 127, 121, 128, 122, 106, 113, 107, 114, 114, 121, 115, 122, 121, 128, 122, 129, 113, 108, 115, 109, 121, 115, 122, 116, 128, 122, 130, 124, 121, 115, 109, 116, 115, 122, 116, 124, 123, 130, 124, 131, 115, 122, 106, 100, 112, 106, 113, 107, 119, 113, 120, 115, 112, 106, 113, 107, 106, 113, 107, 114, 114, 121, 115, 122, 106, 113, 107, 114, 113, 108, 115, 109, 121, 115, 122, 116, 113, 107, 115, 109, 121, 115, 109, 116, 115, 122, 116, 124, 108, 115, 109, 116, 115, 122, 116, 110, 123, 117, 124, 118, 115, 109, 116, 110, 122, 117, 124, 118, 117, 124, 118, 125, 109, 116, 111, 118, 117, 124, 118, 125, 124, 118, 125, 120, 117, 111, 118, 112, 124, 118, 125, 119, 132, 126, 120, 127, 111, 118, 112, 109, 108, 115, 109, 116, 115, 122, 116, 110, 108, 102, 109, 103, 115, 109, 116, 110, 122, 117, 124, 118, 102, 109, 103, 110, 109, 116, 111, 118, 117, 124, 118, 125, 109, 103, 110, 105, 117, 111, 118, 112, 124, 118, 125, 119, 117, 111, 105, 112, 111, 118, 112, 119, 118, 126, 120, 127, 111, 118, 112, 106, 118, 112, 120, 114, 126, 120, 127, 121, 118, 113, 119, 115, 113, 120, 114, 121, 120, 127, 121, 128, 114, 120, 115, 121, 120, 114, 121, 115, 127, 122, 129, 123, 120, 114, 121, 115, 117, 111, 105, 112, 111, 117, 112, 118, 103, 111, 105, 112, 111, 118, 112, 106, 117, 112, 119, 114, 111, 105, 112, 106, 118, 112, 119, 114, 113, 120, 114, 121, 105, 112, 106, 113, 113, 120, 114, 121, 120, 114, 121, 115, 112, 107, 114, 108, 120, 114, 121, 115, 127, 121, 116, 123, 107, 114, 108, 115, 114, 121, 115, 123, 122, 129, 123, 117, 114, 108, 115, 109, 122, 116, 123, 117, 129, 123, 130, 124, 108, 116, 110, 117, 116, 123, 117, 124, 123, 130, 125, 132, 117, 110, 117, 111, 123, 107, 114, 108, 120, 114, 121, 115, 112, 106, 101, 108, 107, 114, 108, 115, 114, 121, 115, 123, 107, 114, 108, 102, 114, 108, 115, 109, 121, 116, 123, 117, 114, 108, 115, 109, 108, 116, 110, 117, 116, 123, 117, 124, 108, 115, 110, 117, 116, 110, 117, 111, 123, 117, 124, 119, 116, 110, 117, 111, 123, 117, 111, 118, 118, 125, 119, 126, 110, 117, 111, 118, 117, 125, 119, 113, 125, 119, 126, 120, 117, 111, 119, 113, 125, 119, 126, 120, 119, 126, 120, 128, 112, 119, 113, 120, 119, 126, 110, 117, 116, 110, 117, 111, 108, 102, 109, 104, 116, 110, 117, 111, 123, 117, 111, 118, 103, 110, 104, 111, 110, 117, 111, 118, 117, 125, 119, 113, 110, 104, 111, 105, 117, 111, 119, 113, 125, 119, 126, 120, 104, 111, 105, 113, 112, 119, 113, 120, 119, 126, 120, 127, 112, 106, 113, 107, 119, 113, 120, 114, 126, 121, 128, 122, 119, 113, 107, 114, 113, 120, 115, 122, 121, 128, 122, 129, 113, 120, 114, 109, 121, 115, 122, 116, 128, 122, 129, 123, 121, 115, 122, 116, 115, 122, 116, 113, 112, 119, 113, 120, 104, 111, 105, 112, 112, 106, 113, 107, 119, 113, 120, 114, 111, 106, 113, 107, 119, 113, 107, 114, 113, 120, 115, 122, 106, 113, 107, 114, 113, 120, 114, 109, 121, 115, 122, 116, 113, 107, 114, 108, 121, 115, 122, 116, 115, 122, 116, 123, 107, 115, 109, 116, 115, 122, 116, 123, 122, 116, 124, 118, 115, 109, 116, 111, 122, 116, 123, 118, 130, 124, 118, 125, 109, 116, 110, 117, 117, 124, 118, 125, 124, 131, 125, 119, 116, 111, 118, 112, 124, 118, 125, 119, 121, 115, 122, 115, 100, 107, 101, 108, 107, 115, 109, 116, 115, 122, 116, 123, 107, 101, 109, 103, 115, 109, 116, 110, 122, 116, 123, 118, 115, 109, 103, 110, 109, 116, 110, 117, 117, 124, 118, 125, 109, 116, 110, 104, 116, 111, 118, 112, 124, 118, 125, 119, 116, 110, 118, 112, 111, 118, 112, 119, 118, 125, 119, 127, 111, 118, 112, 119, 118, 112, 119, 113, 126, 120, 127, 121, 118, 112, 119, 113, 125, 120, 114, 121, 120, 127, 121, 128, 113, 119, 115, 121, 120, 127, 121, 115, 127, 111, 118, 112, 109, 103, 110, 104, 116, 110, 118, 112, 111, 118, 112, 119, 103, 110, 104, 112, 111, 118, 112, 119, 117, 112, 118, 113, 111, 105, 112, 106, 118, 112, 119, 113, 125, 120, 114, 121, 105, 112, 106, 113, 112, 119, 114, 121, 120, 127, 121, 115, 112, 106, 113, 108, 120, 114, 121, 115, 127, 121, 128, 122, 107, 114, 108, 115, 114, 121, 115, 122, 121, 129, 123, 130, 114, 108, 115, 109, 121, 115, 123, 117, 129, 123, 130, 124, 121, 115, 109, 117, 116, 123, 117, 124, 123, 130, 114, 121, 105, 112, 106, 100, 112, 106, 113, 108, 120, 114, 121, 115, 112, 106, 113, 107, 107, 114, 108, 115, 114, 121, 115, 122, 106, 114, 108, 115, 114, 108, 115, 109, 121, 115, 123, 117, 114, 108, 115, 109, 121, 115, 109, 117, 116, 123, 117, 124, 108, 115, 109, 116, 116, 123, 117, 111, 123, 117, 124, 118, 115, 110, 117, 111, 123, 117, 124, 118, 117, 124, 119, 126, 110, 117, 111, 118, 117, 124, 118, 126, 125, 119, 126, 120, 117, 111, 118, 112, 125, 119, 126, 120, 132, 126, 120, 117, 101, 108, 102, 109, 108, 115, 109, 116, 116, 123, 117, 111, 108, 102, 109, 103, 115, 110, 117, 111, 123, 117, 124, 118, 102, 109, 104, 111, 110, 117, 111, 118, 117, 124, 118, 126, 110, 104, 111, 105, 117, 111, 118, 112, 125, 119, 126, 120, 117, 111, 105, 112, 111, 119, 113, 120, 119, 126, 120, 127, 111, 118, 113, 107, 119, 113, 120, 114, 126, 120, 127, 122, 119, 113, 120, 114, 113, 120, 114, 121, 121, 128, 122, 129, 113, 120, 114, 121, 120, 115, 122, 116, 128, 122, 129, 123, 110, 104, 111, 105, 117, 111, 105, 112, 111, 119, 113, 120, 104, 111, 105, 112, 111, 118, 113, 107, 119, 113, 120, 114, 111, 105, 112, 107, 119, 113, 120, 114, 113, 120, 114, 121, 106, 113, 107, 115, 113, 120, 115, 121, 120, 114, 122, 116, 113, 107, 114, 108, 120, 114, 122, 115, 128, 122, 115, 123, 107, 115, 108, 116, 115, 122, 116, 123, 122, 129, 123, 117, 115, 109, 116, 110, 122, 116, 123, 117, 129, 124, 131, 125, 109, 116, 110, 117, 116, 123, 118, 125, 124, 131, 125, 132, 116, 100, 107, 101, 113, 107, 114, 108, 120, 114, 122, 116, 113, 107, 101, 108, 107, 114, 108, 116, 115, 122, 116, 123, 107, 114, 108, 102, 115, 109, 116, 110, 122, 116, 123, 117, 114, 109, 116, 110, 109, 116, 110, 117, 116, 123, 118, 125, 109, 116, 110, 117, 116, 110, 117, 112, 124, 118, 125, 119, 116, 110, 117, 111, 124, 118, 112, 119, 118, 125, 119, 126, 110, 118, 112, 119, 118, 125, 119, 113, 125, 119, 127, 121, 118, 112, 119, 113, 125, 119, 126, 121, 120, 127, 121, 128, 112, 119, 103, 110, 109, 116, 110, 117, 116, 110, 117, 112, 109, 103, 110, 104, 116, 110, 117, 111, 124, 118, 112, 119, 103, 110, 104, 111, 110, 118, 112, 119, 118, 125, 119, 113, 110, 104, 112, 106, 118, 112, 119, 113, 125, 119, 126, 121, 105, 112, 106, 113, 112, 119, 113, 120, 120, 127, 121, 128, 112, 106, 113, 107, 119, 114, 121, 115, 127, 121, 128, 122, 119, 113, 108, 115, 114, 121, 115, 122, 121, 128, 122, 130, 114, 121, 115, 109, 121, 115, 122, 116, 129, 123, 130, 124, 121, 115, 122, 106, 105, 112, 106, 113, 112, 119, 113, 120, 105, 112, 106, 113, 112, 106, 113, 107, 119, 114, 121, 115, 112, 106, 113, 107, 119, 113, 108, 115, 114, 121, 115, 122, 106, 113, 107, 115, 114, 121, 115, 109, 121, 115, 122, 116, 114, 108, 115, 109, 121, 115, 122, 116, 115, 123, 117, 124, 108, 115, 109, 116, 115, 122, 117, 124, 123, 117, 124, 118, 115, 109, 116, 111, 123, 117, 124, 118, 130, 124, 118, 125];
    assert_eq!(img.data, expected.to_vec());
}

#[test]
fn disabled_filter_leaves_picture() {
    let mbs = macroblocks(36, 1);
    let mut img = picture();
    let before = img.data.clone();
    h264bsdFilterPicture(&mut img, &mbs);
    assert_eq!(img.data, before);
}

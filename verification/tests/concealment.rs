use h264bsd::conceal::ConcealMb;
use h264bsd::defs::HANTRO_OK;
use h264bsd::image::image_t;
use h264bsd::macroblock::{mbStorage_t, mv_t, I_4x4, P_L0_16x16};

fn mb(decoded: u32) -> mbStorage_t {
    mbStorage_t {
        mbType: P_L0_16x16,
        sliceId: 3,
        disableDeblockingFilterIdc: 1,
        filterOffsetA: -2,
        filterOffsetB: 4,
        qpY: 26,
        chromaQpIndexOffset: 3,
        totalCoeff: [0; 27],
        intra4x4PredMode: [0; 16],
        refPic: [0; 4],
        refAddr: [0; 4],
        mv: [mv_t { hor: 0, ver: 0 }; 16],
        decoded,
        mbA: None,
        mbB: None,
        mbC: None,
        mbD: None,
    }
}

fn samples(n: usize, seed: usize) -> Vec<u8> {
    (0..n).map(|i| ((i * 37 + (i / 7) * 11 + seed) % 256) as u8).collect()
}

fn image(w: u32, h: u32) -> image_t {
    image_t { data: samples(384 * (w * h) as usize, 5), width: w, height: h, luma: 0, cb: 0, cr: 0 }
}

/// The 384 samples of the image's current macroblock.
fn current_mb(img: &image_t) -> Vec<u8> {
    let w = img.width as usize;
    let mut v = Vec::new();
    for y in 0..16 {
        for x in 0..16 {
            v.push(img.data[img.luma + y * 16 * w + x]);
        }
    }
    for base in [img.cb, img.cr] {
        for y in 0..8 {
            for x in 0..8 {
                v.push(img.data[base + y * 8 * w + x]);
            }
        }
    }
    v
}

fn in_mb(img: &image_t, k: usize) -> bool {
    let w = img.width as usize;
    let inside = |base: usize, stride: usize, n: usize| k >= base && (k - base) % stride < n && (k - base) / stride < n;
    inside(img.luma, 16 * w, 16) || inside(img.cb, 8 * w, 8) || inside(img.cr, 8 * w, 8)
}

fn conceal(w: u32, h: u32, row: u32, col: u32, decoded: &[u32], slice_type: u32, reference: Option<&[u8]>) -> (image_t, Vec<mbStorage_t>, Vec<u8>) {
    let mut img = image(w, h);
    let before = img.data.clone();
    let mut mbs: Vec<mbStorage_t> = decoded.iter().map(|&d| mb(d)).collect();
    assert_eq!(ConcealMb(&mut mbs, &mut img, row, col, slice_type, reference), HANTRO_OK);
    for k in 0..before.len() {
        if !in_mb(&img, k) {
            assert_eq!(img.data[k], before[k]);
        }
    }
    (img, mbs, before)
}

fn check(m: &[u8], first: [u8; 16], last: [u8; 16], cb: [u8; 8], cr: [u8; 8], end: u8, sum: u32) {
    assert_eq!(&m[0..16], &first[..]);
    assert_eq!(&m[240..256], &last[..]);
    assert_eq!(&m[256..264], &cb[..]);
    assert_eq!(&m[320..328], &cr[..]);
    assert_eq!(m[383], end);
    assert_eq!(m.iter().map(|&v| v as u32).sum::<u32>(), sum);
}

#[test]
fn intra_estimate_from_three_neighbours_below_left_right() {
    let (img, mbs, _) = conceal(3, 2, 0, 1, &[1, 0, 1, 0, 1, 0], 2, None);
    assert_eq!((img.luma, img.cb, img.cr), (16, 1536 + 8, 1536 + 384 + 8));
    check(
        &current_mb(&img),
        [120, 120, 120, 120, 125, 125, 125, 125, 137, 137, 137, 137, 142, 142, 142, 142],
        [100, 100, 100, 100, 105, 105, 105, 105, 117, 117, 117, 117, 122, 122, 122, 122],
        [132, 132, 122, 122, 102, 102, 92, 92],
        [191, 191, 165, 165, 113, 113, 87, 87],
        47,
        46528,
    );
    let m = mbs[1];
    assert_eq!((m.qpY, m.mbType, m.disableDeblockingFilterIdc), (40, I_4x4, 0));
    assert_eq!((m.filterOffsetA, m.filterOffsetB, m.chromaQpIndexOffset), (0, 0, 0));
    assert_eq!((m.sliceId, m.decoded), (3, 0));
    assert_eq!(mbs[0].qpY, 26);
}

#[test]
fn intra_estimate_from_above_left_right() {
    let (img, _, _) = conceal(3, 2, 1, 1, &[1, 1, 1, 1, 0, 1], 7, None);
    check(
        &current_mb(&img),
        [148, 148, 148, 148, 137, 137, 137, 137, 117, 117, 117, 117, 106, 106, 106, 106],
        [128, 128, 128, 128, 117, 117, 117, 117, 97, 97, 97, 97, 86, 86, 86, 86],
        [65, 65, 88, 88, 136, 136, 159, 159],
        [112, 112, 120, 120, 136, 136, 144, 144],
        166,
        46720,
    );
}

#[test]
fn intra_estimate_from_two_neighbours() {
    let (img, _, _) = conceal(3, 2, 0, 0, &[0, 1, 0, 1, 0, 0], 2, None);
    check(
        &current_mb(&img),
        [110, 110, 110, 110, 115, 115, 115, 115, 127, 127, 127, 127, 132, 132, 132, 132],
        [138, 138, 138, 138, 143, 143, 143, 143, 155, 155, 155, 155, 160, 160, 160, 160],
        [158, 158, 148, 148, 128, 128, 118, 118],
        [87, 87, 93, 93, 107, 107, 113, 113],
        171,
        51392,
    );
}

#[test]
fn intra_estimate_from_one_neighbour_above() {
    let (img, _, _) = conceal(3, 2, 1, 2, &[0, 0, 1, 0, 0, 0], 2, None);
    check(
        &current_mb(&img),
        [116, 116, 116, 116, 121, 121, 121, 121, 133, 133, 133, 133, 138, 138, 138, 138],
        [116, 116, 116, 116, 121, 121, 121, 121, 133, 133, 133, 133, 138, 138, 138, 138],
        [96, 96, 102, 102, 116, 116, 122, 122],
        [58, 58, 81, 81, 129, 129, 152, 152],
        152,
        46208,
    );
}

#[test]
fn intra_estimate_from_all_four_neighbours() {
    let (img, _, _) = conceal(3, 3, 1, 1, &[0, 1, 0, 1, 0, 1, 0, 1, 0], 2, None);
    check(
        &current_mb(&img),
        [154, 154, 154, 154, 143, 143, 143, 143, 123, 123, 123, 123, 112, 112, 112, 112],
        [134, 134, 134, 134, 123, 123, 123, 123, 103, 103, 103, 103, 92, 92, 92, 92],
        [124, 124, 123, 123, 121, 121, 120, 120],
        [149, 149, 140, 140, 124, 124, 115, 115],
        105,
        48192,
    );
}

#[test]
fn no_decoded_neighbour_gives_zero_samples() {
    let (img, _, _) = conceal(3, 3, 2, 2, &[0; 9], 2, None);
    assert!(current_mb(&img).iter().all(|&v| v == 0));
}

#[test]
fn p_slice_copies_co_located_reference_macroblock() {
    let reference = samples(384 * 6, 91);
    let (img, mbs, _) = conceal(3, 2, 1, 2, &[1, 1, 1, 1, 1, 0], 0, Some(&reference));
    let w = 3usize;
    for y in 0..16 {
        for x in 0..16 {
            let k = img.luma + y * 16 * w + x;
            assert_eq!(img.data[k], reference[k]);
        }
    }
    for base in [img.cb, img.cr] {
        for y in 0..8 {
            for x in 0..8 {
                let k = base + y * 8 * w + x;
                assert_eq!(img.data[k], reference[k]);
            }
        }
    }
    assert_eq!(mbs[5].qpY, 40);
}

#[test]
fn i_slice_ignores_reference_picture() {
    let reference = samples(384 * 6, 91);
    let (img, _, _) = conceal(3, 2, 1, 2, &[0, 0, 1, 0, 0, 0], 2, Some(&reference));
    check(
        &current_mb(&img),
        [116, 116, 116, 116, 121, 121, 121, 121, 133, 133, 133, 133, 138, 138, 138, 138],
        [116, 116, 116, 116, 121, 121, 121, 121, 133, 133, 133, 133, 138, 138, 138, 138],
        [96, 96, 102, 102, 116, 116, 122, 122],
        [58, 58, 81, 81, 129, 129, 152, 152],
        152,
        46208,
    );
}

#[test]
fn p_slice_without_reference_uses_intra_estimate() {
    let (img, _, _) = conceal(3, 2, 1, 2, &[0, 0, 1, 0, 0, 0], 5, None);
    assert_eq!(current_mb(&img)[0..4], [116, 116, 116, 116]);
}

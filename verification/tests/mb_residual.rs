use h264bsd::defs::{HANTRO_NOK, HANTRO_OK};
use h264bsd::macroblock::{mbStorage_t, mv_t, residual_t};
use h264bsd::residual::DecodeResidual;
use h264bsd::stream::strmData_t;

fn mb() -> mbStorage_t {
    mbStorage_t {
        mbType: 1,
        sliceId: 0,
        disableDeblockingFilterIdc: 0,
        filterOffsetA: 0,
        filterOffsetB: 0,
        qpY: 0,
        chromaQpIndexOffset: 0,
        totalCoeff: [0; 27],
        intra4x4PredMode: [0; 16],
        refPic: [0; 4],
        refAddr: [0; 4],
        mv: [mv_t { hor: 0, ver: 0 }; 16],
        decoded: 0,
        mbA: None,
        mbB: None,
        mbC: None,
        mbD: None,
    }
}

fn residual() -> residual_t {
    residual_t { totalCoeff: [0; 27], level: [[0; 16]; 26], coeffMap: [0; 24] }
}

#[test]
fn uncoded_residual_reads_nothing() {
    let mbs = vec![mb()];
    let mut res = residual();
    let mut s = strmData_t::new(vec![0xFF], 1);
    assert_eq!(DecodeResidual(&mut s, &mut res, &mbs, 0, 1, 0), HANTRO_OK);
    assert_eq!(s.strmBuffReadBits, 0);
    assert_eq!(res.totalCoeff, [0; 27]);
}

#[test]
fn first_luma_group_with_one_coefficient() {
    // block 0: one trailing one (+1), total_zeros 0; blocks 1 to 3 empty
    let mbs = vec![mb()];
    let mut res = residual();
    let mut s = strmData_t::new(vec![0b0101_1110], 1);
    assert_eq!(DecodeResidual(&mut s, &mut res, &mbs, 0, 1, 1), HANTRO_OK);
    assert_eq!(s.strmBuffReadBits, 7);
    assert_eq!(&res.totalCoeff[..5], &[1, 0, 0, 0, 0]);
    assert_eq!(res.level[0][0], 1);
    assert_eq!(res.level[0][1..], [0; 15]);
    assert_eq!(res.coeffMap[0], 1);
}

#[test]
fn neighbour_counts_set_nc() {
    // the left neighbour has 8 coefficients in block 5: block 0 then has
    // nC 8, where an empty block is coded 0000 11
    let mut left = mb();
    left.totalCoeff[5] = 8;
    let mut cur = mb();
    cur.mbA = Some(0);
    let mbs = vec![left, cur];
    let mut res = residual();
    let mut s = strmData_t::new(vec![0b0000_1111, 0b1000_0000], 2);
    assert_eq!(DecodeResidual(&mut s, &mut res, &mbs, 1, 1, 1), HANTRO_OK);
    assert_eq!(s.strmBuffReadBits, 9);
}

#[test]
fn truncated_residual_fails() {
    let mbs = vec![mb()];
    let mut res = residual();
    let mut s = strmData_t::new(vec![0x00], 1);
    assert_eq!(DecodeResidual(&mut s, &mut res, &mbs, 0, 1, 1), HANTRO_NOK);
}

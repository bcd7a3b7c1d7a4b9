use h264bsd::defs::{HANTRO_NOK, HANTRO_OK};
use h264bsd::transform::{h264bsdProcessBlock, h264bsdProcessChromaDc, h264bsdProcessLumaDc};

#[test]
fn process_block_dc_only() {
    let mut d = [0i32; 16];
    d[0] = 64;
    assert_eq!(h264bsdProcessBlock(&mut d, 0, 0, 1), HANTRO_OK);
    assert_eq!(d, [10; 16]);
}

#[test]
fn process_block_dc_out_of_range() {
    let mut d = [0i32; 16];
    d[0] = 4000;
    assert_eq!(h264bsdProcessBlock(&mut d, 0, 0, 1), HANTRO_NOK);
}

#[test]
fn process_block_first_row() {
    let mut d = [20, -6, 0, 0, 0, 3, 2, 0, 0, 0, 0, 0, 0, 0, 0, 0];
    assert_eq!(h264bsdProcessBlock(&mut d, 10, 0, 0x63), HANTRO_OK);
    assert_eq!(d, [8, 5, 12, 15, 8, 5, 12, 15, 8, 5, 12, 15, 8, 5, 12, 15]);
}

#[test]
fn process_block_full() {
    let mut d = [12, -3, 4, 1, 2, -1, 0, 5, 0, 0, 1, 0, 0, 0, -2, 1];
    assert_eq!(h264bsdProcessBlock(&mut d, 28, 0, 0xFFFF), HANTRO_OK);
    assert_eq!(d, [90, 53, 59, 86, 54, 34, 37, 91, -4, 47, 74, 19, -24, 44, 68, 40]);
}

#[test]
fn process_block_skips_scaled_dc() {
    let mut d = [0i32; 16];
    d[0] = 100;
    d[1] = 2;
    assert_eq!(h264bsdProcessBlock(&mut d, 20, 1, 3), HANTRO_OK);
    assert_eq!(d, [6, 4, 0, -2, 6, 4, 0, -2, 6, 4, 0, -2, 6, 4, 0, -2]);
}

#[test]
fn process_block_full_out_of_range() {
    let mut d = [0i32; 16];
    d[15] = 300;
    assert_eq!(h264bsdProcessBlock(&mut d, 40, 0, 0x8000), HANTRO_NOK);
}

#[test]
fn process_block_shortcut_matches_full_transform() {
    let input = [20, -6, 0, 0, 0, 3, 2, 0, 0, 0, 0, 0, 0, 0, 0, 0];
    let mut short = input;
    let mut full = input;
    assert_eq!(h264bsdProcessBlock(&mut short, 10, 0, 0x63), HANTRO_OK);
    assert_eq!(h264bsdProcessBlock(&mut full, 10, 0, 0xFFFF), HANTRO_OK);
    assert_eq!(short, full);
    let mut dc = [0i32; 16];
    dc[0] = 64;
    assert_eq!(h264bsdProcessBlock(&mut dc, 0, 0, 0xFFFF), HANTRO_OK);
    assert_eq!(dc, [10; 16]);
}

#[test]
fn process_luma_dc_high_qp() {
    let mut d = [5, -2, 3, 0, 1, 0, 0, -1, 0, 0, 2, 0, 0, 0, 0, 1];
    h264bsdProcessLumaDc(&mut d, 30);
    assert_eq!(d, [720, 720, 720, 400, 240, 560, 880, 880, 240, -80, 240, 240, -240, -240, 400, 720]);
}

#[test]
fn process_luma_dc_low_qp() {
    let mut d = [5, -2, 3, 0, 1, 0, 0, -1, 0, 0, 2, 0, 0, 0, 0, 1];
    h264bsdProcessLumaDc(&mut d, 3);
    assert_eq!(d, [32, 32, 32, 18, 11, 25, 39, 39, 11, -3, 11, 11, -10, -10, 18, 32]);
    let mut e = [5, -2, 3, 0, 1, 0, 0, -1, 0, 0, 2, 0, 0, 0, 0, 1];
    h264bsdProcessLumaDc(&mut e, 8);
    assert_eq!(e, [59, 59, 59, 33, 20, 46, 72, 72, 20, -6, 20, 20, -19, -19, 33, 59]);
}

#[test]
fn process_chroma_dc() {
    let mut d = [10, -3, 2, 1, -4, 0, 5, 2];
    h264bsdProcessChromaDc(&mut d, 20);
    assert_eq!(d, [520, 728, 208, 624, 156, -52, -572, -364]);
    let mut e = [10, -3, 2, 1, -4, 0, 5, 2];
    h264bsdProcessChromaDc(&mut e, 3);
    assert_eq!(e, [70, 98, 28, 84, 21, -7, -77, -49]);
    let mut f = [10, -3, 2, 1, -4, 0, 5, 2];
    h264bsdProcessChromaDc(&mut f, 6);
    assert_eq!(f, [100, 140, 40, 120, 30, -10, -110, -70]);
}

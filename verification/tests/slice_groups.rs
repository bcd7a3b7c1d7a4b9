use h264bsd::defs::{HANTRO_NOK, HANTRO_OK};
use h264bsd::param_sets::{picParamSet_t, seqParamSet_t};
use h264bsd::slice_group::{h264bsdDecodeSliceGroupMap, CheckPps};

fn pps(groups: u32, map_type: u32) -> picParamSet_t {
    let mut p = picParamSet_t::zeroed();
    p.numSliceGroups = groups;
    p.sliceGroupMapType = map_type;
    p
}

fn sps(w: u32, h: u32) -> seqParamSet_t {
    let mut s = seqParamSet_t::zeroed();
    s.picWidthInMbs = w;
    s.picHeightInMbs = h;
    s
}

fn decode(p: &picParamSet_t, cycle: u32, w: u32, h: u32) -> Vec<u32> {
    let mut map = vec![99u32; (w * h) as usize];
    h264bsdDecodeSliceGroupMap(&mut map, p, cycle, w, h);
    map
}

#[test]
fn single_slice_group_is_all_zero() {
    assert_eq!(decode(&pps(1, 6), 0, 4, 3), vec![0; 12]);
}

#[test]
fn interleaved_runs_repeat() {
    let mut p = pps(3, 0);
    p.runLength = vec![2, 0, 3];
    let mut map = vec![99u32; 11];
    h264bsdDecodeSliceGroupMap(&mut map, &p, 0, 11, 1);
    assert_eq!(map, vec![0, 0, 2, 2, 2, 0, 0, 2, 2, 2, 0]);
}

#[test]
fn dispersed_map() {
    assert_eq!(decode(&pps(3, 1), 0, 4, 3), vec![0, 1, 2, 0, 1, 2, 0, 1, 0, 1, 2, 0]);
}

#[test]
fn foreground_rectangles_with_left_over() {
    let mut p = pps(3, 2);
    p.topLeft = vec![5, 0];
    p.bottomRight = vec![10, 6];
    assert_eq!(decode(&p, 0, 4, 3), vec![1, 1, 1, 2, 1, 0, 0, 2, 2, 0, 0, 2]);
}

#[test]
fn raster_scan_map_from_change_cycle() {
    let mut p = pps(2, 4);
    p.sliceGroupChangeDirectionFlag = 1;
    p.sliceGroupChangeRate = 3;
    assert_eq!(decode(&p, 2, 4, 3), vec![1, 1, 1, 1, 1, 1, 0, 0, 0, 0, 0, 0]);
    assert_eq!(decode(&p, 9, 4, 3), vec![0; 12]);
}

#[test]
fn wipe_map_goes_down_the_columns() {
    let mut p = pps(2, 5);
    p.sliceGroupChangeRate = 1;
    assert_eq!(decode(&p, 7, 4, 3), vec![0, 0, 0, 1, 0, 0, 1, 1, 0, 0, 1, 1]);
}

#[test]
fn explicit_map_copies_ids() {
    let mut p = pps(4, 6);
    p.picSizeInMapUnits = 6;
    p.sliceGroupId = vec![3, 1, 2, 0, 0, 1];
    assert_eq!(decode(&p, 0, 3, 2), vec![3, 1, 2, 0, 0, 1]);
}

#[test]
fn check_pps_against_picture_size() {
    let s = sps(4, 3);
    let mut p = pps(3, 0);
    p.runLength = vec![2, 12, 3];
    assert_eq!(CheckPps(&p, &s), HANTRO_OK);
    p.runLength = vec![2, 13, 3];
    assert_eq!(CheckPps(&p, &s), HANTRO_NOK);

    let mut p = pps(3, 2);
    p.topLeft = vec![5, 0];
    p.bottomRight = vec![10, 6];
    assert_eq!(CheckPps(&p, &s), HANTRO_OK);
    p.bottomRight = vec![12, 6];
    assert_eq!(CheckPps(&p, &s), HANTRO_NOK);
    p.topLeft = vec![7, 0];
    p.bottomRight = vec![9, 6];
    assert_eq!(CheckPps(&p, &s), HANTRO_NOK);
    p.topLeft = vec![11, 0];
    p.bottomRight = vec![10, 6];
    assert_eq!(CheckPps(&p, &s), HANTRO_NOK);

    let mut p = pps(2, 4);
    p.sliceGroupChangeRate = 12;
    assert_eq!(CheckPps(&p, &s), HANTRO_OK);
    p.sliceGroupChangeRate = 13;
    assert_eq!(CheckPps(&p, &s), HANTRO_NOK);

    let mut p = pps(2, 6);
    p.picSizeInMapUnits = 11;
    p.sliceGroupId = vec![0; 11];
    assert_eq!(CheckPps(&p, &s), HANTRO_NOK);
    assert_eq!(CheckPps(&pps(1, 0), &s), HANTRO_OK);
}

#[test]
fn box_out_map_spirals_from_the_centre() {
    let mut p = pps(2, 3);
    p.sliceGroupChangeRate = 1;
    assert_eq!(decode(&p, 5, 4, 3), vec![1, 0, 0, 0, 1, 0, 0, 1, 1, 1, 1, 1]);
    p.sliceGroupChangeDirectionFlag = 1;
    assert_eq!(decode(&p, 5, 4, 3), vec![1, 1, 0, 1, 1, 0, 0, 1, 1, 0, 0, 1]);
    assert_eq!(decode(&p, 7, 5, 2), vec![1, 0, 0, 0, 1, 1, 0, 0, 0, 0]);
}

#[test]
fn box_out_map_covers_the_whole_picture() {
    let mut p = pps(2, 3);
    p.sliceGroupChangeRate = 2;
    assert_eq!(decode(&p, 5, 3, 3), vec![0; 9]);
}

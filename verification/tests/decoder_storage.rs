use h264bsd::defs::{
    nalUnit_t, HANTRO_FALSE, HANTRO_NOK, HANTRO_OK, HANTRO_TRUE, NAL_CODED_SLICE, NAL_CODED_SLICE_IDR,
    NAL_SEQ_PARAM_SET, NAL_SEI, PARAM_SET_ERROR,
};
use h264bsd::param_sets::{picParamSet_t, seqParamSet_t};
use h264bsd::pps::h264bsdDecodePicParamSet;
use h264bsd::sps::h264bsdDecodeSeqParamSet;
use h264bsd::image::image_t;
use h264bsd::storage::{
    h264bsdActivateParamSets, h264bsdCheckAccessUnitBoundary, h264bsdConceal, h264bsdInitStorage,
    h264bsdIsEndOfPicture, h264bsdMarkSliceCorrupted,
    h264bsdIsStartOfPicture, h264bsdResetStorage, h264bsdStorePicParamSet, h264bsdStoreSeqParamSet,
    h264bsdValidParamSets, storage_t,
};
use h264bsd::stream::strmData_t;

struct Bits {
    bytes: Vec<u8>,
    n: usize,
}

impl Bits {
    fn new() -> Self {
        Bits { bytes: Vec::new(), n: 0 }
    }

    fn put(&mut self, v: u64, len: usize) -> &mut Self {
        for i in (0..len).rev() {
            if self.n % 8 == 0 {
                self.bytes.push(0);
            }
            if (v >> i) & 1 == 1 {
                let last = self.bytes.len() - 1;
                self.bytes[last] |= 0x80 >> (self.n % 8);
            }
            self.n += 1;
        }
        self
    }

    fn ue(&mut self, v: u32) -> &mut Self {
        let x = v as u64 + 1;
        let len = 64 - x.leading_zeros() as usize;
        self.put(0, len - 1);
        self.put(x, len)
    }

    fn trailing(&mut self) -> &mut Self {
        self.put(1, 1);
        while self.n % 8 != 0 {
            self.put(0, 1);
        }
        self
    }

    fn stream(&self) -> strmData_t {
        strmData_t::new(self.bytes.clone(), self.bytes.len() as u32)
    }
}

/// SPS `id`: 11x9 macroblocks (or `w` wide), max frame num 16, POC type 0
/// with 64 LSB values, one reference frame.
fn sps(id: u32, w: u32) -> seqParamSet_t {
    let mut b = Bits::new();
    b.put(66, 8).put(0, 8).put(30, 8);
    b.ue(id).ue(0).ue(0).ue(2);
    b.ue(1).put(0, 1).ue(w - 1).ue(8);
    b.put(1, 1).put(1, 1).put(0, 1).put(0, 1).trailing();
    let mut s = b.stream();
    let mut sps = seqParamSet_t::zeroed();
    assert_eq!(h264bsdDecodeSeqParamSet(&mut s, &mut sps), HANTRO_OK);
    sps
}

/// PPS `id` of SPS `sps_id`.
fn pps(id: u32, sps_id: u32) -> picParamSet_t {
    let mut b = Bits::new();
    b.ue(id).ue(sps_id).put(0, 1).put(0, 1).ue(0);
    b.ue(0).ue(0).put(0, 1).put(0, 2);
    b.ue(0).ue(0).ue(0);
    b.put(1, 1).put(0, 1).put(0, 1).trailing();
    let mut s = b.stream();
    let mut p = picParamSet_t::zeroed();
    assert_eq!(h264bsdDecodePicParamSet(&mut s, &mut p), HANTRO_OK);
    p
}

fn fresh() -> storage_t {
    let mut st = storage_t::new();
    st.currentPicId = 9;
    h264bsdInitStorage(&mut st);
    assert_eq!(st.currentPicId, 0);
    st
}

/// Slice header start: first_mb_in_slice 0, P slice, PPS `pps_id`,
/// frame_num `frame_num` (4 bits), idr_pic_id for IDR slices, then a
/// 6-bit pic_order_cnt_lsb.
fn slice_start(pps_id: u32, frame_num: u64, idr_pic_id: Option<u32>, lsb: u64) -> strmData_t {
    let mut b = Bits::new();
    b.ue(0).ue(if idr_pic_id.is_some() { 2 } else { 0 }).ue(pps_id).put(frame_num, 4);
    if let Some(id) = idr_pic_id {
        b.ue(id);
    }
    b.put(lsb, 6).trailing();
    b.stream()
}

#[test]
fn fresh_storage_has_no_parameter_sets() {
    let st = fresh();
    assert_eq!(st.activeSpsId, 32);
    assert_eq!(st.activePpsId, 256);
    assert_eq!(h264bsdValidParamSets(&st), HANTRO_NOK);
    assert_eq!(h264bsdIsStartOfPicture(&st), HANTRO_TRUE);
    assert_eq!(st.aub.firstCallFlag, HANTRO_TRUE);
}

#[test]
fn stored_sets_make_a_valid_combination() {
    let mut st = fresh();
    assert_eq!(h264bsdStoreSeqParamSet(&mut st, sps(0, 11)), HANTRO_OK);
    assert_eq!(h264bsdValidParamSets(&st), HANTRO_NOK);
    assert_eq!(h264bsdStorePicParamSet(&mut st, pps(3, 0)), HANTRO_OK);
    assert_eq!(h264bsdValidParamSets(&st), HANTRO_OK);
    assert!(st.sps[0].is_some() && st.pps[3].is_some() && st.pps[0].is_none());
}

#[test]
fn activation_records_then_allocates() {
    let mut st = fresh();
    h264bsdStoreSeqParamSet(&mut st, sps(0, 11));
    h264bsdStorePicParamSet(&mut st, pps(0, 0));
    h264bsdStorePicParamSet(&mut st, pps(1, 0));
    assert_eq!(h264bsdActivateParamSets(&mut st, 5, 1), HANTRO_NOK);
    assert_eq!(h264bsdActivateParamSets(&mut st, 0, 1), HANTRO_OK);
    assert_eq!((st.activePpsId, st.activeSpsId, st.picSizeInMbs), (0, 0, 99));
    assert_eq!(st.pendingActivation, HANTRO_TRUE);
    assert_eq!(st.mb.len(), 0);
    assert_eq!(h264bsdActivateParamSets(&mut st, 0, 1), HANTRO_OK);
    assert_eq!(st.pendingActivation, HANTRO_FALSE);
    assert_eq!(st.mb.len(), 99);
    assert_eq!(st.sliceGroupMap, vec![0u32; 99]);
    assert_eq!(st.mb[12].mbA, Some(11));
    assert_eq!(st.mb[12].mbB, Some(1));
    assert_eq!(st.mb[0].mbA, None);
    assert_eq!(st.dpb.fullness, 0);
    assert_eq!(st.dpb.maxFrameNum, 16);
    assert_eq!(h264bsdActivateParamSets(&mut st, 1, 0), HANTRO_OK);
    assert_eq!(st.activePpsId, 1);
}

#[test]
fn sps_change_needs_an_idr_picture() {
    let mut st = fresh();
    h264bsdStoreSeqParamSet(&mut st, sps(0, 11));
    h264bsdStoreSeqParamSet(&mut st, sps(1, 5));
    h264bsdStorePicParamSet(&mut st, pps(0, 0));
    h264bsdStorePicParamSet(&mut st, pps(1, 1));
    h264bsdActivateParamSets(&mut st, 0, 1);
    h264bsdActivateParamSets(&mut st, 0, 1);
    assert_eq!(h264bsdActivateParamSets(&mut st, 1, 0), HANTRO_NOK);
    assert_eq!(st.activePpsId, 0);
    assert_eq!(h264bsdActivateParamSets(&mut st, 1, 1), HANTRO_OK);
    assert_eq!((st.activePpsId, st.activeSpsId, st.picSizeInMbs), (1, 1, 45));
    assert_eq!(st.pendingActivation, HANTRO_TRUE);
}

#[test]
fn changed_active_sps_forces_reactivation() {
    let mut st = fresh();
    h264bsdStoreSeqParamSet(&mut st, sps(0, 11));
    h264bsdStorePicParamSet(&mut st, pps(0, 0));
    h264bsdActivateParamSets(&mut st, 0, 1);
    assert_eq!(h264bsdStoreSeqParamSet(&mut st, sps(0, 11)), HANTRO_OK);
    assert_eq!((st.activeSpsId, st.activePpsId), (0, 0));
    assert_eq!(h264bsdStoreSeqParamSet(&mut st, sps(0, 7)), HANTRO_OK);
    assert_eq!((st.activeSpsId, st.activePpsId), (33, 257));
    assert_eq!(st.sps[0].as_ref().unwrap().picWidthInMbs, 7);
}

#[test]
fn pps_with_other_sps_drops_active_pps() {
    let mut st = fresh();
    h264bsdStoreSeqParamSet(&mut st, sps(0, 11));
    h264bsdStorePicParamSet(&mut st, pps(0, 0));
    h264bsdActivateParamSets(&mut st, 0, 1);
    h264bsdStorePicParamSet(&mut st, pps(0, 0));
    assert_eq!(st.activePpsId, 0);
    h264bsdStorePicParamSet(&mut st, pps(0, 2));
    assert_eq!(st.activePpsId, 257);
}

#[test]
fn reset_storage_clears_slice_marks() {
    let mut st = fresh();
    h264bsdStoreSeqParamSet(&mut st, sps(0, 11));
    h264bsdStorePicParamSet(&mut st, pps(0, 0));
    h264bsdActivateParamSets(&mut st, 0, 1);
    h264bsdActivateParamSets(&mut st, 0, 1);
    st.mb[4].decoded = 1;
    st.mb[4].sliceId = 3;
    st.slice.numDecodedMbs = 7;
    h264bsdResetStorage(&mut st);
    assert_eq!((st.mb[4].decoded, st.mb[4].sliceId, st.slice.numDecodedMbs), (0, 0, 0));
}

#[test]
fn end_of_picture_counts_decoded_macroblocks() {
    let mut st = fresh();
    h264bsdStoreSeqParamSet(&mut st, sps(0, 11));
    h264bsdStorePicParamSet(&mut st, pps(0, 0));
    h264bsdActivateParamSets(&mut st, 0, 1);
    h264bsdActivateParamSets(&mut st, 0, 1);
    assert_eq!(h264bsdIsEndOfPicture(&st), HANTRO_FALSE);
    st.slice.numDecodedMbs = 99;
    assert_eq!(h264bsdIsEndOfPicture(&st), HANTRO_TRUE);
    st.sliceHeader.redundantPicCnt = 1;
    assert_eq!(h264bsdIsEndOfPicture(&st), HANTRO_FALSE);
    for m in st.mb.iter_mut() {
        m.decoded = 1;
    }
    assert_eq!(h264bsdIsEndOfPicture(&st), HANTRO_TRUE);
}

#[test]
fn access_unit_boundaries() {
    let mut st = fresh();
    h264bsdStoreSeqParamSet(&mut st, sps(0, 11));
    h264bsdStorePicParamSet(&mut st, pps(0, 0));
    let mut flag = 7u32;
    let mut s = slice_start(0, 0, None, 0);
    let nu_sps = nalUnit_t { nalUnitType: NAL_SEQ_PARAM_SET, nalRefIdc: 1 };
    assert_eq!(h264bsdCheckAccessUnitBoundary(&mut s, &nu_sps, &mut st, &mut flag), HANTRO_OK);
    assert_eq!(flag, HANTRO_TRUE);
    let nu_sei = nalUnit_t { nalUnitType: NAL_SEI, nalRefIdc: 0 };
    assert_eq!(h264bsdCheckAccessUnitBoundary(&mut s, &nu_sei, &mut st, &mut flag), HANTRO_OK);
    assert_eq!(flag, HANTRO_TRUE);
    let nu_other = nalUnit_t { nalUnitType: 12, nalRefIdc: 0 };
    assert_eq!(h264bsdCheckAccessUnitBoundary(&mut s, &nu_other, &mut st, &mut flag), HANTRO_OK);
    assert_eq!(flag, HANTRO_FALSE);

    // the first slice always starts an access unit
    let idr = nalUnit_t { nalUnitType: NAL_CODED_SLICE_IDR, nalRefIdc: 1 };
    let mut s = slice_start(0, 0, Some(3), 0);
    assert_eq!(h264bsdCheckAccessUnitBoundary(&mut s, &idr, &mut st, &mut flag), HANTRO_OK);
    assert_eq!(flag, HANTRO_TRUE);
    assert_eq!(st.aub.firstCallFlag, HANTRO_FALSE);
    assert_eq!(st.aub.prevIdrPicId, 3);
    // the same picture again: no boundary
    let mut s = slice_start(0, 0, Some(3), 0);
    assert_eq!(h264bsdCheckAccessUnitBoundary(&mut s, &idr, &mut st, &mut flag), HANTRO_OK);
    assert_eq!(flag, HANTRO_FALSE);
    // another idr_pic_id
    let mut s = slice_start(0, 0, Some(4), 0);
    assert_eq!(h264bsdCheckAccessUnitBoundary(&mut s, &idr, &mut st, &mut flag), HANTRO_OK);
    assert_eq!(flag, HANTRO_TRUE);
    // a non-IDR slice after an IDR one, new frame_num and POC LSB
    let non_idr = nalUnit_t { nalUnitType: NAL_CODED_SLICE, nalRefIdc: 1 };
    let mut s = slice_start(0, 1, None, 2);
    assert_eq!(h264bsdCheckAccessUnitBoundary(&mut s, &non_idr, &mut st, &mut flag), HANTRO_OK);
    assert_eq!(flag, HANTRO_TRUE);
    assert_eq!((st.aub.prevFrameNum, st.aub.prevPicOrderCntLsb), (1, 2));
    // a second slice of the same picture
    let mut s = slice_start(0, 1, None, 2);
    assert_eq!(h264bsdCheckAccessUnitBoundary(&mut s, &non_idr, &mut st, &mut flag), HANTRO_OK);
    assert_eq!(flag, HANTRO_FALSE);
    // only the POC LSB changes
    let mut s = slice_start(0, 1, None, 4);
    assert_eq!(h264bsdCheckAccessUnitBoundary(&mut s, &non_idr, &mut st, &mut flag), HANTRO_OK);
    assert_eq!(flag, HANTRO_TRUE);
    // nal_ref_idc drops to zero
    let non_ref = nalUnit_t { nalUnitType: NAL_CODED_SLICE, nalRefIdc: 0 };
    let mut s = slice_start(0, 1, None, 4);
    assert_eq!(h264bsdCheckAccessUnitBoundary(&mut s, &non_ref, &mut st, &mut flag), HANTRO_OK);
    assert_eq!(flag, HANTRO_TRUE);
    assert_eq!(st.aub.nuPrev.nalRefIdc, 0);
}

#[test]
fn access_unit_check_needs_stored_sets() {
    let mut st = fresh();
    let mut flag = 0u32;
    let nu = nalUnit_t { nalUnitType: NAL_CODED_SLICE, nalRefIdc: 1 };
    let mut s = slice_start(2, 0, None, 0);
    assert_eq!(h264bsdCheckAccessUnitBoundary(&mut s, &nu, &mut st, &mut flag), PARAM_SET_ERROR);
    assert_eq!(flag, HANTRO_TRUE);
    let mut empty = strmData_t::new(vec![0u8, 0u8], 2);
    assert_eq!(h264bsdCheckAccessUnitBoundary(&mut empty, &nu, &mut st, &mut flag), HANTRO_NOK);
    assert_eq!(flag, HANTRO_FALSE);
}

/// Storage with SPS/PPS 0 active for a picture `w` x 9 macroblocks.
fn active(w: u32) -> storage_t {
    let mut st = fresh();
    h264bsdStoreSeqParamSet(&mut st, sps(0, w));
    h264bsdStorePicParamSet(&mut st, pps(0, 0));
    h264bsdActivateParamSets(&mut st, 0, 1);
    h264bsdActivateParamSets(&mut st, 0, 1);
    st
}

#[test]
fn corrupted_slice_loses_its_decodes() {
    let mut st = active(2);
    for n in 3..9 {
        st.mb[n].sliceId = 1;
        st.mb[n].decoded = 1;
    }
    st.mb[4].decoded = 2;
    st.mb[9].decoded = 1;
    st.slice.sliceId = 1;
    h264bsdMarkSliceCorrupted(&mut st, 3);
    let decoded: Vec<u32> = st.mb.iter().map(|m| m.decoded).collect();
    assert_eq!(&decoded[..10], &[0, 0, 0, 0, 1, 0, 0, 0, 0, 1]);
}

#[test]
fn corrupted_slice_marking_stops_at_another_slice() {
    let mut st = active(2);
    for n in 0..6 {
        st.mb[n].sliceId = 2;
        st.mb[n].decoded = 1;
    }
    st.mb[3].sliceId = 5;
    st.slice.sliceId = 2;
    st.slice.lastMbAddr = 6;
    h264bsdMarkSliceCorrupted(&mut st, 0);
    let decoded: Vec<u32> = st.mb.iter().map(|m| m.decoded).collect();
    assert_eq!(&decoded[..6], &[0, 0, 0, 1, 1, 1]);
}

#[test]
fn lost_i_picture_turns_grey() {
    let mut st = active(2);
    let mut img = image_t { data: vec![7u8; 384 * 18], width: 2, height: 9, luma: 0, cb: 0, cr: 0 };
    assert_eq!(h264bsdConceal(&mut st, &mut img, 2), HANTRO_OK);
    assert!(img.data.iter().all(|&v| v == 128));
    assert_eq!(st.numConcealedMbs, 18);
    assert!(st.mb.iter().all(|m| m.disableDeblockingFilterIdc == 1 && m.decoded == 0));
}

#[test]
fn lost_macroblocks_are_concealed_around_decoded_ones() {
    let mut st = active(2);
    st.mb[5].decoded = 1;
    st.mb[5].qpY = 30;
    let mut img = image_t { data: vec![7u8; 384 * 18], width: 2, height: 9, luma: 0, cb: 0, cr: 0 };
    // macroblock 5 is row 2, column 1: its first luma row starts at 2 * 16 * 32 + 16
    for x in 0..16 {
        img.data[2 * 16 * 32 + 16 + x] = 200;
    }
    assert_eq!(h264bsdConceal(&mut st, &mut img, 2), HANTRO_OK);
    assert_eq!(st.numConcealedMbs, 17);
    assert!(st.mb.iter().all(|m| m.decoded == 1));
    assert_eq!(st.mb[5].qpY, 30);
    assert!(st.mb.iter().enumerate().all(|(n, m)| n == 5 || (m.qpY == 40 && m.disableDeblockingFilterIdc == 0)));
    for x in 0..16 {
        assert_eq!(img.data[2 * 16 * 32 + 16 + x], 200);
    }
}

#[test]
fn slice_group_map_of_the_active_sets() {
    let mut st = active(2);
    st.sliceGroupMap = vec![9u32; 18];
    h264bsd::storage::h264bsdComputeSliceGroupMap(&mut st, 0);
    assert_eq!(st.sliceGroupMap, vec![0u32; 18]);
}

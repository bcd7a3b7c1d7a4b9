use h264bsd::defs::{nalUnit_t, HANTRO_NOK, HANTRO_OK, NAL_CODED_SLICE, NAL_CODED_SLICE_IDR};
use h264bsd::param_sets::{picParamSet_t, seqParamSet_t};
use h264bsd::poc::{h264bsdDecodePicOrderCnt, pocStorage_t};
use h264bsd::pps::h264bsdDecodePicParamSet;
use h264bsd::slice_header::{
    h264bsdCheckFrameNum, h264bsdCheckIdrPicId, h264bsdCheckPicOrderCntLsb, h264bsdCheckPpsId,
    h264bsdCheckPriorPicsFlag, sliceHeader_t,
};
use h264bsd::slice_syntax::h264bsdDecodeSliceHeader;
use h264bsd::sps::h264bsdDecodeSeqParamSet;
use h264bsd::stream::strmData_t;

struct Bits {
    bytes: Vec<u8>,
    n: usize,
}

impl Bits {
    fn new() -> Self {
        Bits { bytes: Vec::new(), n: 0 }
    }

    fn put(&mut self, v: u64, len: usize) -> &mut Self {
        for i in (0..len).rev() {
            if self.n % 8 == 0 {
                self.bytes.push(0);
            }
            if (v >> i) & 1 == 1 {
                let last = self.bytes.len() - 1;
                self.bytes[last] |= 0x80 >> (self.n % 8);
            }
            self.n += 1;
        }
        self
    }

    fn ue(&mut self, v: u32) -> &mut Self {
        let x = v as u64 + 1;
        let len = 64 - x.leading_zeros() as usize;
        self.put(0, len - 1);
        self.put(x, len)
    }

    fn se(&mut self, v: i32) -> &mut Self {
        let k = if v > 0 { 2 * v as i64 - 1 } else { -2 * v as i64 };
        self.ue(k as u32)
    }

    fn trailing(&mut self) -> &mut Self {
        self.put(1, 1);
        while self.n % 8 != 0 {
            self.put(0, 1);
        }
        self
    }

    fn stream(&self) -> strmData_t {
        strmData_t::new(self.bytes.clone(), self.bytes.len() as u32)
    }
}

/// SPS: 11x9 macroblocks, max frame num 16, POC type 0 with 64 LSB values,
/// one reference frame.
fn sps() -> seqParamSet_t {
    let mut b = Bits::new();
    b.put(66, 8).put(0, 8).put(30, 8);
    b.ue(0).ue(0).ue(0).ue(2);
    b.ue(1).put(0, 1).ue(10).ue(8);
    b.put(1, 1).put(1, 1).put(0, 1).put(0, 1).trailing();
    let mut s = b.stream();
    let mut sps = seqParamSet_t::zeroed();
    assert_eq!(h264bsdDecodeSeqParamSet(&mut s, &mut sps), HANTRO_OK);
    sps
}

/// PPS 0 of SPS 0 with deblocking control, initial QP 26.
fn pps() -> picParamSet_t {
    let mut b = Bits::new();
    b.ue(0).ue(0).put(0, 1).put(0, 1).ue(0);
    b.ue(0).ue(0).put(0, 1).put(0, 2).se(0).se(0).se(0);
    b.put(1, 1).put(0, 1).put(0, 1).trailing();
    let mut s = b.stream();
    let mut pps = picParamSet_t::zeroed();
    assert_eq!(h264bsdDecodePicParamSet(&mut s, &mut pps), HANTRO_OK);
    pps
}

const IDR: nalUnit_t = nalUnit_t { nalUnitType: NAL_CODED_SLICE_IDR, nalRefIdc: 3 };
const NON_IDR: nalUnit_t = nalUnit_t { nalUnitType: NAL_CODED_SLICE, nalRefIdc: 2 };

/// Slice header of an IDR I slice.
fn idr_header(lsb: u64) -> Bits {
    let mut b = Bits::new();
    b.ue(0).ue(7).ue(0).put(0, 4).ue(5).put(lsb, 6);
    /* dec_ref_pic_marking of an IDR picture */
    b.put(0, 1).put(0, 1);
    b.se(2).ue(0).se(1).se(-1);
    b
}

/// Slice header of a P slice with frame_num 1, LSB 4, one reordering
/// command and sliding window marking.
fn p_header() -> Bits {
    let mut b = Bits::new();
    b.ue(3).ue(5).ue(0).put(1, 4).put(4, 6);
    /* num_ref_idx_active_override_flag = 0 */
    b.put(0, 1);
    /* ref_pic_list_reordering: one command (subtract 1) and the end */
    b.put(1, 1).ue(0).ue(0).ue(3);
    /* adaptive_ref_pic_marking_mode_flag = 0 */
    b.put(0, 1);
    b.se(-1).ue(1);
    b
}

#[test]
fn idr_slice_header() {
    let (sps, pps) = (sps(), pps());
    let b = idr_header(0);
    let mut s = b.stream();
    let mut sh = sliceHeader_t::zeroed();
    assert_eq!(h264bsdDecodeSliceHeader(&mut s, &mut sh, &sps, &pps, &IDR), HANTRO_OK);
    assert_eq!(sh.firstMbInSlice, 0);
    assert_eq!(sh.sliceType, 7);
    assert_eq!(sh.frameNum, 0);
    assert_eq!(sh.idrPicId, 5);
    assert_eq!(sh.picOrderCntLsb, 0);
    assert_eq!(sh.sliceQpDelta, 2);
    assert_eq!(sh.disableDeblockingFilterIdc, 0);
    assert_eq!(sh.sliceAlphaC0Offset, 2);
    assert_eq!(sh.sliceBetaOffset, -2);
    assert_eq!(s.strmBuffReadBits as usize, b.n);
}

#[test]
fn idr_slice_with_nonzero_poc_is_refused() {
    let (sps, pps) = (sps(), pps());
    let mut s = idr_header(3).stream();
    let mut sh = sliceHeader_t::zeroed();
    assert_eq!(h264bsdDecodeSliceHeader(&mut s, &mut sh, &sps, &pps, &IDR), HANTRO_NOK);
}

#[test]
fn p_slice_header() {
    let (sps, pps) = (sps(), pps());
    let b = p_header();
    let mut s = b.stream();
    let mut sh = sliceHeader_t::zeroed();
    assert_eq!(h264bsdDecodeSliceHeader(&mut s, &mut sh, &sps, &pps, &NON_IDR), HANTRO_OK);
    assert_eq!(sh.firstMbInSlice, 3);
    assert_eq!(sh.sliceType, 5);
    assert_eq!(sh.frameNum, 1);
    assert_eq!(sh.picOrderCntLsb, 4);
    assert_eq!(sh.numRefIdxL0Active, 1);
    assert_eq!(sh.refPicListReordering.refPicListReorderingFlagL0, 1);
    assert_eq!(sh.refPicListReordering.command[0].reorderingOfPicNumsIdc, 0);
    assert_eq!(sh.refPicListReordering.command[0].absDiffPicNum, 1);
    assert_eq!(sh.refPicListReordering.command[1].reorderingOfPicNumsIdc, 3);
    assert_eq!(sh.decRefPicMarking.adaptiveRefPicMarkingModeFlag, 0);
    assert_eq!(sh.sliceQpDelta, -1);
    assert_eq!(sh.disableDeblockingFilterIdc, 1);
    assert_eq!(s.strmBuffReadBits as usize, b.n);
}

#[test]
fn p_slice_in_idr_nal_unit_is_refused() {
    let (sps, pps) = (sps(), pps());
    let mut s = p_header().stream();
    let mut sh = sliceHeader_t::zeroed();
    assert_eq!(h264bsdDecodeSliceHeader(&mut s, &mut sh, &sps, &pps, &IDR), HANTRO_NOK);
}

#[test]
fn first_macroblock_outside_picture_is_refused() {
    let (sps, pps) = (sps(), pps());
    let mut b = Bits::new();
    b.ue(99).ue(7).ue(0).put(0, 4).ue(0).put(0, 6).put(0, 2).se(0).ue(1);
    let mut s = b.stream();
    let mut sh = sliceHeader_t::zeroed();
    assert_eq!(h264bsdDecodeSliceHeader(&mut s, &mut sh, &sps, &pps, &IDR), HANTRO_NOK);
}

#[test]
fn peek_slice_header_fields() {
    let (sps, pps) = (sps(), pps());
    let b = idr_header(0);
    let mut s = b.stream();
    let mut v = 0;
    assert_eq!(h264bsdCheckPpsId(&mut s, &mut v), HANTRO_OK);
    assert_eq!(v, 0);
    assert_eq!(h264bsdCheckFrameNum(&mut s, sps.maxFrameNum, &mut v), HANTRO_OK);
    assert_eq!(v, 0);
    assert_eq!(h264bsdCheckIdrPicId(&mut s, sps.maxFrameNum, NAL_CODED_SLICE_IDR, &mut v), HANTRO_OK);
    assert_eq!(v, 5);
    assert_eq!(h264bsdCheckPicOrderCntLsb(&mut s, &sps, NAL_CODED_SLICE_IDR, &mut v), HANTRO_OK);
    assert_eq!(v, 0);
    assert_eq!(h264bsdCheckPriorPicsFlag(&mut v, &s, &sps, &pps, NAL_CODED_SLICE_IDR), HANTRO_OK);
    assert_eq!(v, 0);
    /* peeking leaves the stream where it was */
    assert_eq!(s.strmBuffReadBits, 0);
    let mut p = p_header().stream();
    assert_eq!(h264bsdCheckFrameNum(&mut p, sps.maxFrameNum, &mut v), HANTRO_OK);
    assert_eq!(v, 1);
}

fn header_with(frame_num: u32, lsb: u32) -> sliceHeader_t {
    let mut sh = sliceHeader_t::zeroed();
    sh.frameNum = frame_num;
    sh.picOrderCntLsb = lsb;
    sh
}

#[test]
fn poc_type0_sequence() {
    let sps = sps();
    let mut poc = pocStorage_t { prevPicOrderCntLsb: 7, prevPicOrderCntMsb: 128, prevFrameNum: 0, prevFrameNumOffset: 0 };
    /* an IDR picture starts over */
    assert_eq!(h264bsdDecodePicOrderCnt(&mut poc, &sps, &header_with(0, 0), &IDR), 0);
    assert_eq!(poc.prevPicOrderCntMsb, 0);
    assert_eq!(poc.prevPicOrderCntLsb, 0);
    assert_eq!(h264bsdDecodePicOrderCnt(&mut poc, &sps, &header_with(1, 4), &NON_IDR), 4);
    assert_eq!(poc.prevPicOrderCntLsb, 4);
    /* LSB wraps around 64: the MSB steps up */
    assert_eq!(h264bsdDecodePicOrderCnt(&mut poc, &sps, &header_with(2, 62), &NON_IDR), -2);
    assert_eq!(h264bsdDecodePicOrderCnt(&mut poc, &sps, &header_with(3, 2), &NON_IDR), 2);
    poc.prevPicOrderCntLsb = 60;
    assert_eq!(h264bsdDecodePicOrderCnt(&mut poc, &sps, &header_with(4, 2), &NON_IDR), 66);
    assert_eq!(poc.prevPicOrderCntMsb, 64);
}

#[test]
fn poc_type0_non_reference_keeps_state() {
    let sps = sps();
    let mut poc = pocStorage_t { prevPicOrderCntLsb: 10, prevPicOrderCntMsb: 0, prevFrameNum: 0, prevFrameNumOffset: 0 };
    let nonref = nalUnit_t { nalUnitType: NAL_CODED_SLICE, nalRefIdc: 0 };
    let mut sh = header_with(1, 12);
    sh.deltaPicOrderCntBottom = -3;
    assert_eq!(h264bsdDecodePicOrderCnt(&mut poc, &sps, &sh, &nonref), 9);
    assert_eq!(poc.prevPicOrderCntLsb, 10);
}

#[test]
fn poc_type2_counts_frames() {
    let mut sps = sps();
    sps.picOrderCntType = 2;
    let mut poc = pocStorage_t { prevPicOrderCntLsb: 0, prevPicOrderCntMsb: 0, prevFrameNum: 0, prevFrameNumOffset: 0 };
    assert_eq!(h264bsdDecodePicOrderCnt(&mut poc, &sps, &header_with(0, 0), &IDR), 0);
    assert_eq!(h264bsdDecodePicOrderCnt(&mut poc, &sps, &header_with(1, 0), &NON_IDR), 2);
    let nonref = nalUnit_t { nalUnitType: NAL_CODED_SLICE, nalRefIdc: 0 };
    assert_eq!(h264bsdDecodePicOrderCnt(&mut poc, &sps, &header_with(2, 0), &nonref), 3);
    /* frame_num wraps at 16: the offset grows by 16 */
    poc.prevFrameNum = 15;
    assert_eq!(h264bsdDecodePicOrderCnt(&mut poc, &sps, &header_with(0, 0), &NON_IDR), 32);
    assert_eq!(poc.prevFrameNumOffset, 16);
}

#[test]
fn poc_type1_expected_counts() {
    let mut sps = sps();
    sps.picOrderCntType = 1;
    sps.numRefFramesInPicOrderCntCycle = 2;
    sps.offsetForRefFrame = vec![2, 4];
    sps.offsetForNonRefPic = -1;
    sps.offsetForTopToBottomField = 0;
    let mut poc = pocStorage_t { prevPicOrderCntLsb: 0, prevPicOrderCntMsb: 0, prevFrameNum: 0, prevFrameNumOffset: 0 };
    assert_eq!(h264bsdDecodePicOrderCnt(&mut poc, &sps, &header_with(0, 0), &IDR), 0);
    /* frame 1: one cycle entry */
    assert_eq!(h264bsdDecodePicOrderCnt(&mut poc, &sps, &header_with(1, 0), &NON_IDR), 2);
    /* frame 3: one full cycle (6) and one entry (2) */
    assert_eq!(h264bsdDecodePicOrderCnt(&mut poc, &sps, &header_with(3, 0), &NON_IDR), 8);
}

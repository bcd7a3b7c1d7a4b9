use h264bsd::defs::{HANTRO_NOK, HANTRO_OK};
use h264bsd::param_sets::{picParamSet_t, seqParamSet_t};
use h264bsd::pps::h264bsdDecodePicParamSet;
use h264bsd::sps::{h264bsdCompareSeqParamSets, h264bsdDecodeSeqParamSet};
use h264bsd::stream::strmData_t;

/// Bits written most significant first.
struct Bits {
    bytes: Vec<u8>,
    n: usize,
}

impl Bits {
    fn new() -> Self {
        Bits { bytes: Vec::new(), n: 0 }
    }

    fn put(&mut self, v: u64, len: usize) -> &mut Self {
        for i in (0..len).rev() {
            if self.n % 8 == 0 {
                self.bytes.push(0);
            }
            if (v >> i) & 1 == 1 {
                let last = self.bytes.len() - 1;
                self.bytes[last] |= 0x80 >> (self.n % 8);
            }
            self.n += 1;
        }
        self
    }

    fn ue(&mut self, v: u32) -> &mut Self {
        let x = v as u64 + 1;
        let len = 64 - x.leading_zeros() as usize;
        self.put(0, len - 1);
        self.put(x, len)
    }

    fn se(&mut self, v: i32) -> &mut Self {
        let k = if v > 0 { 2 * v as i64 - 1 } else { -2 * v as i64 };
        self.ue(k as u32)
    }

    fn trailing(&mut self) -> &mut Self {
        self.put(1, 1);
        while self.n % 8 != 0 {
            self.put(0, 1);
        }
        self
    }

    fn stream(&self) -> strmData_t {
        strmData_t::new(self.bytes.clone(), self.bytes.len() as u32)
    }
}

/// A baseline SPS for an 11x9 macroblock picture at level 3.0.
fn sps_bits(sps_id: u32, vui: bool) -> Bits {
    let mut b = Bits::new();
    b.put(66, 8).put(0, 3).put(0, 5).put(30, 8);
    b.ue(sps_id).ue(0).ue(0).ue(2);
    b.ue(1).put(0, 1).ue(10).ue(8);
    b.put(1, 1).put(1, 1).put(0, 1);
    if vui {
        b.put(1, 1);
        /* aspect ratio, overscan, video signal type, chroma location */
        b.put(0, 1).put(0, 1).put(0, 1).put(0, 1);
        /* timing: 1001 / 60000, fixed frame rate */
        b.put(1, 1).put(1001, 32).put(60000, 32).put(1, 1);
        /* no HRD, no pic_struct */
        b.put(0, 1).put(0, 1).put(0, 1);
        /* bitstream restriction */
        b.put(1, 1).put(1, 1).ue(0).ue(0).ue(10).ue(10).ue(0).ue(1);
    } else {
        b.put(0, 1);
    }
    b.trailing();
    b
}

fn decode_sps(b: &Bits) -> (u32, seqParamSet_t, strmData_t) {
    let mut s = b.stream();
    let mut sps = seqParamSet_t::zeroed();
    let r = h264bsdDecodeSeqParamSet(&mut s, &mut sps);
    (r, sps, s)
}

#[test]
fn sps_fields() {
    let b = sps_bits(0, false);
    let (r, sps, s) = decode_sps(&b);
    assert_eq!(r, HANTRO_OK);
    assert_eq!(sps.profileIdc, 66);
    assert_eq!(sps.levelIdc, 30);
    assert_eq!(sps.seqParameterSetId, 0);
    assert_eq!(sps.maxFrameNum, 16);
    assert_eq!(sps.picOrderCntType, 0);
    assert_eq!(sps.maxPicOrderCntLsb, 64);
    assert_eq!(sps.numRefFrames, 1);
    assert_eq!(sps.picWidthInMbs, 11);
    assert_eq!(sps.picHeightInMbs, 9);
    assert_eq!(sps.frameCroppingFlag, 0);
    assert_eq!(sps.vuiParametersPresentFlag, 0);
    /* 3110400 / (99 * 384) frames, at most 16 */
    assert_eq!(sps.maxDpbSize, 16);
    assert_eq!(s.strmBuffReadBits as usize, b.n);
}

#[test]
fn sps_with_vui() {
    let b = sps_bits(3, true);
    let (r, sps, _) = decode_sps(&b);
    assert_eq!(r, HANTRO_OK);
    assert_eq!(sps.seqParameterSetId, 3);
    assert_eq!(sps.vuiParametersPresentFlag, 1);
    let v = &sps.vuiParameters;
    assert_eq!(v.videoFormat, 5);
    assert_eq!(v.colourPrimaries, 2);
    assert_eq!(v.timingInfoPresentFlag, 1);
    assert_eq!(v.numUnitsInTick, 1001);
    assert_eq!(v.timeScale, 60000);
    assert_eq!(v.fixedFrameRateFlag, 1);
    assert_eq!(v.nalHrdParameters.cpbCnt, 1);
    assert_eq!(v.nalHrdParameters.bitRateValue[0], 1200 * 240000 + 1);
    assert_eq!(v.vclHrdParameters.cpbSizeValue[0], 1000 * 240000 + 1);
    assert_eq!(v.bitstreamRestrictionFlag, 1);
    assert_eq!(v.log2MaxMvLengthHorizontal, 10);
    assert_eq!(v.maxDecFrameBuffering, 1);
    /* the restriction replaces the level's DPB size */
    assert_eq!(sps.maxDpbSize, 1);
}

#[test]
fn sps_poc_type_one_offsets() {
    let mut b = Bits::new();
    b.put(66, 8).put(0, 8).put(30, 8);
    b.ue(0).ue(0).ue(1);
    b.put(0, 1).se(-1).se(2).ue(3).se(4).se(-5).se(6);
    b.ue(1).put(0, 1).ue(10).ue(8);
    b.put(1, 1).put(1, 1).put(0, 1).put(0, 1).trailing();
    let (r, sps, _) = decode_sps(&b);
    assert_eq!(r, HANTRO_OK);
    assert_eq!(sps.picOrderCntType, 1);
    assert_eq!(sps.offsetForNonRefPic, -1);
    assert_eq!(sps.offsetForTopToBottomField, 2);
    assert_eq!(sps.numRefFramesInPicOrderCntCycle, 3);
    assert_eq!(sps.offsetForRefFrame, vec![4, -5, 6]);
}

#[test]
fn sps_with_cropping() {
    let mut b = Bits::new();
    b.put(66, 8).put(0, 8).put(30, 8);
    b.ue(0).ue(0).ue(2);
    b.ue(1).put(0, 1).ue(10).ue(8);
    b.put(1, 1).put(1, 1).put(1, 1).ue(0).ue(4).ue(0).ue(2);
    b.put(0, 1).trailing();
    let (r, sps, _) = decode_sps(&b);
    assert_eq!(r, HANTRO_OK);
    assert_eq!(sps.frameCroppingFlag, 1);
    assert_eq!(sps.frameCropRightOffset, 4);
    assert_eq!(sps.frameCropBottomOffset, 2);
}

#[test]
fn sps_rejects_invalid_values() {
    /* sequence parameter set id out of range */
    let (r, _, _) = decode_sps(&sps_bits(32, false));
    assert_eq!(r, HANTRO_NOK);
    /* frame_mbs_only_flag of zero */
    let mut b = Bits::new();
    b.put(66, 8).put(0, 8).put(30, 8);
    b.ue(0).ue(0).ue(2);
    b.ue(1).put(0, 1).ue(10).ue(8);
    b.put(0, 1).put(1, 1).put(0, 1).put(0, 1).trailing();
    assert_eq!(decode_sps(&b).0, HANTRO_NOK);
    /* truncated stream */
    let b = sps_bits(0, false);
    let mut s = strmData_t::new(b.bytes.clone(), 3);
    let mut sps = seqParamSet_t::zeroed();
    assert_eq!(h264bsdDecodeSeqParamSet(&mut s, &mut sps), HANTRO_NOK);
}

#[test]
fn compare_sequence_parameter_sets() {
    let (_, a, _) = decode_sps(&sps_bits(0, false));
    let (_, b, _) = decode_sps(&sps_bits(5, false));
    assert_eq!(h264bsdCompareSeqParamSets(&a, &a), 0);
    /* ids are not compared */
    assert_eq!(h264bsdCompareSeqParamSets(&a, &b), 0);
    let (_, c, _) = decode_sps(&sps_bits(0, true));
    assert_eq!(h264bsdCompareSeqParamSets(&a, &c), 1);
    assert_eq!(h264bsdCompareSeqParamSets(&c, &a), 1);
}

fn pps_bits(groups: bool) -> Bits {
    let mut b = Bits::new();
    b.ue(1).ue(0).put(0, 1).put(1, 1);
    if groups {
        /* two slice groups, explicit map of four units */
        b.ue(1).ue(6).ue(3).put(0, 1).put(1, 1).put(1, 1).put(0, 1);
    } else {
        b.ue(0);
    }
    b.ue(0).ue(0).put(0, 1).put(0, 2).se(-2).se(0).se(-3);
    b.put(1, 1).put(0, 1).put(1, 1).trailing();
    b
}

#[test]
fn pps_fields() {
    let b = pps_bits(false);
    let mut s = b.stream();
    let mut pps = picParamSet_t::zeroed();
    assert_eq!(h264bsdDecodePicParamSet(&mut s, &mut pps), HANTRO_OK);
    assert_eq!(pps.picParameterSetId, 1);
    assert_eq!(pps.seqParameterSetId, 0);
    assert_eq!(pps.picOrderPresentFlag, 1);
    assert_eq!(pps.numSliceGroups, 1);
    assert_eq!(pps.numRefIdxL0Active, 1);
    assert_eq!(pps.picInitQp, 24);
    assert_eq!(pps.chromaQpIndexOffset, -3);
    assert_eq!(pps.deblockingFilterControlPresentFlag, 1);
    assert_eq!(pps.constrainedIntraPredFlag, 0);
    assert_eq!(pps.redundantPicCntPresentFlag, 1);
    assert_eq!(s.strmBuffReadBits as usize, b.n);
}

#[test]
fn pps_explicit_slice_group_map() {
    let b = pps_bits(true);
    let mut s = b.stream();
    let mut pps = picParamSet_t::zeroed();
    assert_eq!(h264bsdDecodePicParamSet(&mut s, &mut pps), HANTRO_OK);
    assert_eq!(pps.numSliceGroups, 2);
    assert_eq!(pps.sliceGroupMapType, 6);
    assert_eq!(pps.picSizeInMapUnits, 4);
    assert_eq!(pps.sliceGroupId, vec![0, 1, 1, 0]);
}

#[test]
fn pps_rejects_cabac() {
    let mut b = Bits::new();
    b.ue(0).ue(0).put(1, 1).put(0, 1).ue(0);
    b.ue(0).ue(0).put(0, 1).put(0, 2).se(0).se(0).se(0).put(0, 3).trailing();
    let mut s = b.stream();
    let mut pps = picParamSet_t::zeroed();
    assert_eq!(h264bsdDecodePicParamSet(&mut s, &mut pps), HANTRO_NOK);
}

#[test]
fn pps_rejects_initial_qp_out_of_range() {
    let mut b = Bits::new();
    b.ue(0).ue(0).put(0, 1).put(0, 1).ue(0);
    b.ue(0).ue(0).put(0, 1).put(0, 2).se(26).se(0).se(0).put(0, 3).trailing();
    let mut s = b.stream();
    let mut pps = picParamSet_t::zeroed();
    assert_eq!(h264bsdDecodePicParamSet(&mut s, &mut pps), HANTRO_NOK);
}

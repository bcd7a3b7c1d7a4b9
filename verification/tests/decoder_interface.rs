use h264bsd::decoder::{
    h264bsdCroppingParams, h264bsdFlushBuffer, h264bsdInit, h264bsdNextOutputPicture, h264bsdPicHeight,
    h264bsdPicWidth, h264bsdShutdown,
};
use h264bsd::defs::{HANTRO_OK, HANTRO_TRUE};
use h264bsd::param_sets::{picParamSet_t, seqParamSet_t};
use h264bsd::pps::h264bsdDecodePicParamSet;
use h264bsd::sps::h264bsdDecodeSeqParamSet;
use h264bsd::storage::{h264bsdActivateParamSets, h264bsdStorePicParamSet, h264bsdStoreSeqParamSet, storage_t};
use h264bsd::stream::strmData_t;

struct Bits {
    bytes: Vec<u8>,
    n: usize,
}

impl Bits {
    fn new() -> Self {
        Bits { bytes: Vec::new(), n: 0 }
    }

    fn put(&mut self, v: u64, len: usize) -> &mut Self {
        for i in (0..len).rev() {
            if self.n % 8 == 0 {
                self.bytes.push(0);
            }
            if (v >> i) & 1 == 1 {
                let last = self.bytes.len() - 1;
                self.bytes[last] |= 0x80 >> (self.n % 8);
            }
            self.n += 1;
        }
        self
    }

    fn ue(&mut self, v: u32) -> &mut Self {
        let x = v as u64 + 1;
        let len = 64 - x.leading_zeros() as usize;
        self.put(0, len - 1);
        self.put(x, len)
    }

    fn trailing(&mut self) -> &mut Self {
        self.put(1, 1);
        while self.n % 8 != 0 {
            self.put(0, 1);
        }
        self
    }

    fn stream(&self) -> strmData_t {
        strmData_t::new(self.bytes.clone(), self.bytes.len() as u32)
    }
}

/// SPS `id`: 11x9 macroblocks (or `w` wide), max frame num 16, POC type 0
/// with 64 LSB values, one reference frame.
fn sps(id: u32, w: u32) -> seqParamSet_t {
    let mut b = Bits::new();
    b.put(66, 8).put(0, 8).put(30, 8);
    b.ue(id).ue(0).ue(0).ue(2);
    b.ue(1).put(0, 1).ue(w - 1).ue(8);
    b.put(1, 1).put(1, 1).put(0, 1).put(0, 1).trailing();
    let mut s = b.stream();
    let mut sps = seqParamSet_t::zeroed();
    assert_eq!(h264bsdDecodeSeqParamSet(&mut s, &mut sps), HANTRO_OK);
    sps
}

/// PPS `id` of SPS `sps_id`.
fn pps(id: u32, sps_id: u32) -> picParamSet_t {
    let mut b = Bits::new();
    b.ue(id).ue(sps_id).put(0, 1).put(0, 1).ue(0);
    b.ue(0).ue(0).put(0, 1).put(0, 2);
    b.ue(0).ue(0).ue(0);
    b.put(1, 1).put(0, 1).put(0, 1).trailing();
    let mut s = b.stream();
    let mut p = picParamSet_t::zeroed();
    assert_eq!(h264bsdDecodePicParamSet(&mut s, &mut p), HANTRO_OK);
    p
}

fn decoder(no_reordering: u32) -> storage_t {
    let mut st = storage_t::new();
    assert_eq!(h264bsdInit(&mut st, no_reordering), HANTRO_OK);
    st
}

#[test]
fn init_sets_reordering_flag() {
    assert_eq!(decoder(1).noReordering, HANTRO_TRUE);
    assert_eq!(decoder(0).noReordering, 0);
    assert_eq!(decoder(0).activeSpsId, 32);
}

#[test]
fn picture_size_follows_the_active_sps() {
    let mut st = decoder(0);
    assert_eq!((h264bsdPicWidth(&st), h264bsdPicHeight(&st)), (0, 0));
    h264bsdStoreSeqParamSet(&mut st, sps(0, 11));
    h264bsdStorePicParamSet(&mut st, pps(0, 0));
    assert_eq!((h264bsdPicWidth(&st), h264bsdPicHeight(&st)), (0, 0));
    h264bsdActivateParamSets(&mut st, 0, 1);
    assert_eq!((h264bsdPicWidth(&st), h264bsdPicHeight(&st)), (11, 9));
}

#[test]
fn cropping_of_the_active_sps() {
    let mut st = decoder(0);
    let mut out = (9u32, 9u32, 9u32, 9u32, 9u32);
    h264bsdCroppingParams(&st, &mut out.0, &mut out.1, &mut out.2, &mut out.3, &mut out.4);
    assert_eq!(out, (0, 0, 0, 0, 0));
    let mut s = sps(0, 11);
    s.frameCroppingFlag = 1;
    s.frameCropLeftOffset = 1;
    s.frameCropRightOffset = 2;
    s.frameCropTopOffset = 0;
    s.frameCropBottomOffset = 3;
    h264bsdStoreSeqParamSet(&mut st, s);
    h264bsdStorePicParamSet(&mut st, pps(0, 0));
    h264bsdActivateParamSets(&mut st, 0, 1);
    h264bsdCroppingParams(&st, &mut out.0, &mut out.1, &mut out.2, &mut out.3, &mut out.4);
    assert_eq!(out, (1, 2, 170, 0, 138));
}

#[test]
fn no_picture_to_output_after_activation() {
    let mut st = decoder(0);
    h264bsdStoreSeqParamSet(&mut st, sps(0, 11));
    h264bsdStorePicParamSet(&mut st, pps(0, 0));
    h264bsdActivateParamSets(&mut st, 0, 1);
    h264bsdActivateParamSets(&mut st, 0, 1);
    let (mut id, mut idr, mut err) = (5u32, 6u32, 7u32);
    assert_eq!(h264bsdNextOutputPicture(&mut st, &mut id, &mut idr, &mut err), None);
    assert_eq!((id, idr, err), (5, 6, 7));
    h264bsdFlushBuffer(&mut st);
    assert_eq!(st.dpb.flushed, 1);
    assert_eq!(h264bsdNextOutputPicture(&mut st, &mut id, &mut idr, &mut err), None);
}

#[test]
fn shutdown_drops_everything() {
    let mut st = decoder(0);
    h264bsdStoreSeqParamSet(&mut st, sps(0, 11));
    h264bsdStorePicParamSet(&mut st, pps(0, 0));
    h264bsdActivateParamSets(&mut st, 0, 1);
    h264bsdActivateParamSets(&mut st, 0, 1);
    h264bsdShutdown(&mut st);
    assert!(st.sps.iter().all(|s| s.is_none()));
    assert!(st.pps.iter().all(|p| p.is_none()));
    assert!(st.mb.is_empty() && st.sliceGroupMap.is_empty() && st.dpb.pictures.is_empty());
}

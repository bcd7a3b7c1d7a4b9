use h264bsd::decode::{h264bsdDecode, H264BSD_ERROR, H264BSD_HDRS_RDY, H264BSD_PIC_RDY, H264BSD_RDY};
use h264bsd::storage::storage_t;

fn pcm_sample(i: usize) -> u8 {
    (i % 200 + 16) as u8
}

/// SPS (baseline, 1x1 macroblocks, POC type 2), PPS, and an IDR slice of
/// one I_PCM macroblock, each behind a start code.
fn one_pcm_picture() -> Vec<u8> {
    let mut v = vec![0, 0, 0, 1, 0x67, 0x42, 0x00, 0x1E, 0xDA, 0x79];
    v.extend_from_slice(&[0, 0, 0, 1, 0x68, 0xCE, 0x38, 0x80]);
    v.extend_from_slice(&[0, 0, 0, 1, 0x65, 0xB8, 0x48, 0x68]);
    for i in 0..384 {
        v.push(pcm_sample(i));
    }
    v.push(0x80);
    v
}

#[test]
fn reserved_nal_unit_is_skipped() {
    let mut st = storage_t::new();
    let bytes = vec![0, 0, 0, 1, 0x0E, 0x80];
    let mut read: u32 = 0;
    let r = h264bsdDecode(&mut st, &bytes, bytes.len() as u32, 0, false, &mut read);
    assert_eq!(r, H264BSD_RDY);
    assert_eq!(st.prevBufNotFinished, 0);
    assert_eq!(st.picStarted, 0);
}

#[test]
fn invalid_nal_header_is_an_error() {
    let mut st = storage_t::new();
    let bytes = vec![0, 0, 0, 1, 0x02, 0x80];
    let mut read: u32 = 0;
    let r = h264bsdDecode(&mut st, &bytes, bytes.len() as u32, 0, false, &mut read);
    assert_eq!(r, H264BSD_ERROR);
}

#[test]
fn parameter_sets_are_stored() {
    let mut st = storage_t::new();
    let bytes = one_pcm_picture();
    let mut read: u32 = 0;
    let r = h264bsdDecode(&mut st, &bytes, bytes.len() as u32, 0, false, &mut read);
    assert_eq!(r, H264BSD_RDY);
    assert!(st.sps[0].is_some());
    let off = read as usize;
    let r = h264bsdDecode(&mut st, &bytes[off..], (bytes.len() - off) as u32, 0, false, &mut read);
    assert_eq!(r, H264BSD_RDY);
    assert!(st.pps[0].is_some());
    assert_eq!(st.pps[0].as_ref().unwrap().picInitQp, 26);
}

#[test]
fn one_pcm_picture_is_decoded() {
    let mut st = storage_t::new();
    let bytes = one_pcm_picture();
    let mut off: usize = 0;
    let mut read: u32 = 0;
    let mut same = false;
    let mut results = Vec::new();
    for _ in 0..6 {
        if off >= bytes.len() {
            break;
        }
        let r = h264bsdDecode(&mut st, &bytes[off..], (bytes.len() - off) as u32, 7, same, &mut read);
        results.push(r);
        if r == H264BSD_HDRS_RDY {
            assert_eq!(read, 0);
            same = true;
        } else {
            same = false;
        }
        off += read as usize;
        if r == H264BSD_PIC_RDY {
            break;
        }
    }
    assert_eq!(results, vec![H264BSD_RDY, H264BSD_RDY, H264BSD_HDRS_RDY, H264BSD_PIC_RDY]);
    assert_eq!(st.picWidthInMbs, 1);
    assert_eq!(st.picHeightInMbs, 1);
    assert_eq!(st.currentPicId, 7);
    let pic = &st.dpb.pictures[st.currPic];
    assert_eq!(pic.len(), 384);
    assert_eq!(pic[0], pcm_sample(0));
    assert_eq!(pic[17], pcm_sample(17));
    assert_eq!(pic[300], pcm_sample(300));
    assert_eq!(st.picStarted, 0);
    assert_eq!(st.validSliceInAccessUnit, 0);
}

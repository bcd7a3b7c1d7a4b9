use h264bsd::defs::HANTRO_OK;
use h264bsd::image::image_t;
use h264bsd::macroblock::{macroblockLayer_t, mbStorage_t, mv_t, I_16x16_0_0_0, I_4x4, I_PCM};
use h264bsd::mb_decode::{h264bsdDecodeMacroblock, ProcessResidual};
use h264bsd::mb_layer::zero_layer;
use h264bsd::param_sets::picParamSet_t;
use h264bsd::slice_data::h264bsdDecodeSliceData;
use h264bsd::storage::storage_t;
use h264bsd::stream::strmData_t;

fn mb(mb_type: u32, qp: u32) -> mbStorage_t {
    mbStorage_t {
        mbType: mb_type,
        sliceId: 0,
        disableDeblockingFilterIdc: 0,
        filterOffsetA: 0,
        filterOffsetB: 0,
        qpY: qp,
        chromaQpIndexOffset: 0,
        totalCoeff: [0; 27],
        intra4x4PredMode: [0; 16],
        refPic: [0; 4],
        refAddr: [0; 4],
        mv: [mv_t { hor: 0, ver: 0 }; 16],
        decoded: 0,
        mbA: None,
        mbB: None,
        mbC: None,
        mbD: None,
    }
}

fn one_mb_image() -> image_t {
    image_t { data: vec![0; 384], width: 1, height: 1, luma: 0, cb: 0, cr: 0 }
}

fn pcm_layer() -> macroblockLayer_t {
    let mut l = zero_layer();
    l.mbType = I_PCM;
    for b in 0..24 {
        for k in 0..16 {
            l.residual.level[b][k] = ((16 * b + k) % 256) as i32;
        }
    }
    l
}

#[test]
fn uncoded_blocks_are_marked_empty() {
    let m = mb(I_4x4, 10);
    let mut level = [[3i32; 16]; 26];
    level[25] = [0; 16];
    let map = [0u32; 24];
    assert_eq!(ProcessResidual(&m, &mut level, &map), HANTRO_OK);
    for b in 0..24 {
        assert_eq!(level[b][0], 0xFF_FFFF);
        assert_eq!(level[b][1], 3);
    }
}

#[test]
fn dc_only_block_is_scaled_and_spread() {
    let mut m = mb(I_4x4, 0);
    m.totalCoeff[0] = 1;
    let mut level = [[0i32; 16]; 26];
    level[0][0] = 64;
    let mut map = [0u32; 24];
    map[0] = 1;
    assert_eq!(ProcessResidual(&m, &mut level, &map), HANTRO_OK);
    assert_eq!(level[0], [10; 16]);
    assert_eq!(level[1][0], 0xFF_FFFF);
}

#[test]
fn pcm_macroblock_is_written_as_it_is() {
    let mut mbs = vec![mb(0, 7)];
    let mut layer = pcm_layer();
    let mut image = one_mb_image();
    let dpb = storage_t::new().dpb;
    let mut qp: i32 = 20;
    let mut data = [0u8; 384];
    let r = h264bsdDecodeMacroblock(&mut mbs, 0, &mut layer, &mut image, &dpb, &mut qp, 0, 0, &mut data);
    assert_eq!(r, HANTRO_OK);
    assert_eq!(qp, 20);
    assert_eq!(mbs[0].qpY, 0);
    assert_eq!(mbs[0].mbType, I_PCM);
    assert_eq!(mbs[0].decoded, 1);
    assert_eq!(&mbs[0].totalCoeff[..24], &[16i16; 24][..]);
    assert_eq!(data[17], 17);
    assert_eq!(image.data[0], 0);
    assert_eq!(image.data[16 + 1], 17);
    assert_eq!(image.data[255], 255);
    assert_eq!(image.data[256], 0);
    assert_eq!(image.data[383], 127);
}

#[test]
fn pcm_macroblock_decoded_again_is_not_rewritten() {
    let mut m = mb(0, 7);
    m.decoded = 1;
    let mut mbs = vec![m];
    let mut layer = pcm_layer();
    let mut image = one_mb_image();
    let dpb = storage_t::new().dpb;
    let mut qp: i32 = 20;
    let mut data = [0u8; 384];
    let r = h264bsdDecodeMacroblock(&mut mbs, 0, &mut layer, &mut image, &dpb, &mut qp, 0, 0, &mut data);
    assert_eq!(r, HANTRO_OK);
    assert_eq!(mbs[0].decoded, 2);
    assert_eq!(image.data, vec![0u8; 384]);
}

#[test]
fn qp_delta_wraps_below_zero() {
    let mut mbs = vec![mb(0, 0)];
    let mut layer = zero_layer();
    layer.mbType = I_16x16_0_0_0 + 2;
    layer.mbQpDelta = -5;
    let mut image = one_mb_image();
    let dpb = storage_t::new().dpb;
    let mut qp: i32 = 3;
    let mut data = [0u8; 384];
    let r = h264bsdDecodeMacroblock(&mut mbs, 0, &mut layer, &mut image, &dpb, &mut qp, 0, 0, &mut data);
    assert_eq!(r, HANTRO_OK);
    assert_eq!(qp, 50);
    assert_eq!(mbs[0].qpY, 50);
    assert_eq!(image.data, vec![128u8; 384]);
}

#[test]
fn qp_delta_wraps_above_fifty_one() {
    let mut mbs = vec![mb(0, 0)];
    let mut layer = zero_layer();
    layer.mbType = I_16x16_0_0_0 + 2;
    layer.mbQpDelta = 25;
    let mut image = one_mb_image();
    let dpb = storage_t::new().dpb;
    let mut qp: i32 = 40;
    let mut data = [0u8; 384];
    let r = h264bsdDecodeMacroblock(&mut mbs, 0, &mut layer, &mut image, &dpb, &mut qp, 0, 0, &mut data);
    assert_eq!(r, HANTRO_OK);
    assert_eq!(qp, 13);
    assert_eq!(mbs[0].qpY, 13);
}

fn pps() -> picParamSet_t {
    picParamSet_t {
        picParameterSetId: 0,
        seqParameterSetId: 0,
        picOrderPresentFlag: 0,
        numSliceGroups: 1,
        sliceGroupMapType: 0,
        runLength: Vec::new(),
        topLeft: Vec::new(),
        bottomRight: Vec::new(),
        sliceGroupChangeDirectionFlag: 0,
        sliceGroupChangeRate: 0,
        picSizeInMapUnits: 0,
        sliceGroupId: Vec::new(),
        numRefIdxL0Active: 1,
        picInitQp: 26,
        chromaQpIndexOffset: 0,
        deblockingFilterControlPresentFlag: 0,
        constrainedIntraPredFlag: 0,
        redundantPicCntPresentFlag: 0,
    }
}

fn one_mb_storage() -> storage_t {
    let mut st = storage_t::new();
    st.pps[0] = Some(pps());
    st.activePpsId = 0;
    st.mb = vec![mb(0, 0)];
    st.sliceGroupMap = vec![0];
    st.picSizeInMbs = 1;
    st
}

/// An I slice of one I_PCM macroblock: mb_type 25, alignment, 384
/// samples, stop bit.
fn pcm_slice() -> Vec<u8> {
    let mut v = vec![0x0D, 0x00];
    for i in 0..384 {
        v.push((i % 251) as u8);
    }
    v.push(0x80);
    v
}

#[test]
fn slice_of_one_pcm_macroblock() {
    let mut st = one_mb_storage();
    let mut sh = storage_t::new().sliceHeader;
    sh.sliceType = 2;
    let bytes = pcm_slice();
    let n = bytes.len() as u32;
    let mut s = strmData_t::new(bytes, n);
    let mut image = one_mb_image();
    let r = h264bsdDecodeSliceData(&mut s, &mut st, &mut image, &sh);
    assert_eq!(r, HANTRO_OK);
    assert_eq!(st.slice.sliceId, 1);
    assert_eq!(st.slice.numDecodedMbs, 1);
    assert_eq!(st.slice.lastMbAddr, 0);
    assert_eq!(st.mb[0].mbType, I_PCM);
    assert_eq!(st.mb[0].sliceId, 1);
    assert_eq!(st.mb[0].decoded, 1);
    assert_eq!(image.data[5], 5);
    assert_eq!(image.data[300], (300 % 251) as u8);
    assert_eq!(s.strmBuffReadBits, 8 * 386);
}

#[test]
fn primary_slice_over_decoded_macroblock_fails() {
    let mut st = one_mb_storage();
    st.mb[0].decoded = 1;
    let mut sh = storage_t::new().sliceHeader;
    sh.sliceType = 2;
    let bytes = pcm_slice();
    let n = bytes.len() as u32;
    let mut s = strmData_t::new(bytes, n);
    let mut image = one_mb_image();
    let r = h264bsdDecodeSliceData(&mut s, &mut st, &mut image, &sh);
    assert_ne!(r, HANTRO_OK);
    assert_eq!(st.slice.sliceId, 1);
    assert_eq!(st.slice.numDecodedMbs, 0);
    assert_eq!(s.strmBuffReadBits, 0);
}

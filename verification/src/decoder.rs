//! The decoder's outer interface on its storage: initialisation and
//! shutdown, the pictures ready for display, and the dimensions and
//! cropping of the active sequence parameter set.
use vstd::prelude::*;
use crate::defs::{HANTRO_OK, HANTRO_TRUE, MAX_NUM_PIC_PARAM_SETS, MAX_NUM_SEQ_PARAM_SETS};
use crate::dpb::{h264bsdDpbOutputPicture, h264bsdFlushDpb, h264bsdFreeDpb, out_state, output_all};
use crate::storage::{h264bsdInitStorage, is_initial, storage_t};

verus! {

/// A decoder instance: its state (uninitialised, initialised or new
/// headers seen), the number of
/// pictures decoded, and the decoding storage.
pub struct decContainer_t {
    pub decStat: u32,
    pub picNumber: u32,
    pub storage: storage_t,
}

/// Initialise the decoder: a storage as `h264bsdInitStorage` leaves it,
/// with output reordering off when `noOutputReordering` is set.
pub fn h264bsdInit(pStorage: &mut storage_t, noOutputReordering: u32) -> (r: u32)
    ensures
        r == HANTRO_OK,
        is_initial(&storage_t { noReordering: 0, ..*final(pStorage) }),
        final(pStorage).noReordering == if noOutputReordering != 0 { HANTRO_TRUE } else { 0 },
{
    h264bsdInitStorage(pStorage);
    if noOutputReordering != 0 {
        pStorage.noReordering = HANTRO_TRUE;
    }
    HANTRO_OK
}

/// Is an SPS active (stored under the active id)?
pub open spec fn has_active_sps(st: &storage_t) -> bool {
    st.activeSpsId < MAX_NUM_SEQ_PARAM_SETS && st.sps@[st.activeSpsId as int] is Some
}

/// Release what the decoder holds: no parameter sets stored, no
/// macroblocks, slice group map or pictures.
pub fn h264bsdShutdown(pStorage: &mut storage_t)
    requires
        old(pStorage).wf(),
    ensures
        final(pStorage).wf(),
        forall|i: int| 0 <= i < MAX_NUM_SEQ_PARAM_SETS ==> (#[trigger] final(pStorage).sps@[i]) is None,
        forall|i: int| 0 <= i < MAX_NUM_PIC_PARAM_SETS ==> (#[trigger] final(pStorage).pps@[i]) is None,
        final(pStorage).mb@.len() == 0,
        final(pStorage).sliceGroupMap@.len() == 0,
        final(pStorage).dpb.buffer@.len() == 0,
        final(pStorage).dpb.pictures@.len() == 0,
{
    let mut i: usize = 0;
    while i < MAX_NUM_SEQ_PARAM_SETS
        invariant
            i <= MAX_NUM_SEQ_PARAM_SETS,
            pStorage.wf(),
            forall|k: int| 0 <= k < i ==> (#[trigger] pStorage.sps@[k]) is None,
        decreases MAX_NUM_SEQ_PARAM_SETS - i,
    {
        pStorage.sps.set(i, None);
        i += 1;
    }
    let mut j: usize = 0;
    while j < MAX_NUM_PIC_PARAM_SETS
        invariant
            j <= MAX_NUM_PIC_PARAM_SETS,
            pStorage.wf(),
            forall|k: int| 0 <= k < MAX_NUM_SEQ_PARAM_SETS ==> (#[trigger] pStorage.sps@[k]) is None,
            forall|k: int| 0 <= k < j ==> (#[trigger] pStorage.pps@[k]) is None,
        decreases MAX_NUM_PIC_PARAM_SETS - j,
    {
        pStorage.pps.set(j, None);
        j += 1;
    }
    pStorage.mb = Vec::new();
    pStorage.sliceGroupMap = Vec::new();
    h264bsdFreeDpb(&mut pStorage.dpb);
}

/// The next picture for display, in display order: its memory in the
/// picture buffer, with its picture id, IDR flag and number of concealed
/// macroblocks written out; None when no picture is waiting.
pub fn h264bsdNextOutputPicture(pStorage: &mut storage_t, picId: &mut u32, isIdrPic: &mut u32, numErrMbs: &mut u32) -> (r:
    Option<usize>)
    requires
        old(pStorage).dpb.wf(),
    ensures
        ({
            let d = old(pStorage).dpb;
            if d.outIndex < d.numOut {
                let p = d.outBuf@[d.outIndex as int];
                &&& r == Some(p.data)
                &&& *final(picId) == p.picId
                &&& *final(isIdrPic) == p.isIdr
                &&& *final(numErrMbs) == p.numErrMbs
                &&& final(pStorage).dpb.outIndex == d.outIndex + 1
            } else {
                &&& r is None
                &&& *final(picId) == *old(picId)
                &&& *final(isIdrPic) == *old(isIdrPic)
                &&& *final(numErrMbs) == *old(numErrMbs)
                &&& final(pStorage).dpb.outIndex == d.outIndex
            }
        }),
        out_state(&final(pStorage).dpb) == out_state(&old(pStorage).dpb),
        final(pStorage).dpb.numOut == old(pStorage).dpb.numOut,
        *final(pStorage) == (storage_t { dpb: final(pStorage).dpb, ..*old(pStorage) }),
{
    match h264bsdDpbOutputPicture(&mut pStorage.dpb) {
        Some(p) => {
            *picId = p.picId;
            *isIdrPic = p.isIdr;
            *numErrMbs = p.numErrMbs;
            Some(p.data)
        },
        None => None,
    }
}

/// Width of the picture in macroblocks: that of the active SPS, 0 before
/// any is active.
pub fn h264bsdPicWidth(pStorage: &storage_t) -> (r: u32)
    requires
        pStorage.wf(),
    ensures
        r == if has_active_sps(pStorage) { pStorage.sps@[pStorage.activeSpsId as int]->0.picWidthInMbs } else { 0 },
{
    if pStorage.activeSpsId < MAX_NUM_SEQ_PARAM_SETS as u32 {
        match &pStorage.sps[pStorage.activeSpsId as usize] {
            Some(sps) => sps.picWidthInMbs,
            None => 0,
        }
    } else {
        0
    }
}

/// Height of the picture in macroblocks: that of the active SPS, 0 before
/// any is active.
pub fn h264bsdPicHeight(pStorage: &storage_t) -> (r: u32)
    requires
        pStorage.wf(),
    ensures
        r == if has_active_sps(pStorage) { pStorage.sps@[pStorage.activeSpsId as int]->0.picHeightInMbs } else { 0 },
{
    if pStorage.activeSpsId < MAX_NUM_SEQ_PARAM_SETS as u32 {
        match &pStorage.sps[pStorage.activeSpsId as usize] {
            Some(sps) => sps.picHeightInMbs,
            None => 0,
        }
    } else {
        0
    }
}

/// Flush the picture buffer (`h264bsdFlushDpb`): every picture waiting
/// for display is put out, unless output reordering is off.
pub fn h264bsdFlushBuffer(pStorage: &mut storage_t)
    requires
        old(pStorage).dpb.wf(),
    ensures
        final(pStorage).dpb.flushed == 1,
        old(pStorage).dpb.noReordering == 0 ==> out_state(&final(pStorage).dpb) == output_all(
            out_state(&old(pStorage).dpb),
            old(pStorage).dpb.dpbSize as int,
        ),
        old(pStorage).dpb.noReordering != 0 ==> out_state(&final(pStorage).dpb) == out_state(&old(pStorage).dpb),
        *final(pStorage) == (storage_t { dpb: final(pStorage).dpb, ..*old(pStorage) }),
{
    h264bsdFlushDpb(&mut pStorage.dpb);
}

/// Cropping of the active SPS in samples: (flag, left offset, width, top
/// offset, height) as `h264bsdCroppingParams` writes them.
pub open spec fn cropping(st: &storage_t) -> (u32, u32, u32, u32, u32) {
    let s = st.sps@[st.activeSpsId as int]->0;
    if has_active_sps(st) && s.frameCroppingFlag != 0 {
        (
            1,
            (2 * s.frameCropLeftOffset) as u32,
            (16 * s.picWidthInMbs - 2 * (s.frameCropLeftOffset + s.frameCropRightOffset)) as u32,
            (2 * s.frameCropTopOffset) as u32,
            (16 * s.picHeightInMbs - 2 * (s.frameCropTopOffset + s.frameCropBottomOffset)) as u32,
        )
    } else {
        (0, 0, 0, 0, 0)
    }
}

/// The cropping rectangle of the active SPS (`cropping`): its left and top
/// offsets and its size in samples, all 0 (and the flag 0) when the SPS
/// crops nothing or none is active.
pub fn h264bsdCroppingParams(
    pStorage: &storage_t,
    croppingFlag: &mut u32,
    leftOffset: &mut u32,
    width: &mut u32,
    topOffset: &mut u32,
    height: &mut u32,
)
    requires
        pStorage.wf(),
        ({
            let s = pStorage.sps@[pStorage.activeSpsId as int]->0;
            has_active_sps(pStorage) && s.frameCroppingFlag != 0 ==> {
                &&& 2 * (s.frameCropLeftOffset + s.frameCropRightOffset) <= 16 * s.picWidthInMbs
                &&& 2 * (s.frameCropTopOffset + s.frameCropBottomOffset) <= 16 * s.picHeightInMbs
            }
        }),
    ensures
        (*final(croppingFlag), *final(leftOffset), *final(width), *final(topOffset), *final(height)) == cropping(
            pStorage,
        ),
{
    if pStorage.activeSpsId < MAX_NUM_SEQ_PARAM_SETS as u32 {
        match &pStorage.sps[pStorage.activeSpsId as usize] {
            Some(sps) => {
                if sps.frameCroppingFlag != 0 {
                    proof {
                        assert(crate::storage::sps_storable(pStorage.sps@[pStorage.activeSpsId as int]->0));
                        let w = sps.picWidthInMbs;
                        let h = sps.picHeightInMbs;
                        assert(w <= w * h && h <= w * h) by (nonlinear_arith)
                            requires 1 <= w, 1 <= h;
                    }
                    *croppingFlag = 1;
                    *leftOffset = 2 * sps.frameCropLeftOffset;
                    *width = 16 * sps.picWidthInMbs - 2 * (sps.frameCropLeftOffset + sps.frameCropRightOffset);
                    *topOffset = 2 * sps.frameCropTopOffset;
                    *height = 16 * sps.picHeightInMbs - 2 * (sps.frameCropTopOffset + sps.frameCropBottomOffset);
                    return;
                }
            },
            None => {},
        }
    }
    *croppingFlag = 0;
    *leftOffset = 0;
    *width = 0;
    *topOffset = 0;
    *height = 0;
}

} // verus!

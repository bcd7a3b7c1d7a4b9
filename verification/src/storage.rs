//! Decoder storage: the stored parameter sets and which of them are
//! active, the state of the access unit boundary check, and the
//! per-picture macroblock bookkeeping.
use vstd::prelude::*;
use crate::defs::{
    nalUnit_t, HANTRO_FALSE, HANTRO_NOK, HANTRO_OK, HANTRO_TRUE, MAX_NUM_PIC_PARAM_SETS, MAX_NUM_SEQ_PARAM_SETS,
    NAL_CODED_SLICE, NAL_CODED_SLICE_IDR, PARAM_SET_ERROR,
};
use crate::dpb::{dpbStorage_t, h264bsdResetDpb};
use crate::macroblock::{mbStorage_t, mv_t};
use crate::neighbour::{h264bsdInitMbNeighbours, mb_neighbours};
use crate::param_sets::{picParamSet_t, seqParamSet_t};
use crate::slice_group::{groups_wf, h264bsdDecodeSliceGroupMap, pps_fits, run_prefix, slice_group_of, CheckPps};
use crate::slice_header::{
    after_frame_num, after_idr, field_bits, first3_ok, frame_num_ok, frame_num_pos, h264bsdCheckDeltaPicOrderCnt,
    h264bsdCheckDeltaPicOrderCntBottom, h264bsdCheckFrameNum, h264bsdCheckIdrPicId, h264bsdCheckPicOrderCntLsb,
    h264bsdCheckPpsId, idr_ok, sliceHeader_t,
};
use crate::sps::{h264bsdCompareSeqParamSets, sps_same};
use crate::slice_syntax::sh_zero;
use crate::stream::{can_parse, strmData_t};
use crate::util::h264bsdNextMbAddress;
use crate::conceal::{concealed_mb, ConcealMb};
use crate::image::image_t;
use crate::poc::pocStorage_t;
use crate::reconstruct::in_block;
use crate::dpb::{h264bsdGetRefPicData, ref_pic_data};
use crate::defs::{IS_I_SLICE, IS_P_SLICE};
use vstd::arithmetic::div_mod::{lemma_div_pos_is_pos, lemma_fundamental_div_mod, lemma_fundamental_div_mod_converse, lemma_mod_pos_bound};
use vstd::set_lib::{lemma_int_range, lemma_len_subset, set_int_range};
use crate::vlc::{se_ok, se_value, ue_next, ue_ok, ue_value};

verus! {

/// Slice bookkeeping of the picture being decoded.
#[derive(Clone, Copy)]
pub struct sliceStorage_t {
    pub sliceId: u32,
    pub numDecodedMbs: u32,
    pub lastMbAddr: u32,
}

/// What the access unit boundary check remembers of the previous slice.
#[derive(Clone, Copy)]
pub struct aubCheck_t {
    pub nuPrev: nalUnit_t,
    pub prevFrameNum: u32,
    pub prevIdrPicId: u32,
    pub prevPicOrderCntLsb: u32,
    pub prevDeltaPicOrderCntBottom: i32,
    pub prevDeltaPicOrderCnt: [i32; 2],
    pub firstCallFlag: u32,
}

/// Decoder storage. `sps` and `pps` hold the stored parameter sets by id
/// (None where none was stored); `activeSpsId` and `activePpsId` name the
/// active ones (32 and 256 before the first activation, 33 and 257 when a
/// changed active SPS forces a new activation); `mb` and `sliceGroupMap`
/// have an entry per macroblock of the active picture size. `strm` keeps
/// the last NAL unit extracted (decoded again when a call could not finish
/// it), `currImage` the picture being decoded, held in picture `currPic` of
/// the buffer, `prevNalUnit` the header of the last slice's NAL unit and
/// `poc` the picture order count state.
pub struct storage_t {
    pub oldSpsId: u32,
    pub activePpsId: u32,
    pub activeSpsId: u32,
    pub sps: Vec<Option<seqParamSet_t>>,
    pub pps: Vec<Option<picParamSet_t>>,
    pub sliceGroupMap: Vec<u32>,
    pub picSizeInMbs: u32,
    pub skipRedundantSlices: u32,
    pub picStarted: u32,
    pub validSliceInAccessUnit: u32,
    pub slice: sliceStorage_t,
    pub numConcealedMbs: u32,
    pub currentPicId: u32,
    pub mb: Vec<mbStorage_t>,
    pub noReordering: u32,
    pub dpb: dpbStorage_t,
    pub aub: aubCheck_t,
    pub pendingActivation: u32,
    pub picWidthInMbs: u32,
    pub picHeightInMbs: u32,
    pub sliceHeader: sliceHeader_t,
    pub intraConcealmentFlag: u32,
    pub prevBufNotFinished: u32,
    pub prevBytesConsumed: u32,
    pub strm: strmData_t,
    pub currImage: image_t,
    pub currPic: usize,
    pub prevNalUnit: nalUnit_t,
    pub poc: pocStorage_t,
}

/// A sequence parameter set that the storage can hold: its fields in the
/// ranges that the slice layer relies on.
pub open spec fn sps_storable(s: seqParamSet_t) -> bool {
    &&& s.wf()
    &&& s.seqParameterSetId < MAX_NUM_SEQ_PARAM_SETS
    &&& 1 <= s.maxFrameNum <= 0x7FFF_FFFF
    &&& s.picOrderCntType == 0 ==> 1 <= s.maxPicOrderCntLsb <= 0x7FFF_FFFF
    &&& s.numRefFrames <= 16
    &&& s.maxDpbSize <= 16
    &&& 1 <= s.picWidthInMbs
    &&& 1 <= s.picHeightInMbs
    &&& s.picWidthInMbs * s.picHeightInMbs <= 0x10_0000
}

/// A picture parameter set that the storage can hold.
pub open spec fn pps_storable(p: picParamSet_t) -> bool {
    &&& p.picParameterSetId < MAX_NUM_PIC_PARAM_SETS
    &&& p.seqParameterSetId < MAX_NUM_SEQ_PARAM_SETS
    &&& groups_wf(p.model())
}

impl storage_t {
    /// The tables have one entry per possible id, and every stored set sits
    /// at its own id.
    pub open spec fn wf(&self) -> bool {
        &&& self.sps.len() == MAX_NUM_SEQ_PARAM_SETS
        &&& self.pps.len() == MAX_NUM_PIC_PARAM_SETS
        &&& self.picSizeInMbs <= 0x10_0000
        &&& forall|i: int|
            0 <= i < MAX_NUM_SEQ_PARAM_SETS && (#[trigger] self.sps@[i]) is Some ==> sps_storable(self.sps@[i]->0)
                && self.sps@[i]->0.seqParameterSetId == i
        &&& forall|i: int|
            0 <= i < MAX_NUM_PIC_PARAM_SETS && (#[trigger] self.pps@[i]) is Some ==> pps_storable(self.pps@[i]->0)
                && self.pps@[i]->0.picParameterSetId == i
    }

    /// Is there a stored SPS with id `id`?
    pub open spec fn has_sps(&self, id: u32) -> bool {
        id < MAX_NUM_SEQ_PARAM_SETS && self.sps@[id as int] is Some
    }

    /// Is there a stored PPS with id `id` whose SPS is stored too?
    pub open spec fn has_pps_and_sps(&self, id: u32) -> bool {
        id < MAX_NUM_PIC_PARAM_SETS && self.pps@[id as int] is Some && self.has_sps(
            self.pps@[id as int]->0.seqParameterSetId,
        )
    }
}

/// Nothing seen yet by the access unit boundary check.
pub open spec fn aub_initial() -> aubCheck_t {
    aubCheck_t {
        nuPrev: nalUnit_t { nalUnitType: 0, nalRefIdc: 0 },
        prevFrameNum: 0,
        prevIdrPicId: 0,
        prevPicOrderCntLsb: 0,
        prevDeltaPicOrderCntBottom: 0,
        prevDeltaPicOrderCnt: [0i32, 0i32],
        firstCallFlag: HANTRO_TRUE,
    }
}

/// An empty picture buffer.
fn empty_dpb() -> (d: dpbStorage_t)
    ensures
        d.buffer@.len() == 0,
        d.fullness == 0,
        d.numRefFrames == 0,
        d.numOut == 0,
{
    dpbStorage_t {
        buffer: Vec::new(),
        list: Vec::new(),
        currentOut: 0,
        outBuf: Vec::new(),
        numOut: 0,
        outIndex: 0,
        maxRefFrames: 0,
        dpbSize: 0,
        maxFrameNum: 0,
        maxLongTermFrameIdx: 0,
        numRefFrames: 0,
        fullness: 0,
        prevRefFrameNum: 0,
        lastContainsMmco5: 0,
        noReordering: 0,
        flushed: 0,
        pictures: Vec::new(),
    }
}

/// A storage as initialised: no parameter sets stored or active, nothing
/// seen by the access unit boundary check, every counter zero and no
/// macroblocks, slice group map or pictures.
pub open spec fn is_initial(st: &storage_t) -> bool {
    &&& st.wf()
    &&& forall|i: int| 0 <= i < MAX_NUM_SEQ_PARAM_SETS ==> (#[trigger] st.sps@[i]) is None
    &&& forall|i: int| 0 <= i < MAX_NUM_PIC_PARAM_SETS ==> (#[trigger] st.pps@[i]) is None
    &&& st.activeSpsId == MAX_NUM_SEQ_PARAM_SETS
    &&& st.activePpsId == MAX_NUM_PIC_PARAM_SETS
    &&& st.oldSpsId == 0
    &&& st.aub == aub_initial()
    &&& st.picSizeInMbs == 0
    &&& st.pendingActivation == HANTRO_FALSE
    &&& st.validSliceInAccessUnit == HANTRO_FALSE
    &&& st.picStarted == HANTRO_FALSE
    &&& st.skipRedundantSlices == HANTRO_FALSE
    &&& st.noReordering == HANTRO_FALSE
    &&& st.slice == (sliceStorage_t { sliceId: 0, numDecodedMbs: 0, lastMbAddr: 0 })
    &&& st.numConcealedMbs == 0
    &&& st.currentPicId == 0
    &&& st.mb@.len() == 0
    &&& st.sliceGroupMap@.len() == 0
    &&& st.dpb.buffer@.len() == 0
    &&& st.dpb.fullness == 0
    &&& st.picWidthInMbs == 0
    &&& st.picHeightInMbs == 0
    &&& st.sliceHeader.model() == sh_zero()
    &&& st.intraConcealmentFlag == HANTRO_FALSE
}

impl storage_t {
    /// A storage as `h264bsdInitStorage` leaves it.
    pub fn new() -> (st: storage_t)
        ensures
            is_initial(&st),
    {
        let mut sps: Vec<Option<seqParamSet_t>> = Vec::new();
        let mut i: usize = 0;
        while i < MAX_NUM_SEQ_PARAM_SETS
            invariant
                i <= MAX_NUM_SEQ_PARAM_SETS,
                sps.len() == i,
                forall|k: int| 0 <= k < i ==> (#[trigger] sps@[k]) is None,
            decreases MAX_NUM_SEQ_PARAM_SETS - i,
        {
            sps.push(None);
            i += 1;
        }
        let mut pps: Vec<Option<picParamSet_t>> = Vec::new();
        let mut j: usize = 0;
        while j < MAX_NUM_PIC_PARAM_SETS
            invariant
                j <= MAX_NUM_PIC_PARAM_SETS,
                pps.len() == j,
                forall|k: int| 0 <= k < j ==> (#[trigger] pps@[k]) is None,
            decreases MAX_NUM_PIC_PARAM_SETS - j,
        {
            pps.push(None);
            j += 1;
        }
        storage_t {
            oldSpsId: 0,
            activePpsId: MAX_NUM_PIC_PARAM_SETS as u32,
            activeSpsId: MAX_NUM_SEQ_PARAM_SETS as u32,
            sps,
            pps,
            sliceGroupMap: Vec::new(),
            picSizeInMbs: 0,
            skipRedundantSlices: HANTRO_FALSE,
            picStarted: HANTRO_FALSE,
            validSliceInAccessUnit: HANTRO_FALSE,
            slice: sliceStorage_t { sliceId: 0, numDecodedMbs: 0, lastMbAddr: 0 },
            numConcealedMbs: 0,
            currentPicId: 0,
            mb: Vec::new(),
            noReordering: HANTRO_FALSE,
            dpb: empty_dpb(),
            aub: aubCheck_t {
                nuPrev: nalUnit_t { nalUnitType: 0, nalRefIdc: 0 },
                prevFrameNum: 0,
                prevIdrPicId: 0,
                prevPicOrderCntLsb: 0,
                prevDeltaPicOrderCntBottom: 0,
                prevDeltaPicOrderCnt: [0, 0],
                firstCallFlag: HANTRO_TRUE,
            },
            pendingActivation: HANTRO_FALSE,
            picWidthInMbs: 0,
            picHeightInMbs: 0,
            sliceHeader: sliceHeader_t::zeroed(),
            intraConcealmentFlag: HANTRO_FALSE,
            prevBufNotFinished: HANTRO_FALSE,
            prevBytesConsumed: 0,
            strm: strmData_t::new(Vec::new(), 0),
            currImage: image_t { data: Vec::new(), width: 0, height: 0, luma: 0, cb: 0, cr: 0 },
            currPic: 0,
            prevNalUnit: nalUnit_t { nalUnitType: 0, nalRefIdc: 0 },
            poc: pocStorage_t { prevPicOrderCntLsb: 0, prevPicOrderCntMsb: 0, prevFrameNum: 0, prevFrameNumOffset: 0 },
        }
    }
}

/// Initialise the storage (see `is_initial`).
pub fn h264bsdInitStorage(pStorage: &mut storage_t)
    ensures
        is_initial(final(pStorage)),
{
    *pStorage = storage_t::new();
}

/// Is SPS `s` the same (`sps_same`) as the active SPS stored under its id?
/// Storing it then changes nothing.
pub open spec fn sps_unchanged(st: &storage_t, s: seqParamSet_t) -> bool {
    let id = s.seqParameterSetId as int;
    st.sps@[id] is Some && id == st.activeSpsId && sps_same(s.model(), st.sps@[id]->0.model())
}

/// Store a sequence parameter set under its id. One with the id of the
/// active SPS that agrees with it is dropped and nothing changes; one that
/// differs replaces it and makes both active ids invalid (33 and 257), so
/// that the next activation starts anew; any other replaces what is stored
/// under its id.
pub fn h264bsdStoreSeqParamSet(pStorage: &mut storage_t, pSeqParamSet: seqParamSet_t) -> (r: u32)
    requires
        old(pStorage).wf(),
        sps_storable(pSeqParamSet),
    ensures
        r == HANTRO_OK,
        final(pStorage).wf(),
        ({
            let id = pSeqParamSet.seqParameterSetId as int;
            let o = old(pStorage);
            let reactivate = o.sps@[id] is Some && id == o.activeSpsId && !sps_unchanged(o, pSeqParamSet);
            if sps_unchanged(o, pSeqParamSet) {
                *final(pStorage) == *o
            } else {
                &&& final(pStorage).sps@ == o.sps@.update(id, Some(pSeqParamSet))
                &&& final(pStorage).activeSpsId == if reactivate {
                    (MAX_NUM_SEQ_PARAM_SETS + 1) as u32
                } else {
                    o.activeSpsId
                }
                &&& final(pStorage).activePpsId == if reactivate {
                    (MAX_NUM_PIC_PARAM_SETS + 1) as u32
                } else {
                    o.activePpsId
                }
                &&& *final(pStorage) == (storage_t {
                    sps: final(pStorage).sps,
                    activeSpsId: final(pStorage).activeSpsId,
                    activePpsId: final(pStorage).activePpsId,
                    ..*o
                })
            }
        }),
{
    let id = pSeqParamSet.seqParameterSetId as usize;
    let mut reactivate = false;
    match &pStorage.sps[id] {
        None => {},
        Some(old_sps) => {
            if id == pStorage.activeSpsId as usize {
                if h264bsdCompareSeqParamSets(&pSeqParamSet, old_sps) == 0 {
                    return HANTRO_OK;
                }
                reactivate = true;
            }
        },
    }
    pStorage.sps.set(id, Some(pSeqParamSet));
    if reactivate {
        pStorage.activeSpsId = (MAX_NUM_SEQ_PARAM_SETS + 1) as u32;
        pStorage.activePpsId = (MAX_NUM_PIC_PARAM_SETS + 1) as u32;
    }
    HANTRO_OK
}

/// Store a picture parameter set under its id. Replacing the active PPS
/// with one that refers to another SPS than the active one makes the
/// active PPS id invalid (257), so that the next activation starts anew.
pub fn h264bsdStorePicParamSet(pStorage: &mut storage_t, pPicParamSet: picParamSet_t) -> (r: u32)
    requires
        old(pStorage).wf(),
        pps_storable(pPicParamSet),
    ensures
        r == HANTRO_OK,
        final(pStorage).wf(),
        ({
            let id = pPicParamSet.picParameterSetId as int;
            let o = old(pStorage);
            let reactivate = o.pps@[id] is Some && id == o.activePpsId && pPicParamSet.seqParameterSetId
                != o.activeSpsId;
            &&& final(pStorage).pps@ == o.pps@.update(id, Some(pPicParamSet))
            &&& final(pStorage).activePpsId == if reactivate {
                (MAX_NUM_PIC_PARAM_SETS + 1) as u32
            } else {
                o.activePpsId
            }
            &&& *final(pStorage) == (storage_t {
                pps: final(pStorage).pps,
                activePpsId: final(pStorage).activePpsId,
                ..*o
            })
        }),
{
    let id = pPicParamSet.picParameterSetId as usize;
    let mut reactivate = false;
    if pStorage.pps[id].is_some() && id == pStorage.activePpsId as usize {
        if pPicParamSet.seqParameterSetId != pStorage.activeSpsId {
            reactivate = true;
        }
    }
    pStorage.pps.set(id, Some(pPicParamSet));
    if reactivate {
        pStorage.activePpsId = (MAX_NUM_PIC_PARAM_SETS + 1) as u32;
    }
    HANTRO_OK
}

/// Does a new picture start (no slice of the current access unit decoded
/// yet)?
pub fn h264bsdIsStartOfPicture(pStorage: &storage_t) -> (r: u32)
    ensures
        r == if pStorage.validSliceInAccessUnit == HANTRO_FALSE { HANTRO_TRUE } else { HANTRO_FALSE },
{
    if pStorage.validSliceInAccessUnit == HANTRO_FALSE {
        HANTRO_TRUE
    } else {
        HANTRO_FALSE
    }
}

/// Is PPS `i` stored, with its SPS, and does it fit that SPS's picture
/// size?
pub open spec fn valid_combination(st: &storage_t, i: int) -> bool {
    &&& st.pps@[i] is Some
    &&& st.sps@[st.pps@[i]->0.seqParameterSetId as int] is Some
    &&& pps_fits(
        st.pps@[i]->0.model(),
        st.sps@[st.pps@[i]->0.seqParameterSetId as int]->0.picWidthInMbs,
        st.sps@[st.pps@[i]->0.seqParameterSetId as int]->0.picHeightInMbs,
    )
}

/// Is there a stored PPS whose SPS is stored and whose slice group
/// parameters fit that SPS's picture? HANTRO_OK if so, else HANTRO_NOK.
pub fn h264bsdValidParamSets(pStorage: &storage_t) -> (r: u32)
    requires
        pStorage.wf(),
    ensures
        r == if exists|i: int| 0 <= i < MAX_NUM_PIC_PARAM_SETS && #[trigger] valid_combination(pStorage, i) {
            HANTRO_OK
        } else {
            HANTRO_NOK
        },
{
    let mut i: usize = 0;
    while i < MAX_NUM_PIC_PARAM_SETS
        invariant
            i <= MAX_NUM_PIC_PARAM_SETS,
            pStorage.wf(),
            forall|k: int| 0 <= k < i ==> !#[trigger] valid_combination(pStorage, k),
        decreases MAX_NUM_PIC_PARAM_SETS - i,
    {
        match &pStorage.pps[i] {
            Some(pps) => {
                let spsId = pps.seqParameterSetId as usize;
                match &pStorage.sps[spsId] {
                    Some(sps) => {
                        proof {
                            assert(sps_storable(pStorage.sps@[spsId as int]->0));
                        }
                        if CheckPps(pps, sps) == HANTRO_OK {
                            assert(valid_combination(pStorage, i as int));
                            return HANTRO_OK;
                        }
                    },
                    None => {},
                }
            },
            None => {},
        }
        i += 1;
    }
    HANTRO_NOK
}

/// Start a new picture: no macroblock of the first `picSizeInMbs` belongs
/// to a slice or is decoded, and the slice bookkeeping starts from zero.
pub fn h264bsdResetStorage(pStorage: &mut storage_t)
    requires
        old(pStorage).mb.len() >= old(pStorage).picSizeInMbs,
    ensures
        final(pStorage).slice == (sliceStorage_t { sliceId: 0, numDecodedMbs: 0, ..old(pStorage).slice }),
        final(pStorage).mb.len() == old(pStorage).mb.len(),
        forall|i: int|
            0 <= i < old(pStorage).picSizeInMbs ==> #[trigger] final(pStorage).mb@[i] == (mbStorage_t {
                sliceId: 0,
                decoded: 0,
                ..old(pStorage).mb@[i]
            }),
        forall|i: int|
            old(pStorage).picSizeInMbs <= i < old(pStorage).mb.len() ==> #[trigger] final(pStorage).mb@[i]
                == old(pStorage).mb@[i],
        *final(pStorage) == (storage_t { slice: final(pStorage).slice, mb: final(pStorage).mb, ..*old(pStorage) }),
{
    pStorage.slice.numDecodedMbs = 0;
    pStorage.slice.sliceId = 0;
    let n = pStorage.picSizeInMbs;
    let mut i: u32 = 0;
    while i < n
        invariant
            i <= n,
            n == old(pStorage).picSizeInMbs,
            pStorage.mb.len() == old(pStorage).mb.len(),
            old(pStorage).mb.len() >= n,
            pStorage.slice == (sliceStorage_t { sliceId: 0, numDecodedMbs: 0, ..old(pStorage).slice }),
            *pStorage == (storage_t { slice: pStorage.slice, mb: pStorage.mb, ..*old(pStorage) }),
            forall|k: int| 0 <= k < i ==> #[trigger] pStorage.mb@[k] == (mbStorage_t { sliceId: 0, decoded: 0, ..old(pStorage).mb@[k] }),
            forall|k: int| i <= k < old(pStorage).mb.len() ==> #[trigger] pStorage.mb@[k] == old(pStorage).mb@[k],
        decreases n - i,
    {
        let mut m = pStorage.mb[i as usize];
        m.sliceId = 0;
        m.decoded = 0;
        pStorage.mb.set(i as usize, m);
        i += 1;
    }
}

/// Number of the first `n` macroblocks of `mb` that are decoded.
pub open spec fn decoded_count(mb: Seq<mbStorage_t>, n: int) -> int
    decreases n,
{
    if n <= 0 {
        0
    } else {
        decoded_count(mb, n - 1) + if mb[n - 1].decoded != 0 { 1int } else { 0int }
    }
}

/// Is the picture complete? For a primary picture (redundant_pic_cnt 0 in
/// the last decoded slice header) when as many macroblocks were decoded as the picture
/// has; for a redundant one when every macroblock is marked decoded.
pub fn h264bsdIsEndOfPicture(pStorage: &storage_t) -> (r: u32)
    requires
        pStorage.mb.len() >= pStorage.picSizeInMbs,
    ensures
        r == if (pStorage.sliceHeader.redundantPicCnt == 0 && pStorage.slice.numDecodedMbs == pStorage.picSizeInMbs) || (pStorage.sliceHeader.redundantPicCnt
            != 0 && decoded_count(pStorage.mb@, pStorage.picSizeInMbs as int) == pStorage.picSizeInMbs) {
            HANTRO_TRUE
        } else {
            HANTRO_FALSE
        },
{
    if pStorage.sliceHeader.redundantPicCnt == 0 {
        if pStorage.slice.numDecodedMbs == pStorage.picSizeInMbs {
            return HANTRO_TRUE;
        }
    } else {
        let mut i: u32 = 0;
        let mut tmp: u32 = 0;
        while i < pStorage.picSizeInMbs
            invariant
                i <= pStorage.picSizeInMbs,
                pStorage.mb.len() >= pStorage.picSizeInMbs,
                tmp == decoded_count(pStorage.mb@, i as int),
                tmp <= i,
            decreases pStorage.picSizeInMbs - i,
        {
            if pStorage.mb[i as usize].decoded != 0 {
                tmp += 1;
            }
            i += 1;
        }
        if tmp == pStorage.picSizeInMbs {
            return HANTRO_TRUE;
        }
    }
    HANTRO_FALSE
}

/// The access unit boundary check on a slice NAL unit `nu` whose slice
/// header starts at the position of `s`, with the parameter sets `sps` and
/// `pps` it refers to, `a` the remembered state and `f` whether a boundary
/// was already found: (return code, boundary found, state remembered).
/// A boundary comes where nal_ref_idc changes to or from zero, where an IDR
/// slice follows a non-IDR one or the reverse, and where frame_num,
/// idr_pic_id (between IDR slices) or the picture order count fields
/// differ from those remembered; the state then takes the new values.
pub open spec fn aub_check_slice(
    s: &strmData_t,
    nu: nalUnit_t,
    a: aubCheck_t,
    f: bool,
    sps: seqParamSet_t,
    pps: picParamSet_t,
) -> (u32, bool, aubCheck_t) {
    let idr = nu.nalUnitType == NAL_CODED_SLICE_IDR;
    let prev = a.nuPrev;
    let p = s.pos();
    let f1 = f || (prev.nalRefIdc != nu.nalRefIdc && (prev.nalRefIdc == 0 || nu.nalRefIdc == 0));
    let f2 = f1 || ((prev.nalUnitType == NAL_CODED_SLICE_IDR) != idr);
    let fnum = s.bits_at(frame_num_pos(s, p), field_bits(sps.maxFrameNum)) as u32;
    let f3 = f2 || a.prevFrameNum != fnum;
    let a1 = aubCheck_t { prevFrameNum: fnum, ..a };
    let af = after_frame_num(s, p, sps.maxFrameNum);
    let idrId = ue_value(s, af);
    let f4 = f3 || (idr && prev.nalUnitType == NAL_CODED_SLICE_IDR && a.prevIdrPicId != idrId);
    let a2 = if idr { aubCheck_t { prevIdrPicId: idrId, ..a1 } } else { a1 };
    let q = after_idr(s, p, sps.maxFrameNum, idr);
    let present = pps.picOrderPresentFlag != 0;
    if !frame_num_ok(s, p, sps.maxFrameNum) {
        (HANTRO_NOK, f2, a)
    } else if idr && !ue_ok(s, af) {
        (HANTRO_NOK, f3, a1)
    } else if sps.picOrderCntType == 0 {
        let n = field_bits(sps.maxPicOrderCntLsb);
        let lsb = s.bits_at(q, n) as u32;
        let f5 = f4 || a.prevPicOrderCntLsb != lsb;
        let a3 = aubCheck_t { prevPicOrderCntLsb: lsb, ..a2 };
        let b = se_value(s, q + n);
        if q + n > s.len_bits() {
            (HANTRO_NOK, f4, a2)
        } else if !present {
            (HANTRO_OK, f5, aubCheck_t { nuPrev: nu, ..a3 })
        } else if !se_ok(s, q + n) {
            (HANTRO_NOK, f5, a3)
        } else {
            (
                HANTRO_OK,
                f5 || a.prevDeltaPicOrderCntBottom != b,
                aubCheck_t { nuPrev: nu, prevDeltaPicOrderCntBottom: b, ..a3 },
            )
        }
    } else if sps.picOrderCntType == 1 && sps.deltaPicOrderAlwaysZeroFlag == 0 {
        let q1 = ue_next(s, q);
        let d0 = se_value(s, q);
        let d1 = if present { se_value(s, q1) } else { a.prevDeltaPicOrderCnt[1] };
        if !se_ok(s, q) || (present && !se_ok(s, q1)) {
            (HANTRO_NOK, f4, a2)
        } else {
            (
                HANTRO_OK,
                f4 || a.prevDeltaPicOrderCnt[0] != d0 || a.prevDeltaPicOrderCnt[1] != d1,
                aubCheck_t { nuPrev: nu, prevDeltaPicOrderCnt: [d0, d1], ..a2 },
            )
        }
    } else {
        (HANTRO_OK, f4, aubCheck_t { nuPrev: nu, ..a2 })
    }
}

/// The access unit boundary check of NAL unit `nu` (slice header at the
/// position of `s`) against storage `st`: (return code, boundary found,
/// state remembered). Parameter set and other non-slice NAL units of
/// types 6 to 11 and 13 to 18 start an access unit; other non-slice units
/// do not. For a slice, the first one ever starts an access unit;
/// pic_parameter_set_id must decode to a stored PPS whose SPS is stored and
/// is the active one, unless nothing is active yet or the slice is an IDR
/// slice (else PARAM_SET_ERROR); the rest is `aub_check_slice`.
pub open spec fn aub_check(st: &storage_t, s: &strmData_t, nu: nalUnit_t) -> (u32, bool, aubCheck_t) {
    let t = nu.nalUnitType;
    let f0 = st.aub.firstCallFlag != 0;
    let a0 = aubCheck_t { firstCallFlag: HANTRO_FALSE, ..st.aub };
    let p = s.pos();
    let ppsId = ue_value(s, ue_next(s, ue_next(s, p)));
    let pps = st.pps@[ppsId as int];
    let spsId = pps->0.seqParameterSetId;
    let sps = st.sps@[spsId as int];
    if (5 < t < 12) || (12 < t <= 18) {
        (HANTRO_OK, true, st.aub)
    } else if t != NAL_CODED_SLICE && t != NAL_CODED_SLICE_IDR {
        (HANTRO_OK, false, st.aub)
    } else if !first3_ok(s, p) || ppsId >= MAX_NUM_PIC_PARAM_SETS {
        (HANTRO_NOK, f0, a0)
    } else if pps is None || sps is None || (st.activeSpsId != MAX_NUM_SEQ_PARAM_SETS && spsId != st.activeSpsId && t
        != NAL_CODED_SLICE_IDR) {
        (PARAM_SET_ERROR, f0, a0)
    } else {
        aub_check_slice(s, nu, a0, f0, sps->0, pps->0)
    }
}

fn check_slice_boundary(
    strm: &mut strmData_t,
    nuNext: &nalUnit_t,
    aub: &mut aubCheck_t,
    flag: &mut bool,
    sps: &seqParamSet_t,
    pps: &picParamSet_t,
) -> (r: u32)
    requires
        can_parse(old(strm)),
        sps_storable(*sps),
    ensures
        *final(strm) == *old(strm),
        (r, *final(flag), *final(aub)) == aub_check_slice(old(strm), *nuNext, *old(aub), *old(flag), *sps, *pps),
{
    let ghost s = *old(strm);
    let ghost a = *old(aub);
    let idr = nuNext.nalUnitType == NAL_CODED_SLICE_IDR;
    if aub.nuPrev.nalRefIdc != nuNext.nalRefIdc && (aub.nuPrev.nalRefIdc == 0 || nuNext.nalRefIdc == 0) {
        *flag = true;
    }
    if (aub.nuPrev.nalUnitType == NAL_CODED_SLICE_IDR && !idr) || (aub.nuPrev.nalUnitType != NAL_CODED_SLICE_IDR
        && idr) {
        *flag = true;
    }
    let mut frameNum: u32 = 0;
    let tmp = h264bsdCheckFrameNum(strm, sps.maxFrameNum, &mut frameNum);
    if tmp != HANTRO_OK {
        return HANTRO_NOK;
    }
    if aub.prevFrameNum != frameNum {
        aub.prevFrameNum = frameNum;
        *flag = true;
    }
    if idr {
        let mut idrPicId: u32 = 0;
        proof {
            crate::vlc::lemma_ue_next(&s, after_frame_num(&s, s.pos(), sps.maxFrameNum));
        }
        let tmp = h264bsdCheckIdrPicId(strm, sps.maxFrameNum, nuNext.nalUnitType, &mut idrPicId);
        if tmp != HANTRO_OK {
            return HANTRO_NOK;
        }
        if aub.nuPrev.nalUnitType == NAL_CODED_SLICE_IDR && aub.prevIdrPicId != idrPicId {
            *flag = true;
        }
        aub.prevIdrPicId = idrPicId;
    }
    if sps.picOrderCntType == 0 {
        let mut picOrderCntLsb: u32 = 0;
        let tmp = h264bsdCheckPicOrderCntLsb(strm, sps, nuNext.nalUnitType, &mut picOrderCntLsb);
        if tmp != HANTRO_OK {
            return HANTRO_NOK;
        }
        if aub.prevPicOrderCntLsb != picOrderCntLsb {
            aub.prevPicOrderCntLsb = picOrderCntLsb;
            *flag = true;
        }
        if pps.picOrderPresentFlag != 0 {
            let mut deltaPicOrderCntBottom: i32 = 0;
            let tmp = h264bsdCheckDeltaPicOrderCntBottom(
                strm,
                sps,
                nuNext.nalUnitType,
                &mut deltaPicOrderCntBottom,
            );
            if tmp != HANTRO_OK {
                return tmp;
            }
            if aub.prevDeltaPicOrderCntBottom != deltaPicOrderCntBottom {
                aub.prevDeltaPicOrderCntBottom = deltaPicOrderCntBottom;
                *flag = true;
            }
        }
    } else if sps.picOrderCntType == 1 && sps.deltaPicOrderAlwaysZeroFlag == 0 {
        let mut deltaPicOrderCnt: [i32; 2] = [0, 0];
        let tmp = h264bsdCheckDeltaPicOrderCnt(
            strm,
            sps,
            nuNext.nalUnitType,
            pps.picOrderPresentFlag,
            &mut deltaPicOrderCnt,
        );
        if tmp != HANTRO_OK {
            return tmp;
        }
        let mut d = aub.prevDeltaPicOrderCnt;
        if d[0] != deltaPicOrderCnt[0] {
            d = [deltaPicOrderCnt[0], d[1]];
            *flag = true;
        }
        if pps.picOrderPresentFlag != 0 {
            if d[1] != deltaPicOrderCnt[1] {
                d = [d[0], deltaPicOrderCnt[1]];
                *flag = true;
            }
        }
        aub.prevDeltaPicOrderCnt = d;
        assert(aub.prevDeltaPicOrderCnt@ =~= aub_check_slice(&s, *nuNext, a, *old(flag), *sps, *pps).2.prevDeltaPicOrderCnt@);
    }
    aub.nuPrev = *nuNext;
    proof {
        let c = aub_check_slice(&s, *nuNext, a, *old(flag), *sps, *pps);
        assert(c.0 == HANTRO_OK);
        assert(*flag == c.1);
        assert(aub.nuPrev == c.2.nuPrev);
        assert(aub.prevFrameNum == c.2.prevFrameNum);
        assert(aub.prevIdrPicId == c.2.prevIdrPicId);
        assert(aub.prevPicOrderCntLsb == c.2.prevPicOrderCntLsb);
        assert(aub.prevDeltaPicOrderCntBottom == c.2.prevDeltaPicOrderCntBottom);
        assert(aub.prevDeltaPicOrderCnt@ == c.2.prevDeltaPicOrderCnt@);
        assert(aub.prevDeltaPicOrderCnt == c.2.prevDeltaPicOrderCnt);
        assert(aub.firstCallFlag == c.2.firstCallFlag);
    }
    HANTRO_OK
}

/// Does NAL unit `nuNext`, whose slice header (for a slice) starts at the
/// position of `strm`, start a new access unit? The answer goes to
/// `accessUnitBoundaryFlag` and the return code is the one of `aub_check`;
/// the storage remembers what `aub_check` says and nothing else changes.
pub fn h264bsdCheckAccessUnitBoundary(
    strm: &mut strmData_t,
    nuNext: &nalUnit_t,
    storage: &mut storage_t,
    accessUnitBoundaryFlag: &mut u32,
) -> (r: u32)
    requires
        can_parse(old(strm)),
        old(storage).wf(),
    ensures
        *final(strm) == *old(strm),
        ({
            let c = aub_check(old(storage), old(strm), *nuNext);
            &&& r == c.0
            &&& *final(accessUnitBoundaryFlag) == if c.1 { HANTRO_TRUE } else { HANTRO_FALSE }
            &&& *final(storage) == (storage_t { aub: c.2, ..*old(storage) })
        }),
{
    let t = nuNext.nalUnitType;
    *accessUnitBoundaryFlag = HANTRO_FALSE;
    if (t > 5 && t < 12) || (t > 12 && t <= 18) {
        *accessUnitBoundaryFlag = HANTRO_TRUE;
        return HANTRO_OK;
    } else if t != NAL_CODED_SLICE && t != NAL_CODED_SLICE_IDR {
        return HANTRO_OK;
    }
    let mut aub = storage.aub;
    let mut flag = false;
    if aub.firstCallFlag != 0 {
        flag = true;
    }
    aub.firstCallFlag = HANTRO_FALSE;
    let mut ppsId: u32 = 0;
    let tmp = h264bsdCheckPpsId(strm, &mut ppsId);
    let r = if tmp != HANTRO_OK {
        tmp
    } else {
        match &storage.pps[ppsId as usize] {
            None => PARAM_SET_ERROR,
            Some(pps) => {
                let spsId = pps.seqParameterSetId;
                match &storage.sps[spsId as usize] {
                    None => PARAM_SET_ERROR,
                    Some(sps) => {
                        if storage.activeSpsId != MAX_NUM_SEQ_PARAM_SETS as u32 && spsId != storage.activeSpsId && t
                            != NAL_CODED_SLICE_IDR {
                            PARAM_SET_ERROR
                        } else {
                            proof {
                                assert(sps_storable(storage.sps@[spsId as int]->0));
                            }
                            check_slice_boundary(strm, nuNext, &mut aub, &mut flag, sps, pps)
                        }
                    },
                }
            },
        }
    };
    storage.aub = aub;
    *accessUnitBoundaryFlag = if flag { HANTRO_TRUE } else { HANTRO_FALSE };
    r
}

/// A macroblock with every field zero and no neighbours.
pub open spec fn is_zero_mb(m: mbStorage_t) -> bool {
    &&& m.mbType == 0
    &&& m.sliceId == 0
    &&& m.disableDeblockingFilterIdc == 0
    &&& m.filterOffsetA == 0
    &&& m.filterOffsetB == 0
    &&& m.qpY == 0
    &&& m.chromaQpIndexOffset == 0
    &&& forall|k: int| 0 <= k < 27 ==> #[trigger] m.totalCoeff@[k] == 0
    &&& forall|k: int| 0 <= k < 16 ==> #[trigger] m.intra4x4PredMode@[k] == 0
    &&& forall|k: int| 0 <= k < 4 ==> #[trigger] m.refPic@[k] == 0
    &&& forall|k: int| 0 <= k < 4 ==> #[trigger] m.refAddr@[k] == 0
    &&& forall|k: int| 0 <= k < 16 ==> (#[trigger] m.mv@[k]).hor == 0 && m.mv@[k].ver == 0
    &&& m.decoded == 0
    &&& m.mbA is None
    &&& m.mbB is None
    &&& m.mbC is None
    &&& m.mbD is None
}

fn zero_mb() -> (m: mbStorage_t)
    ensures
        is_zero_mb(m),
{
    mbStorage_t {
        mbType: 0,
        sliceId: 0,
        disableDeblockingFilterIdc: 0,
        filterOffsetA: 0,
        filterOffsetB: 0,
        qpY: 0,
        chromaQpIndexOffset: 0,
        totalCoeff: [0i16; 27],
        intra4x4PredMode: [0u8; 16],
        refPic: [0u32; 4],
        refAddr: [0usize; 4],
        mv: [mv_t { hor: 0, ver: 0 }; 16],
        decoded: 0,
        mbA: None,
        mbB: None,
        mbC: None,
        mbD: None,
    }
}

/// The storage with PPS `ppsId` and its SPS made active for a picture of
/// that SPS's size, the rest of the activation pending.
pub open spec fn activated(o: storage_t, ppsId: u32) -> storage_t {
    let spsId = o.pps@[ppsId as int]->0.seqParameterSetId;
    let sps = o.sps@[spsId as int]->0;
    storage_t {
        activePpsId: ppsId,
        activeSpsId: spsId,
        picSizeInMbs: (sps.picWidthInMbs * sps.picHeightInMbs) as u32,
        picWidthInMbs: sps.picWidthInMbs,
        picHeightInMbs: sps.picHeightInMbs,
        pendingActivation: HANTRO_TRUE,
        ..o
    }
}

/// Is output reordering off for the active SPS `sps`: asked for by the
/// application, picture order count type 2, or no frames to reorder by
/// the VUI?
pub open spec fn no_reordering(noReordering: u32, sps: seqParamSet_t) -> bool {
    noReordering != 0 || sps.picOrderCntType == 2 || (sps.vuiParametersPresentFlag != 0
        && sps.vuiParameters.bitstreamRestrictionFlag != 0 && sps.vuiParameters.numReorderFrames == 0)
}

/// Activate PPS `ppsId` with its SPS at the start of a picture (`isIdr`
/// tells whether it is an IDR picture). HANTRO_NOK when the PPS or its SPS
/// is not stored, when the PPS does not fit the SPS's picture size, or
/// when a non-IDR picture would change the active SPS. The first
/// activation only records the sets and the picture size; the call after
/// it (pending activation) sets up the macroblocks, the slice group map
/// and the picture buffer for the active SPS; later calls switch the
/// active PPS, and switch the SPS too at an IDR picture (pending the rest
/// again).
pub fn h264bsdActivateParamSets(pStorage: &mut storage_t, ppsId: u32, isIdr: u32) -> (r: u32)
    requires
        old(pStorage).wf(),
        ppsId < MAX_NUM_PIC_PARAM_SETS,
        old(pStorage).activePpsId != MAX_NUM_PIC_PARAM_SETS && old(pStorage).pendingActivation != 0 ==> old(
            pStorage,
        ).has_sps(old(pStorage).activeSpsId),
    ensures
        final(pStorage).wf(),
        ({
            let o = *old(pStorage);
            let pps = o.pps@[ppsId as int]->0;
            let spsId = pps.seqParameterSetId;
            let sps = o.sps@[spsId as int]->0;
            let act = o.sps@[o.activeSpsId as int]->0;
            let size = o.picSizeInMbs;
            if !o.has_pps_and_sps(ppsId) || !pps_fits(pps.model(), sps.picWidthInMbs, sps.picHeightInMbs) {
                r == HANTRO_NOK && *final(pStorage) == o
            } else if o.activePpsId == MAX_NUM_PIC_PARAM_SETS {
                r == HANTRO_OK && *final(pStorage) == activated(o, ppsId)
            } else if o.pendingActivation != 0 {
                let f = *final(pStorage);
                &&& r == HANTRO_OK
                &&& f.mb.len() == size
                &&& forall|i: int|
                    0 <= i < size ==> {
                        let n = mb_neighbours(i, act.picWidthInMbs as int);
                        &&& (#[trigger] f.mb@[i]).mbA == n.0
                        &&& f.mb@[i].mbB == n.1
                        &&& f.mb@[i].mbC == n.2
                        &&& f.mb@[i].mbD == n.3
                        &&& is_zero_mb(mbStorage_t { mbA: None, mbB: None, mbC: None, mbD: None, ..f.mb@[i] })
                    }
                &&& f.sliceGroupMap@ == Seq::new(size as nat, |i: int| 0u32)
                &&& f.dpb.wf()
                &&& f.dpb.maxRefFrames == if act.numRefFrames > 1 { act.numRefFrames } else { 1 }
                &&& f.dpb.dpbSize == if no_reordering(o.noReordering, act) { f.dpb.maxRefFrames } else { act.maxDpbSize }
                &&& f.dpb.maxFrameNum == act.maxFrameNum
                &&& f.dpb.noReordering == (if no_reordering(o.noReordering, act) { HANTRO_TRUE } else { HANTRO_FALSE })
                &&& f.dpb.fullness == 0
                &&& f.dpb.numRefFrames == 0
                &&& f.dpb.numOut == 0
                &&& f.dpb.pictures.len() == f.dpb.dpbSize + 1
                &&& forall|i: int|
                    0 <= i < f.dpb.pictures.len() ==> (#[trigger] f.dpb.pictures@[i])@.len() == act.picWidthInMbs
                        * act.picHeightInMbs * 384
                &&& f == (storage_t {
                    pendingActivation: HANTRO_FALSE,
                    mb: f.mb,
                    sliceGroupMap: f.sliceGroupMap,
                    dpb: f.dpb,
                    ..o
                })
            } else if ppsId != o.activePpsId && spsId != o.activeSpsId {
                if isIdr != 0 {
                    r == HANTRO_OK && *final(pStorage) == activated(o, ppsId)
                } else {
                    r == HANTRO_NOK && *final(pStorage) == o
                }
            } else if ppsId != o.activePpsId {
                r == HANTRO_OK && *final(pStorage) == (storage_t { activePpsId: ppsId, ..o })
            } else {
                r == HANTRO_OK && *final(pStorage) == o
            }
        }),
{
    let ghost o = *old(pStorage);
    let spsId: u32;
    let w: u32;
    let h: u32;
    match &pStorage.pps[ppsId as usize] {
        None => {
            return HANTRO_NOK;
        },
        Some(pps) => {
            spsId = pps.seqParameterSetId;
            match &pStorage.sps[spsId as usize] {
                None => {
                    return HANTRO_NOK;
                },
                Some(sps) => {
                    proof {
                        assert(sps_storable(pStorage.sps@[spsId as int]->0));
                        assert(pps_storable(pStorage.pps@[ppsId as int]->0));
                    }
                    if CheckPps(pps, sps) != HANTRO_OK {
                        return HANTRO_NOK;
                    }
                    w = sps.picWidthInMbs;
                    h = sps.picHeightInMbs;
                },
            }
        },
    }
    proof {
        assert(sps_storable(pStorage.sps@[spsId as int]->0));
    }
    if pStorage.activePpsId == MAX_NUM_PIC_PARAM_SETS as u32 {
        pStorage.activePpsId = ppsId;
        pStorage.activeSpsId = spsId;
        pStorage.picSizeInMbs = w * h;
        pStorage.picWidthInMbs = w;
        pStorage.picHeightInMbs = h;
        pStorage.pendingActivation = HANTRO_TRUE;
    } else if pStorage.pendingActivation != 0 {
        pStorage.pendingActivation = HANTRO_FALSE;
        let size = pStorage.picSizeInMbs;
        let mut mb: Vec<mbStorage_t> = Vec::new();
        let mut map: Vec<u32> = Vec::new();
        let mut i: u32 = 0;
        while i < size
            invariant
                i <= size,
                mb.len() == i,
                map.len() == i,
                forall|k: int| 0 <= k < i ==> is_zero_mb(#[trigger] mb@[k]),
                forall|k: int| 0 <= k < i ==> #[trigger] map@[k] == 0u32,
            decreases size - i,
        {
            mb.push(zero_mb());
            map.push(0);
            i += 1;
        }
        let aid = pStorage.activeSpsId as usize;
        let (aw, ah, dpbSize, numRefFrames, maxFrameNum, flag) = match &pStorage.sps[aid] {
            Some(act) => {
                proof {
                    assert(sps_storable(pStorage.sps@[aid as int]->0));
                }
                let flag = if pStorage.noReordering != 0 || act.picOrderCntType == 2 || (act.vuiParametersPresentFlag != 0
                    && act.vuiParameters.bitstreamRestrictionFlag != 0 && act.vuiParameters.numReorderFrames == 0) {
                    HANTRO_TRUE
                } else {
                    HANTRO_FALSE
                };
                (act.picWidthInMbs, act.picHeightInMbs, act.maxDpbSize, act.numRefFrames, act.maxFrameNum, flag)
            },
            None => {
                return HANTRO_NOK;
            },
        };
        h264bsdInitMbNeighbours(&mut mb, aw, size);
        pStorage.mb = mb;
        pStorage.sliceGroupMap = map;
        assert(pStorage.sliceGroupMap@ =~= Seq::new(size as nat, |k: int| 0u32));
        let _ = h264bsdResetDpb(&mut pStorage.dpb, aw * ah, dpbSize, numRefFrames, maxFrameNum, flag);
    } else if ppsId != pStorage.activePpsId {
        if spsId != pStorage.activeSpsId {
            if isIdr != 0 {
                pStorage.activePpsId = ppsId;
                pStorage.activeSpsId = spsId;
                pStorage.picSizeInMbs = w * h;
                pStorage.picWidthInMbs = w;
                pStorage.picHeightInMbs = h;
                pStorage.pendingActivation = HANTRO_TRUE;
            } else {
                return HANTRO_NOK;
            }
        } else {
            pStorage.activePpsId = ppsId;
        }
    }
    HANTRO_OK
}

/// The macroblock after `cur` in the same slice group of `map` (of a
/// picture of `size` macroblocks), or 0 when there is none.
pub open spec fn next_mb(map: Seq<u32>, size: int, cur: int) -> int {
    if exists|i: int| cur < i < size && map[i] == map[cur] {
        choose|i: int|
            cur < i < size && map[i] == map[cur] && forall|j: int| cur < j < i ==> map[j] != map[cur]
    } else {
        0
    }
}

/// The macroblock from which the marking of a corrupted slice starts when
/// it scans back from `i` towards `first`: where `limit` macroblocks of
/// slice `sid` were met (counting `tmp` met so far), or `first`.
pub open spec fn back_scan(mbs: Seq<mbStorage_t>, sid: u32, i: int, first: int, tmp: int, limit: int) -> int
    decreases i - first,
{
    if i <= first {
        i
    } else {
        let t = if mbs[i].sliceId == sid { tmp + 1 } else { tmp };
        if mbs[i].sliceId == sid && t >= limit {
            i
        } else {
            back_scan(mbs, sid, i - 1, first, t, limit)
        }
    }
}

/// Marking from `cur` on, along the slice group of `map`: each macroblock
/// of slice `sid` that is marked decoded gets one decode count less, until
/// a macroblock of another slice or not decoded, or the end of the group.
pub open spec fn mark_run(mbs: Seq<mbStorage_t>, map: Seq<u32>, size: int, cur: int, sid: u32) -> Seq<mbStorage_t>
    decreases size - cur,
{
    if !(0 <= cur < size) || mbs[cur].sliceId != sid || mbs[cur].decoded == 0 {
        mbs
    } else {
        let m2 = mbs.update(cur, mbStorage_t { decoded: (mbs[cur].decoded - 1) as u32, ..mbs[cur] });
        let nx = next_mb(map, size, cur);
        if cur < nx < size {
            mark_run(m2, map, size, nx, sid)
        } else {
            m2
        }
    }
}

/// Where the marking of the corrupted slice that starts at `first` begins:
/// when the last decoded macroblock `last` is known (not 0), at least
/// max(picture width, 10) macroblocks of the slice back from it; else at
/// `first`.
pub open spec fn corrupt_start(st: &storage_t, first: int) -> int {
    let last = st.slice.lastMbAddr as int;
    let limit = if st.picWidthInMbs > 10 { st.picWidthInMbs as int } else { 10 };
    if last != 0 {
        back_scan(st.mb@, st.slice.sliceId, last - 1, first, 0, limit)
    } else {
        first
    }
}

/// Mark the macroblocks of the current slice, which starts at
/// `firstMbInSlice`, as corrupted: undo one decode of each macroblock of
/// the slice from `corrupt_start` on along its slice group, as
/// `mark_run` describes.
pub fn h264bsdMarkSliceCorrupted(pStorage: &mut storage_t, firstMbInSlice: u32)
    requires
        firstMbInSlice < old(pStorage).picSizeInMbs,
        old(pStorage).slice.lastMbAddr <= old(pStorage).picSizeInMbs,
        old(pStorage).mb.len() >= old(pStorage).picSizeInMbs,
        old(pStorage).sliceGroupMap.len() >= old(pStorage).picSizeInMbs,
    ensures
        final(pStorage).mb@ == mark_run(
            old(pStorage).mb@,
            old(pStorage).sliceGroupMap@,
            old(pStorage).picSizeInMbs as int,
            corrupt_start(old(pStorage), firstMbInSlice as int),
            old(pStorage).slice.sliceId,
        ),
        *final(pStorage) == (storage_t { mb: final(pStorage).mb, ..*old(pStorage) }),
{
    let ghost o = *old(pStorage);
    let sliceId = pStorage.slice.sliceId;
    let size = pStorage.picSizeInMbs;
    let mut currMbAddr = firstMbInSlice;
    if pStorage.slice.lastMbAddr != 0 {
        let limit: u32 = if pStorage.picWidthInMbs > 10 { pStorage.picWidthInMbs } else { 10 };
        let ghost target = corrupt_start(&o, firstMbInSlice as int);
        let mut i = pStorage.slice.lastMbAddr - 1;
        let mut tmp: u32 = 0;
        let mut found = false;
        while i > currMbAddr && !found
            invariant
                *pStorage == o,
                currMbAddr == firstMbInSlice,
                i < size,
                size == o.picSizeInMbs,
                o.mb.len() >= size,
                sliceId == o.slice.sliceId,
                limit == (if o.picWidthInMbs > 10 { o.picWidthInMbs as int } else { 10 }),
                target == back_scan(o.mb@, sliceId, o.slice.lastMbAddr - 1, firstMbInSlice as int, 0, limit as int),
                tmp < limit,
                !found ==> back_scan(o.mb@, sliceId, i as int, firstMbInSlice as int, tmp as int, limit as int) == target,
                found ==> i == target,
            decreases i + (if found { 0int } else { 1int }),
        {
            if pStorage.mb[i as usize].sliceId == sliceId {
                if tmp + 1 >= limit {
                    found = true;
                } else {
                    tmp += 1;
                }
            }
            if !found {
                i -= 1;
            }
        }
        currMbAddr = i;
    }
    let ghost map = o.sliceGroupMap@;
    let ghost target = mark_run(o.mb@, map, size as int, currMbAddr as int, sliceId);
    let mut mbs: Vec<mbStorage_t> = Vec::new();
    std::mem::swap(&mut mbs, &mut pStorage.mb);
    let groups = &pStorage.sliceGroupMap;
    let mut go = true;
    while go
        invariant
            size == o.picSizeInMbs,
            mbs.len() == o.mb.len(),
            o.mb.len() >= size,
            groups@ == map,
            map.len() >= size,
            go ==> currMbAddr < size && mark_run(mbs@, map, size as int, currMbAddr as int, sliceId) == target,
            !go ==> mbs@ == target,
        decreases size - currMbAddr + (if go { 1int } else { 0int }),
    {
        let m = mbs[currMbAddr as usize];
        if m.sliceId == sliceId && m.decoded != 0 {
            let mut m2 = m;
            m2.decoded = m.decoded - 1;
            mbs.set(currMbAddr as usize, m2);
            let nx = h264bsdNextMbAddress(groups.as_slice(), size, currMbAddr);
            proof {
                let n = next_mb(map, size as int, currMbAddr as int);
                if nx != 0 {
                    assert(map[nx as int] == map[currMbAddr as int]);
                    assert(n == nx);
                } else {
                    assert(n == 0);
                }
            }
            if nx == 0 {
                go = false;
            } else {
                currMbAddr = nx;
            }
        } else {
            go = false;
        }
    }
    std::mem::swap(&mut mbs, &mut pStorage.mb);
}

/// Is sample `k` of picture `img` in the luma, Cb or Cr block of
/// macroblock `n`?
pub open spec fn in_mb_area(img: image_t, k: int, n: int) -> bool {
    ||| in_block(k, 16 * img.width, img.mb_luma(n), 16, 16)
    ||| in_block(k, 8 * img.width, img.mb_cb(n), 8, 8)
    ||| in_block(k, 8 * img.width, img.mb_cr(n), 8, 8)
}

/// A concealed macroblock, marked decoded.
pub open spec fn concealed_decoded(m: mbStorage_t) -> mbStorage_t {
    mbStorage_t { decoded: 1, ..concealed_mb(m) }
}

/// The macroblocks among the first `size` that were not decoded.
pub open spec fn lost_set(mbs: Seq<mbStorage_t>, size: int) -> Set<int> {
    Set::new(|n: int| 0 <= n < size && mbs[n].decoded == 0)
}

/// The first entry from `i` to 15 of the reference list that has a
/// picture.
pub open spec fn first_ref(dpb: &dpbStorage_t, i: int) -> Option<usize>
    decreases 16 - i,
{
    if i >= 16 || i < 0 {
        None
    } else if ref_pic_data(dpb, i as u32) is Some {
        ref_pic_data(dpb, i as u32)
    } else {
        first_ref(dpb, i + 1)
    }
}

/// The picture that concealment copies from: the first reference picture
/// of the list, for P slices or when intra concealment is asked for.
pub open spec fn conceal_ref(st: &storage_t, sliceType: u32) -> Option<usize> {
    if sliceType == 0 || sliceType == 5 || st.intraConcealmentFlag != 0 {
        first_ref(&st.dpb, 0)
    } else {
        None
    }
}

/// What stays true while macroblocks `done` are concealed one by one:
/// they were lost and are now concealed and decoded, the others are as
/// they were, `cnt` counts them on top of `base`, and no sample outside
/// their blocks changed.
pub open spec fn conceal_inv(
    mbs: Seq<mbStorage_t>,
    img: image_t,
    o_mb: Seq<mbStorage_t>,
    oimg: image_t,
    done: Set<int>,
    cnt: int,
    base: int,
) -> bool {
    let size = oimg.width * oimg.height;
    &&& img.wf()
    &&& img.width == oimg.width
    &&& img.height == oimg.height
    &&& img.data.len() == oimg.data.len()
    &&& mbs.len() == size
    &&& o_mb.len() == size
    &&& done.finite()
    &&& cnt == base + done.len()
    &&& base + size <= u32::MAX
    &&& forall|n: int| #[trigger] done.contains(n) ==> 0 <= n < size && o_mb[n].decoded == 0
    &&& forall|n: int|
        0 <= n < size ==> #[trigger] mbs[n] == if done.contains(n) { concealed_decoded(o_mb[n]) } else { o_mb[n] }
    &&& forall|k: int|
        0 <= k < oimg.data.len() && (forall|n: int| #[trigger] done.contains(n) ==> !in_mb_area(oimg, k, n))
            ==> #[trigger] img.data@[k] == oimg.data@[k]
}

/// Conceal lost macroblock (`row`, `col`) and count it.
fn conceal_step(
    mbs: &mut Vec<mbStorage_t>,
    img: &mut image_t,
    row: u32,
    col: u32,
    sliceType: u32,
    rd: Option<&[u8]>,
    cnt: &mut u32,
    Ghost(o_mb): Ghost<Seq<mbStorage_t>>,
    Ghost(oimg): Ghost<image_t>,
    Ghost(done): Ghost<Set<int>>,
    Ghost(base): Ghost<int>,
)
    requires
        conceal_inv(old(mbs)@, *old(img), o_mb, oimg, done, *old(cnt) as int, base),
        row < oimg.height,
        col < oimg.width,
        !done.contains(row * oimg.width + col),
        o_mb[row * oimg.width + col].decoded == 0,
        rd matches Some(r) ==> r.len() == oimg.data.len(),
    ensures
        conceal_inv(final(mbs)@, *final(img), o_mb, oimg, done.insert(row * oimg.width + col), *final(cnt) as int, base),
{
    let ghost n = row * oimg.width + col;
    let ghost img0 = *img;
    let ghost size = oimg.width * oimg.height;
    proof {
        assert(n < size) by (nonlinear_arith)
            requires n == row * oimg.width + col, row < oimg.height, col < oimg.width, size == oimg.width * oimg.height;
        assert(size <= 0x100_0000) by (nonlinear_arith)
            requires size == oimg.width * oimg.height, oimg.width <= 4096, oimg.height <= 4096;
        assert(row * oimg.width <= n);
        assert(done.subset_of(set_int_range(0, size)));
        lemma_int_range(0, size);
        lemma_len_subset(done, set_int_range(0, size));
        assert(done.insert(n).subset_of(set_int_range(0, size)));
        lemma_len_subset(done.insert(n), set_int_range(0, size));
    }
    let _ = ConcealMb(mbs, img, row, col, sliceType, rd);
    assert(img.width == oimg.width);
    let idx = (row * img.width + col) as usize;
    let mut m = mbs[idx];
    m.decoded = 1;
    mbs.set(idx, m);
    *cnt = *cnt + 1;
    proof {
        let d2 = done.insert(n);
        assert forall|k: int|
            0 <= k < oimg.data.len() && (forall|j: int| #[trigger] d2.contains(j) ==> !in_mb_area(oimg, k, j))
                implies #[trigger] img.data@[k] == oimg.data@[k] by {
            assert(d2.contains(n));
            assert(!in_mb_area(oimg, k, n));
            assert(forall|j: int| #[trigger] done.contains(j) ==> !in_mb_area(oimg, k, j)) by {
                assert forall|j: int| #[trigger] done.contains(j) implies !in_mb_area(oimg, k, j) by {
                    assert(d2.contains(j));
                }
            }
            assert(img0.data@[k] == oimg.data@[k]);
        }
        assert forall|j: int| 0 <= j < size implies #[trigger] mbs@[j] == if d2.contains(j) {
            concealed_decoded(o_mb[j])
        } else {
            o_mb[j]
        } by {
            if j != n {
                assert(d2.contains(j) == done.contains(j));
            }
        }
    }
}

/// A macroblock number below row `row` of a picture `w` macroblocks wide
/// has its row above `row` and its column inside the picture.
proof fn lemma_below_row(n: int, w: int, row: int)
    requires
        w > 0,
        0 <= n < row * w,
    ensures
        0 <= n / w < row,
        0 <= n % w < w,
{
    lemma_fundamental_div_mod(n, w);
    lemma_mod_pos_bound(n, w);
    lemma_div_pos_is_pos(n, w);
    let q = n / w;
    let m = n % w;
    assert(q < row) by (nonlinear_arith)
        requires n == w * q + m, 0 <= m, n < row * w, w > 0;
}

/// Conceal the lost macroblocks of the picture (`sliceType` the type of
/// its slices). When every macroblock was lost the picture becomes a copy
/// of the first reference picture (`conceal_ref`) or, for I slices without
/// intra concealment or without a reference, mid grey (128); every
/// macroblock then counts as concealed and none is filtered. Otherwise
/// every lost macroblock is concealed (`ConcealMb`: copied from the
/// reference or estimated from its decoded neighbours) and marked decoded
/// (the row of the first decoded macroblock first, then the rows above,
/// then those below) and counted; no sample outside their blocks changes.
pub fn h264bsdConceal(pStorage: &mut storage_t, currImage: &mut image_t, sliceType: u32) -> (r: u32)
    requires
        old(currImage).wf(),
        old(pStorage).picSizeInMbs == old(currImage).width * old(currImage).height,
        old(pStorage).mb.len() == old(pStorage).picSizeInMbs,
        old(pStorage).dpb.wf(),
        forall|d: int|
            0 <= d < old(pStorage).dpb.pictures.len() ==> (#[trigger] old(pStorage).dpb.pictures@[d])@.len() == old(
                currImage,
            ).data.len(),
        old(pStorage).numConcealedMbs + old(pStorage).picSizeInMbs <= u32::MAX,
    ensures
        r == HANTRO_OK,
        final(currImage).width == old(currImage).width,
        final(currImage).height == old(currImage).height,
        final(currImage).data.len() == old(currImage).data.len(),
        final(pStorage).mb.len() == old(pStorage).mb.len(),
        *final(pStorage) == (storage_t {
            mb: final(pStorage).mb,
            numConcealedMbs: final(pStorage).numConcealedMbs,
            ..*old(pStorage)
        }),
        ({
            let o = old(pStorage);
            let size = o.picSizeInMbs as int;
            let refd = conceal_ref(o, sliceType);
            if forall|n: int| 0 <= n < size ==> #[trigger] o.mb@[n].decoded == 0 {
                &&& final(pStorage).numConcealedMbs == o.picSizeInMbs
                &&& forall|n: int|
                    0 <= n < size ==> #[trigger] final(pStorage).mb@[n] == (mbStorage_t {
                        disableDeblockingFilterIdc: 1,
                        ..o.mb@[n]
                    })
                &&& final(currImage).data@ == if ((sliceType == 2 || sliceType == 7) && o.intraConcealmentFlag == 0)
                    || refd is None {
                    Seq::new(old(currImage).data.len() as nat, |k: int| 128u8)
                } else {
                    o.dpb.pictures@[refd->0 as int]@
                }
            } else {
                &&& final(pStorage).numConcealedMbs == o.numConcealedMbs + lost_set(o.mb@, size).len()
                &&& lost_set(o.mb@, size).finite()
                &&& forall|n: int|
                    0 <= n < size ==> #[trigger] final(pStorage).mb@[n] == if o.mb@[n].decoded == 0 {
                        concealed_decoded(o.mb@[n])
                    } else {
                        o.mb@[n]
                    }
                &&& forall|k: int|
                    0 <= k < old(currImage).data.len() && (forall|n: int|
                        0 <= n < size && #[trigger] o.mb@[n].decoded == 0 ==> !in_mb_area(*old(currImage), k, n))
                        ==> #[trigger] final(currImage).data@[k] == old(currImage).data@[k]
            }
        }),
{
    let ghost o = *old(pStorage);
    let ghost oimg = *old(currImage);
    let w = currImage.width;
    let h = currImage.height;
    let size = pStorage.picSizeInMbs;
    proof {
        assert(size <= 0x100_0000) by (nonlinear_arith)
            requires size == w * h, w <= 4096, h <= 4096;
    }
    let mut refIdx: Option<usize> = None;
    if IS_P_SLICE(sliceType) || pStorage.intraConcealmentFlag != 0 {
        let mut i: u32 = 0;
        let mut rr = h264bsdGetRefPicData(&pStorage.dpb, 0);
        while i + 1 < 16 && rr.is_none()
            invariant
                i < 16,
                pStorage.dpb.wf(),
                rr == ref_pic_data(&pStorage.dpb, i),
                first_ref(&pStorage.dpb, 0) == (if rr is Some { rr } else { first_ref(&pStorage.dpb, i + 1) }),
            decreases 16 - i,
        {
            i += 1;
            rr = h264bsdGetRefPicData(&pStorage.dpb, i);
        }
        refIdx = rr;
    }
    assert(refIdx == conceal_ref(&o, sliceType));
    /* find the first decoded macroblock */
    let mut i: u32 = 0;
    let mut row: u32 = 0;
    let mut col: u32 = 0;
    while i < size && pStorage.mb[i as usize].decoded == 0
        invariant
            i <= size,
            size == w * h,
            size <= 0x100_0000,
            1 <= w,
            *pStorage == o,
            size == o.picSizeInMbs,
            o.mb.len() == size,
            i == row * w + col,
            col < w,
            row <= i,
            forall|n: int| 0 <= n < i ==> #[trigger] o.mb@[n].decoded == 0,
        decreases size - i,
    {
        i += 1;
        col += 1;
        if col == w {
            proof {
                assert((row + 1) * w == row * w + w) by (nonlinear_arith);
                assert(row + 1 <= (row + 1) * w) by (nonlinear_arith)
                    requires 1 <= w;
            }
            row += 1;
            col = 0;
        }
    }
    if i == size {
        /* the whole picture is lost */
        let len = currImage.data.len();
        if (IS_I_SLICE(sliceType) && pStorage.intraConcealmentFlag == 0) || refIdx.is_none() {
            let mut k: usize = 0;
            while k < len
                invariant
                    k <= len,
                    currImage.data.len() == len,
                    currImage.width == w,
                    currImage.height == h,
                    forall|q: int| 0 <= q < k ==> #[trigger] currImage.data@[q] == 128u8,
                decreases len - k,
            {
                currImage.data.set(k, 128);
                k += 1;
            }
            assert(currImage.data@ =~= Seq::new(len as nat, |q: int| 128u8));
        } else {
            let d = refIdx.unwrap();
            let src = &pStorage.dpb.pictures[d];
            let mut k: usize = 0;
            while k < len
                invariant
                    k <= len,
                    currImage.data.len() == len,
                    src@.len() == len,
                    currImage.width == w,
                    currImage.height == h,
                    forall|q: int| 0 <= q < k ==> #[trigger] currImage.data@[q] == src@[q],
                decreases len - k,
            {
                currImage.data.set(k, src[k]);
                k += 1;
            }
            assert(currImage.data@ =~= src@);
        }
        pStorage.numConcealedMbs = size;
        let mut n: u32 = 0;
        while n < size
            invariant
                n <= size,
                size == o.picSizeInMbs,
                *pStorage == (storage_t { mb: pStorage.mb, numConcealedMbs: size, ..o }),
                pStorage.mb.len() == size,
                forall|q: int| 0 <= q < n ==> #[trigger] pStorage.mb@[q] == (mbStorage_t { disableDeblockingFilterIdc: 1, ..o.mb@[q] }),
                forall|q: int| n <= q < size ==> #[trigger] pStorage.mb@[q] == o.mb@[q],
            decreases size - n,
        {
            let mut m = pStorage.mb[n as usize];
            m.disableDeblockingFilterIdc = 1;
            pStorage.mb.set(n as usize, m);
            n += 1;
        }
        return HANTRO_OK;
    }
    proof {
        assert(row < h) by (nonlinear_arith)
            requires i == row * w + col, i < size, size == w * h, col < w, 1 <= w;
    }
    let mut mbs: Vec<mbStorage_t> = Vec::new();
    std::mem::swap(&mut mbs, &mut pStorage.mb);
    let rd: Option<&[u8]> = match refIdx {
        Some(d) => Some(pStorage.dpb.pictures[d].as_slice()),
        None => None,
    };
    let ghost omb = o.mb@;
    let ghost base = o.numConcealedMbs as int;
    let ghost mut done: Set<int> = Set::empty();
    let mut cnt: u32 = pStorage.numConcealedMbs;
    let rowBase = row * w;
    proof {
        assert(rowBase + w <= size) by (nonlinear_arith)
            requires rowBase == row * w, row < h, size == w * h;
        assert forall|n: int| 0 <= n < size && #[trigger] mbs@[n] == mbs@[n] implies mbs@[n] == if done.contains(n) {
            concealed_decoded(omb[n])
        } else {
            omb[n]
        } by {}
    }
    /* the macroblocks left of the first decoded one, right to left */
    let mut j = col;
    while j != 0
        invariant
            conceal_inv(mbs@, *currImage, omb, oimg, done, cnt as int, base),
            j <= col,
            col < w,
            w == oimg.width,
            h == oimg.height,
            row < h,
            rowBase == row * w,
            i == rowBase + col,
            forall|n: int| 0 <= n < i ==> #[trigger] omb[n].decoded == 0,
            rd matches Some(r) ==> r@.len() == oimg.data.len(),
            forall|n: int| #[trigger] done.contains(n) <==> rowBase + j <= n < rowBase + col,
        decreases j,
    {
        j -= 1;
        conceal_step(&mut mbs, currImage, row, j, sliceType, rd, &mut cnt, Ghost(omb), Ghost(oimg), Ghost(done), Ghost(base));
        proof {
            done = done.insert(rowBase + j);
        }
    }
    /* then those right of it */
    j = col + 1;
    while j < w
        invariant
            conceal_inv(mbs@, *currImage, omb, oimg, done, cnt as int, base),
            col < j <= w,
            w == oimg.width,
            h == oimg.height,
            row < h,
            rowBase == row * w,
            rowBase + w <= w * h,
            w * h <= 0x100_0000,
            i == rowBase + col,
            omb[i as int].decoded != 0,
            forall|n: int| 0 <= n < i ==> #[trigger] omb[n].decoded == 0,
            rd matches Some(r) ==> r@.len() == oimg.data.len(),
            forall|n: int| #[trigger] done.contains(n) <==> rowBase <= n < rowBase + j && omb[n].decoded == 0,
        decreases w - j,
    {
        if mbs[(rowBase + j) as usize].decoded == 0 {
            conceal_step(&mut mbs, currImage, row, j, sliceType, rd, &mut cnt, Ghost(omb), Ghost(oimg), Ghost(done), Ghost(base));
            proof {
                done = done.insert(rowBase + j);
            }
        }
        j += 1;
    }
    /* the rows above, column by column upwards */
    if row != 0 {
        let mut jj: u32 = 0;
        while jj < w
            invariant
                conceal_inv(mbs@, *currImage, omb, oimg, done, cnt as int, base),
                jj <= w,
                1 <= row < h,
                w == oimg.width,
                h == oimg.height,
                rowBase == row * w,
                i == rowBase + i - rowBase,
                rowBase <= i,
                forall|n: int| 0 <= n < i ==> #[trigger] omb[n].decoded == 0,
                rd matches Some(r) ==> r@.len() == oimg.data.len(),
                forall|n: int|
                    #[trigger] done.contains(n) <==> (rowBase <= n < rowBase + w && omb[n].decoded == 0) || (0 <= n
                        < rowBase && n % (w as int) < jj),
            decreases w - jj,
        {
            let mut ii: u32 = row - 1;
            let mut go = true;
            proof {
                assert forall|n: int|
                    #[trigger] done.contains(n) <==> (rowBase <= n < rowBase + w && omb[n].decoded == 0) || (0 <= n
                        < rowBase && (n % (w as int) < jj || (n % (w as int) == jj && n / (w as int) > ii))) by {
                    if 0 <= n < rowBase {
                        lemma_below_row(n, w as int, row as int);
                    }
                }
            }
            while go
                invariant
                    conceal_inv(mbs@, *currImage, omb, oimg, done, cnt as int, base),
                    jj < w,
                    1 <= row < h,
                    ii < row,
                    w == oimg.width,
                    h == oimg.height,
                    rowBase == row * w,
                    rowBase <= i,
                    forall|n: int| 0 <= n < i ==> #[trigger] omb[n].decoded == 0,
                    rd matches Some(r) ==> r@.len() == oimg.data.len(),
                    go ==> forall|n: int|
                        #[trigger] done.contains(n) <==> (rowBase <= n < rowBase + w && omb[n].decoded == 0) || (0
                            <= n < rowBase && (n % (w as int) < jj || (n % (w as int) == jj && n / (w as int) > ii))),
                    !go ==> forall|n: int|
                        #[trigger] done.contains(n) <==> (rowBase <= n < rowBase + w && omb[n].decoded == 0) || (0
                            <= n < rowBase && n % (w as int) <= jj),
                decreases ii + (if go { 1int } else { 0int }),
            {
                let ghost n0 = ii * w + jj;
                proof {
                    assert(n0 < rowBase) by (nonlinear_arith)
                        requires n0 == ii * w + jj, ii < row, jj < w, rowBase == row * w;
                    lemma_fundamental_div_mod_converse(n0, w as int, ii as int, jj as int);
                }
                conceal_step(&mut mbs, currImage, ii, jj, sliceType, rd, &mut cnt, Ghost(omb), Ghost(oimg), Ghost(done), Ghost(base));
                proof {
                    let d2 = done.insert(n0);
                    if ii == 0 {
                        assert forall|n: int| #[trigger] d2.contains(n) <==> (rowBase <= n < rowBase + w && omb[n].decoded
                            == 0) || (0 <= n < rowBase && n % (w as int) <= jj) by {
                            if 0 <= n < rowBase {
                                lemma_below_row(n, w as int, row as int);
                                if n % (w as int) == jj && n / (w as int) == 0 {
                                    lemma_fundamental_div_mod(n, w as int);
                                    assert(n0 == jj) by (nonlinear_arith)
                                        requires n0 == ii * w + jj, ii == 0;
                                    assert(n == n0) by (nonlinear_arith)
                                        requires n == (w as int) * (n / (w as int)) + n % (w as int), n / (w as int) == 0,
                                            n % (w as int) == jj, n0 == jj;
                                }
                            }
                        }
                    } else {
                        assert forall|n: int| #[trigger] d2.contains(n) <==> (rowBase <= n < rowBase + w && omb[n].decoded
                            == 0) || (0 <= n < rowBase && (n % (w as int) < jj || (n % (w as int) == jj && n / (w as int)
                            > ii - 1))) by {
                            if 0 <= n < rowBase && n % (w as int) == jj && n / (w as int) == ii {
                                lemma_fundamental_div_mod(n, w as int);
                                assert(n == n0) by (nonlinear_arith)
                                    requires n == (w as int) * (n / (w as int)) + n % (w as int), n / (w as int) == ii,
                                        n % (w as int) == jj, n0 == ii * w + jj;
                            }
                        }
                    }
                    done = d2;
                }
                if ii == 0 {
                    go = false;
                } else {
                    ii -= 1;
                }
            }
            jj += 1;
        }
        proof {
            assert forall|n: int| #[trigger] done.contains(n) <==> 0 <= n < rowBase + w && omb[n].decoded == 0 by {
                if 0 <= n < rowBase {
                    lemma_below_row(n, w as int, row as int);
                }
            }
        }
    } else {
        assert forall|n: int| #[trigger] done.contains(n) <==> 0 <= n < rowBase + w && omb[n].decoded == 0 by {}
    }
    /* the rows below, left to right */
    let mut ii: u32 = row + 1;
    proof {
        assert((row + 1) * w == rowBase + w) by (nonlinear_arith)
            requires rowBase == row * w;
    }
    while ii < h
        invariant
            conceal_inv(mbs@, *currImage, omb, oimg, done, cnt as int, base),
            row < ii <= h,
            w == oimg.width,
            h == oimg.height,
            1 <= w,
            w * h <= 0x100_0000,
            rd matches Some(r) ==> r@.len() == oimg.data.len(),
            forall|n: int| #[trigger] done.contains(n) <==> 0 <= n < ii * w && omb[n].decoded == 0,
        decreases h - ii,
    {
        proof {
            assert((ii + 1) * w == ii * w + w) by (nonlinear_arith);
            assert(ii * w + w <= w * h) by (nonlinear_arith)
                requires ii < h;
        }
        let base_i = ii * w;
        let mut jj: u32 = 0;
        while jj < w
            invariant
                conceal_inv(mbs@, *currImage, omb, oimg, done, cnt as int, base),
                jj <= w,
                ii < h,
                base_i == ii * w,
                base_i + w <= w * h,
                w * h <= 0x100_0000,
                w == oimg.width,
                h == oimg.height,
                rd matches Some(r) ==> r@.len() == oimg.data.len(),
                forall|n: int| #[trigger] done.contains(n) <==> 0 <= n < base_i + jj && omb[n].decoded == 0,
            decreases w - jj,
        {
            if mbs[(base_i + jj) as usize].decoded == 0 {
                conceal_step(&mut mbs, currImage, ii, jj, sliceType, rd, &mut cnt, Ghost(omb), Ghost(oimg), Ghost(done), Ghost(base));
                proof {
                    done = done.insert(base_i + jj);
                }
            }
            jj += 1;
        }
        ii += 1;
    }
    proof {
        assert(done =~= lost_set(omb, size as int)) by {
            assert(h * w == size) by (nonlinear_arith)
                requires size == w * h;
        }
    }
    std::mem::swap(&mut mbs, &mut pStorage.mb);
    pStorage.numConcealedMbs = cnt;
    HANTRO_OK
}

/// Compute the slice group map of the active PPS for the active SPS's
/// picture, with slice_group_change_cycle `sliceGroupChangeCycle`
/// (`slice_group_of`).
pub fn h264bsdComputeSliceGroupMap(pStorage: &mut storage_t, sliceGroupChangeCycle: u32)
    requires
        old(pStorage).wf(),
        old(pStorage).has_pps_and_sps(old(pStorage).activePpsId),
        ({
            let o = old(pStorage);
            let pps = o.pps@[o.activePpsId as int]->0;
            let sps = o.sps@[o.activeSpsId as int]->0;
            &&& o.activeSpsId == pps.seqParameterSetId
            &&& o.sliceGroupMap.len() == sps.picWidthInMbs * sps.picHeightInMbs
            &&& 1 <= pps.numSliceGroups <= 8
            &&& pps.sliceGroupMapType <= 6
            &&& pps.sliceGroupChangeDirectionFlag <= 1
            &&& pps_fits(pps.model(), sps.picWidthInMbs, sps.picHeightInMbs)
            &&& pps.numSliceGroups > 1 && 2 < pps.sliceGroupMapType < 6 ==> sliceGroupChangeCycle
                * pps.sliceGroupChangeRate <= u32::MAX
            &&& pps.numSliceGroups > 1 && pps.sliceGroupMapType == 0 ==> run_prefix(
                pps.runLength@,
                pps.numSliceGroups as int,
            ) > 0
        }),
    ensures
        ({
            let o = old(pStorage);
            let pps = o.pps@[o.activePpsId as int]->0;
            let sps = o.sps@[o.activeSpsId as int]->0;
            &&& final(pStorage).sliceGroupMap.len() == o.sliceGroupMap.len()
            &&& forall|i: int|
                0 <= i < sps.picWidthInMbs * sps.picHeightInMbs ==> #[trigger] final(pStorage).sliceGroupMap@[i] as int
                    == slice_group_of(pps.model(), sliceGroupChangeCycle, sps.picWidthInMbs, sps.picHeightInMbs, i)
            &&& *final(pStorage) == (storage_t { sliceGroupMap: final(pStorage).sliceGroupMap, ..*o })
        }),
{
    let ghost o = *old(pStorage);
    let mut map: Vec<u32> = Vec::new();
    std::mem::swap(&mut map, &mut pStorage.sliceGroupMap);
    let aid = pStorage.activeSpsId as usize;
    let pid = pStorage.activePpsId as usize;
    match (&pStorage.pps[pid], &pStorage.sps[aid]) {
        (Some(pps), Some(sps)) => {
            proof {
                assert(sps_storable(pStorage.sps@[aid as int]->0));
                assert(pps_storable(pStorage.pps@[pid as int]->0));
            }
            h264bsdDecodeSliceGroupMap(&mut map, pps, sliceGroupChangeCycle, sps.picWidthInMbs, sps.picHeightInMbs);
        },
        _ => {},
    }
    std::mem::swap(&mut map, &mut pStorage.sliceGroupMap);
}

} // verus!

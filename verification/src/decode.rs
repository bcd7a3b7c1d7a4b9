//! The decoder's top level: one NAL unit of the byte stream per call,
//! dispatched by type to the parameter set, slice and picture logic, with
//! access unit boundaries, concealment of lost pictures, deblocking, picture
//! order count and reference marking of finished pictures.
use vstd::prelude::*;
use crate::defs::{
    nalUnit_t, HANTRO_FALSE, HANTRO_NOK, HANTRO_OK, HANTRO_TRUE, IS_IDR_NAL_UNIT, MAX_NUM_PIC_PARAM_SETS,
    MAX_NUM_SEQ_PARAM_SETS, MEMORY_ALLOCATION_ERROR, NAL_CODED_SLICE, NAL_CODED_SLICE_IDR,
    NAL_PIC_PARAM_SET, NAL_SEQ_PARAM_SET, PARAM_SET_ERROR, P_SLICE,
};
use crate::byte_stream::{extract_nal, h264bsdExtractNalUnit};
use crate::dpb::{
    dpbStorage_t, h264bsdAllocateDpbImage, h264bsdCheckGapsInFrameNum, h264bsdFlushDpb, h264bsdInitRefPicList,
    h264bsdMarkDecRefPic, h264bsdReorderRefPicList,
};
use crate::filter::h264bsdFilterPicture;
use crate::nal::{h264bsdDecodeNalUnit, nal_header_valid};
use crate::poc::h264bsdDecodePicOrderCnt;
use crate::pps::h264bsdDecodePicParamSet;
use crate::slice_data::h264bsdDecodeSliceData;
use crate::slice_group::{pps_fits, CheckPps};
use crate::slice_header::{h264bsdCheckPpsId, h264bsdCheckPriorPicsFlag};
use crate::slice_syntax::h264bsdDecodeSliceHeader;
use crate::sps::h264bsdDecodeSeqParamSet;
use crate::storage::{
    h264bsdActivateParamSets, h264bsdCheckAccessUnitBoundary, h264bsdComputeSliceGroupMap, h264bsdConceal,
    h264bsdIsEndOfPicture, h264bsdIsStartOfPicture, h264bsdMarkSliceCorrupted, h264bsdResetStorage,
    h264bsdStorePicParamSet, h264bsdStoreSeqParamSet,
};
use crate::stream::{can_parse, get_bits_value, lemma_stream_bits_bound, stream_bits, strmData_t, MAX_STRM_BYTES};
use crate::filter::{mb_params_ok, picture_mbs_ok};
use crate::image::image_t;
use crate::inter::inter_nbrs_ok;
use crate::macroblock::mbStorage_t;
use crate::neighbour::mb_neighbours;
use crate::param_sets::{picParamSet_t, seqParamSet_t};
use crate::poc::ops_terminated;
use crate::slice_data::nbrs_ready;
use crate::slice_group::{groups_wf, run_prefix};
use crate::slice_header::{decRefPicMarking_t, refPicListReordering_t, sliceHeader_t};
use crate::slice_syntax::{change_cycle_range, pic_size, sh_params_ok};
use crate::storage::{pps_storable, sps_storable, storage_t};

verus! {

/// Decoding of the NAL unit finished, nothing special.
pub const H264BSD_RDY: u32 = 0;

/// Decoding of a picture finished.
pub const H264BSD_PIC_RDY: u32 = 1;

/// Parameter sets activated; picture dimensions can be read.
pub const H264BSD_HDRS_RDY: u32 = 2;

/// Error in decoding.
pub const H264BSD_ERROR: u32 = 3;

/// Parameter sets could not be activated.
pub const H264BSD_PARAM_SET_ERROR: u32 = 4;

/// Memory could not be allocated.
pub const H264BSD_MEMALLOC_ERROR: u32 = 5;

/// Does every picture of the buffer have `len` bytes?
pub fn pictures_sized(dpb: &dpbStorage_t, len: usize) -> (r: bool)
    ensures
        r == forall|k: int| 0 <= k < dpb.pictures.len() ==> #[trigger] dpb.pictures@[k]@.len() == len,
{
    let mut k: usize = 0;
    while k < dpb.pictures.len()
        invariant
            k <= dpb.pictures.len(),
            forall|j: int| 0 <= j < k ==> #[trigger] dpb.pictures@[j]@.len() == len,
        decreases dpb.pictures.len() - k,
    {
        if dpb.pictures[k].len() != len {
            return false;
        }
        k += 1;
    }
    true
}

/// Is neighbour `n` of macroblock `i` another macroblock among `len`?
fn nbr_ok(n: Option<usize>, i: usize, len: usize) -> (r: bool)
    ensures
        r == (n matches Some(j) ==> j < len && j != i),
{
    match n {
        Some(j) => j < len && j != i,
        None => true,
    }
}

/// Can the macroblocks be decoded in place: valid neighbour addresses,
/// decoding counts below the maximum?
pub fn mbs_ready(mbs: &Vec<mbStorage_t>) -> (r: bool)
    ensures
        r == (nbrs_ready(mbs@) && forall|i: int| 0 <= i < mbs.len() ==> #[trigger] mbs@[i].decoded < u32::MAX),
{
    let n = mbs.len();
    let mut i: usize = 0;
    while i < n
        invariant
            i <= n,
            n == mbs.len(),
            forall|j: int| 0 <= j < i ==> #[trigger] inter_nbrs_ok(mbs@, j) && mbs@[j].decoded < u32::MAX,
        decreases n - i,
    {
        let m = &mbs[i];
        if !(nbr_ok(m.mbA, i, n) && nbr_ok(m.mbB, i, n) && nbr_ok(m.mbC, i, n) && nbr_ok(m.mbD, i, n)
            && m.decoded < u32::MAX) {
            proof {
                assert(!(inter_nbrs_ok(mbs@, i as int) && mbs@[i as int].decoded < u32::MAX));
            }
            return false;
        }
        i += 1;
    }
    proof {
        assert forall|j: int| 0 <= j < mbs.len() implies #[trigger] inter_nbrs_ok(mbs@, j) by {}
        assert forall|j: int| 0 <= j < mbs.len() implies #[trigger] mbs@[j].decoded < u32::MAX by {
            assert(inter_nbrs_ok(mbs@, j));
        }
    }
    true
}

/// The product of two 32-bit numbers.
fn mul64(a: u32, b: u32) -> (r: u64)
    ensures
        r == a * b,
{
    proof {
        assert(a as int * b as int <= 0xFFFF_FFFF * 0xFFFF_FFFF) by (nonlinear_arith)
            requires
                a <= 0xFFFF_FFFF,
                b <= 0xFFFF_FFFF,
        ;
    }
    a as u64 * b as u64
}

/// Are the macroblocks those of a `w` x `h` picture with their left and
/// upper neighbours in place and filter parameters in range?
pub fn mbs_filter_ready(mbs: &Vec<mbStorage_t>, w: u32, h: u32) -> (r: bool)
    requires
        1 <= w <= 4096,
        1 <= h <= 4096,
    ensures
        r == picture_mbs_ok(mbs@, w as int, h as int),
{
    let n = mbs.len();
    if n as u64 != mul64(w, h) {
        return false;
    }
    let mut i: usize = 0;
    while i < n
        invariant
            i <= n,
            n == mbs.len(),
            n == w * h,
            1 <= w <= 4096,
            forall|j: int|
                0 <= j < i ==> (#[trigger] mbs@[j]).mbA == mb_neighbours(j, w as int).0 && mbs@[j].mbB == mb_neighbours(
                    j,
                    w as int,
                ).1 && mb_params_ok(mbs@[j]),
        decreases n - i,
    {
        let m = &mbs[i];
        let wu = w as usize;
        let row = i / wu;
        let col = i % wu;
        proof {
            vstd::arithmetic::div_mod::lemma_fundamental_div_mod(i as int, wu as int);
            assert(row >= 1 ==> wu * row >= wu) by (nonlinear_arith)
                requires
                    wu >= 1,
                    row >= 0,
            ;
        }
        let a = if col != 0 { Some(i - 1) } else { None };
        let b = if row != 0 { Some(i - wu) } else { None };
        let ok = m.mbA == a && m.mbB == b && m.qpY <= 51 && -51 <= m.filterOffsetA && m.filterOffsetA <= 51
            && -51 <= m.filterOffsetB && m.filterOffsetB <= 51 && -51 <= m.chromaQpIndexOffset
            && m.chromaQpIndexOffset <= 51;
        if !ok {
            return false;
        }
        i += 1;
    }
    true
}

/// Have all buffer pictures a frame number of at most 65536?
pub fn frame_nums_ok(dpb: &dpbStorage_t) -> (r: bool)
    ensures
        r == forall|i: int| 0 <= i < dpb.buffer.len() ==> (#[trigger] dpb.buffer@[i]).frameNum <= 65536,
{
    let mut i: usize = 0;
    while i < dpb.buffer.len()
        invariant
            i <= dpb.buffer.len(),
            forall|j: int| 0 <= j < i ==> (#[trigger] dpb.buffer@[j]).frameNum <= 65536,
        decreases dpb.buffer.len() - i,
    {
        if dpb.buffer[i].frameNum > 65536 {
            return false;
        }
        i += 1;
    }
    true
}

/// Are the reordering commands in range (differences at most
/// `maxFrameNum`, long-term numbers at most 65536) and, when reordering
/// is on, ended by a command of 3?
pub fn reordering_ok(order: &refPicListReordering_t, maxFrameNum: u32) -> (r: bool)
    ensures
        r == ((forall|k: int|
            0 <= k < 17 ==> (#[trigger] order.command@[k]).absDiffPicNum <= maxFrameNum
                && order.command@[k].longTermPicNum <= 65536) && (order.refPicListReorderingFlagL0 != 0 ==> exists|k: int|
            0 <= k < 17 && #[trigger] order.command@[k].reorderingOfPicNumsIdc >= 3)),
{
    let mut k: usize = 0;
    let mut ended = false;
    while k < 17
        invariant
            k <= 17,
            forall|j: int|
                0 <= j < k ==> (#[trigger] order.command@[j]).absDiffPicNum <= maxFrameNum
                    && order.command@[j].longTermPicNum <= 65536,
            ended == exists|j: int| 0 <= j < k && #[trigger] order.command@[j].reorderingOfPicNumsIdc >= 3,
        decreases 17 - k,
    {
        let c = &order.command[k];
        if c.absDiffPicNum > maxFrameNum || c.longTermPicNum > 65536 {
            return false;
        }
        if c.reorderingOfPicNumsIdc >= 3 {
            ended = true;
        }
        proof {
            if ended && !(order.command@[k as int].reorderingOfPicNumsIdc >= 3) {
                let j = choose|j: int| 0 <= j < k && #[trigger] order.command@[j].reorderingOfPicNumsIdc >= 3;
                assert(0 <= j < k + 1);
            }
            if !ended {
                assert forall|j: int| 0 <= j < k + 1 implies !(#[trigger] order.command@[j].reorderingOfPicNumsIdc >= 3) by {
                    if j < k {
                        assert(!(0 <= j < k && order.command@[j].reorderingOfPicNumsIdc >= 3));
                    }
                }
            }
        }
        k += 1;
    }
    order.refPicListReorderingFlagL0 == 0 || ended
}

/// Are the marking operations ended by a zero operation, with differences
/// of picture numbers that fit an i32?
pub fn marking_ok(m: &decRefPicMarking_t) -> (r: bool)
    ensures
        r == ((exists|k: int| 0 <= k < 35 && #[trigger] m.operation@[k].memoryManagementControlOperation == 0)
            && forall|k: int| 0 <= k < 35 ==> #[trigger] m.operation@[k].differenceOfPicNums <= i32::MAX),
{
    let mut k: usize = 0;
    let mut ended = false;
    while k < 35
        invariant
            k <= 35,
            forall|j: int| 0 <= j < k ==> #[trigger] m.operation@[j].differenceOfPicNums <= i32::MAX,
            ended == exists|j: int| 0 <= j < k && #[trigger] m.operation@[j].memoryManagementControlOperation == 0,
        decreases 35 - k,
    {
        let o = &m.operation[k];
        if o.differenceOfPicNums > i32::MAX as u32 {
            return false;
        }
        if o.memoryManagementControlOperation == 0 {
            ended = true;
        }
        proof {
            if ended && !(m.operation@[k as int].memoryManagementControlOperation == 0) {
                let j = choose|j: int| 0 <= j < k && #[trigger] m.operation@[j].memoryManagementControlOperation == 0;
                assert(0 <= j < k + 1);
            }
            if !ended {
                assert forall|j: int|
                    0 <= j < k + 1 implies !(#[trigger] m.operation@[j].memoryManagementControlOperation == 0) by {
                    if j < k {
                        assert(!(0 <= j < k && m.operation@[j].memoryManagementControlOperation == 0));
                    }
                }
            }
        }
        k += 1;
    }
    ended
}

/// Are the adaptive marking operations of the slice header ended by an
/// operation 0 or 5?
pub fn marking_terminated(sh: &sliceHeader_t) -> (r: bool)
    ensures
        r == ops_terminated(sh.model()),
{
    if sh.decRefPicMarking.adaptiveRefPicMarkingModeFlag == 0 {
        return true;
    }
    let mut k: usize = 0;
    while k < 35
        invariant
            k <= 35,
            sh.decRefPicMarking.adaptiveRefPicMarkingModeFlag != 0,
            forall|j: int|
                0 <= j < k ==> (#[trigger] sh.decRefPicMarking.operation@[j]).memoryManagementControlOperation != 0
                    && sh.decRefPicMarking.operation@[j].memoryManagementControlOperation != 5,
        decreases 35 - k,
    {
        let op = sh.decRefPicMarking.operation[k].memoryManagementControlOperation;
        if op == 0 || op == 5 {
            proof {
                assert(sh.model().decRefPicMarking.operation[k as int] == sh.decRefPicMarking.operation@[k as int]);
            }
            return true;
        }
        k += 1;
    }
    proof {
        assert forall|j: int|
            0 <= j < 35 implies !((#[trigger] sh.model().decRefPicMarking.operation[j]).memoryManagementControlOperation == 0
            || sh.model().decRefPicMarking.operation[j].memoryManagementControlOperation == 5) by {
            assert(sh.model().decRefPicMarking.operation[j] == sh.decRefPicMarking.operation@[j]);
        }
    }
    false
}

/// Can the SPS be stored?
pub fn sps_storable_check(s: &seqParamSet_t) -> (r: bool)
    ensures
        r == sps_storable(*s),
{
    s.offsetForRefFrame.len() == s.numRefFramesInPicOrderCntCycle as usize && s.seqParameterSetId
        < MAX_NUM_SEQ_PARAM_SETS as u32 && 1 <= s.maxFrameNum && s.maxFrameNum <= 0x7FFF_FFFF && (s.picOrderCntType
        != 0 || (1 <= s.maxPicOrderCntLsb && s.maxPicOrderCntLsb <= 0x7FFF_FFFF)) && s.numRefFrames <= 16
        && s.maxDpbSize <= 16 && 1 <= s.picWidthInMbs && 1 <= s.picHeightInMbs && mul64(
        s.picWidthInMbs,
        s.picHeightInMbs,
    ) <= 0x10_0000
}

/// Can the PPS be stored?
pub fn pps_storable_check(p: &picParamSet_t) -> (r: bool)
    ensures
        r == pps_storable(*p),
{
    let ids = p.picParameterSetId < MAX_NUM_PIC_PARAM_SETS as u32 && p.seqParameterSetId < MAX_NUM_SEQ_PARAM_SETS as u32;
    if !ids {
        return false;
    }
    if p.numSliceGroups <= 1 {
        return true;
    }
    let n = p.numSliceGroups as usize;
    (p.sliceGroupMapType != 0 || p.runLength.len() == n) && (p.sliceGroupMapType != 2 || (p.topLeft.len() >= n - 1
        && p.bottomRight.len() >= n - 1)) && (p.sliceGroupMapType != 6 || p.sliceGroupId.len()
        == p.picSizeInMapUnits as usize)
}

/// Do the SPS and PPS allow a slice header to be parsed?
pub fn sh_ready(sps: &seqParamSet_t, pps: &picParamSet_t) -> (r: bool)
    ensures
        r == sh_params_ok(sps.model(), pps.model()),
{
    let size: u64 = mul64(sps.picWidthInMbs, sps.picHeightInMbs);
    if !(1 <= sps.maxFrameNum && sps.maxFrameNum <= 0x7FFF_FFFF) {
        return false;
    }
    if sps.picOrderCntType == 0 && !(1 <= sps.maxPicOrderCntLsb && sps.maxPicOrderCntLsb <= 0x7FFF_FFFF) {
        return false;
    }
    if size > 0xFFFF_FFFF {
        return false;
    }
    if sps.numRefFrames > 16 {
        return false;
    }
    if pps.numSliceGroups > 1 && 3 <= pps.sliceGroupMapType && pps.sliceGroupMapType <= 5 {
        let rate = pps.sliceGroupChangeRate as u64;
        let range: u64 = if rate == 0 {
            1
        } else if size % rate != 0 {
            2 + size / rate
        } else {
            1 + size / rate
        };
        assert(range == change_cycle_range(pic_size(sps.model()) as u32, pps.model().sliceGroupChangeRate));
        if range >= 0x8000_0000 {
            return false;
        }
        if !(1 <= size + rate && size + rate <= 0xFFFF_FFFF) {
            return false;
        }
    }
    true
}

/// The sum of the first `n` run lengths.
fn run_sum(rl: &Vec<u32>, n: usize) -> (r: u64)
    requires
        n <= rl.len(),
        n <= 8,
    ensures
        r == run_prefix(rl@, n as int),
{
    let mut acc: u64 = 0;
    let mut i: usize = 0;
    while i < n
        invariant
            i <= n,
            n <= rl.len(),
            n <= 8,
            acc == run_prefix(rl@, i as int),
            acc <= i * 0xFFFF_FFFF,
        decreases n - i,
    {
        acc = acc + rl[i] as u64;
        i += 1;
    }
    acc
}

/// A copy of the bytes of `v`.
fn copy_vec(v: &Vec<u8>) -> (r: Vec<u8>)
    ensures
        r@ == v@,
{
    let mut r: Vec<u8> = Vec::new();
    let mut i: usize = 0;
    while i < v.len()
        invariant
            i <= v.len(),
            r@ == v@.take(i as int),
        decreases v.len() - i,
    {
        r.push(v[i]);
        i += 1;
        assert(r@ =~= v@.take(i as int));
    }
    assert(r@ =~= v@);
    r
}

/// A copy of stream `s` read from its start.
fn rewound(s: &strmData_t) -> (r: strmData_t)
    requires
        s.wf(),
    ensures
        r.wf(),
        r.strmBuff@ == s.strmBuff@,
        r.strmBuffSize == s.strmBuffSize,
        r.strmBuffReadBits == 0,
{
    strmData_t { strmBuff: copy_vec(&s.strmBuff), bitPosInWord: 0, strmBuffSize: s.strmBuffSize, strmBuffReadBits: 0 }
}

/// Is the current picture one of the buffer's sizes and shaped for the
/// active picture, with a macroblock state per macroblock?
pub open spec fn picture_ready(st: &storage_t) -> bool {
    &&& st.currImage.wf()
    &&& st.picSizeInMbs == st.currImage.width * st.currImage.height
    &&& st.mb.len() == st.picSizeInMbs
    &&& forall|k: int| 0 <= k < st.dpb.pictures.len() ==> #[trigger] st.dpb.pictures@[k]@.len() == st.currImage.data.len()
}

/// Test `picture_ready`.
fn picture_ready_check(st: &storage_t) -> (r: bool)
    ensures
        r == picture_ready(st),
{
    let img = &st.currImage;
    if !(1 <= img.width && img.width <= 4096 && 1 <= img.height && img.height <= 4096) {
        return false;
    }
    let wh = mul64(img.width, img.height);
    proof {
        assert(img.width * img.height <= 4096 * 4096) by (nonlinear_arith)
            requires
                img.width <= 4096,
                img.height <= 4096,
        ;
    }
    proof {
        assert(384 * (img.width * img.height) == 384 * img.width * img.height) by (nonlinear_arith);
    }
    if img.data.len() as u64 != 384 * wh || st.picSizeInMbs as u64 != wh || st.mb.len() as u64 != wh {
        return false;
    }
    pictures_sized(&st.dpb, img.data.len())
}

/// Conceal the current picture as decoded by slices of type `sliceType`
/// (`h264bsdConceal`); H264BSD_ERROR when the picture is not ready for it.
fn conceal_current(pStorage: &mut storage_t, sliceType: u32) -> (r: u32)
    requires
        old(pStorage).wf(),
    ensures
        final(pStorage).wf(),
        final(pStorage).strm == old(pStorage).strm,
        r == HANTRO_OK || r == H264BSD_ERROR,
{
    if !picture_ready_check(pStorage) || !dpb_ready(&pStorage.dpb) || pStorage.numConcealedMbs as u64
        + pStorage.picSizeInMbs as u64 > 0xFFFF_FFFF {
        return H264BSD_ERROR;
    }
    let mut img = image_t { data: Vec::new(), width: 0, height: 0, luma: 0, cb: 0, cr: 0 };
    std::mem::swap(&mut img, &mut pStorage.currImage);
    let _ = h264bsdConceal(pStorage, &mut img, sliceType);
    std::mem::swap(&mut img, &mut pStorage.currImage);
    HANTRO_OK
}

/// Allocate a picture of the buffer for a new picture of the active
/// SPS's size and start the current picture from its memory.
fn start_picture(pStorage: &mut storage_t) -> (r: u32)
    requires
        old(pStorage).wf(),
    ensures
        final(pStorage).wf(),
        final(pStorage).strm == old(pStorage).strm,
        r == HANTRO_OK || r == H264BSD_ERROR,
{
    if !dpb_ready(&pStorage.dpb) {
        return H264BSD_ERROR;
    }
    let idx = h264bsdAllocateDpbImage(&mut pStorage.dpb);
    pStorage.currPic = idx;
    let data = copy_vec(&pStorage.dpb.pictures[idx]);
    pStorage.currImage = image_t {
        data,
        width: pStorage.picWidthInMbs,
        height: pStorage.picHeightInMbs,
        luma: 0,
        cb: 0,
        cr: 0,
    };
    HANTRO_OK
}

/// Test `dpb.wf()`.
pub fn dpb_ready(dpb: &dpbStorage_t) -> (r: bool)
    ensures
        r == dpb.wf(),
{
    if !(dpb.buffer.len() == 17 && dpb.list.len() == 17 && 1 <= dpb.maxRefFrames && dpb.maxRefFrames <= 16
        && dpb.dpbSize <= 16 && dpb.numRefFrames <= dpb.maxRefFrames && dpb.outBuf.len() == dpb.dpbSize as usize + 1
        && dpb.numOut <= dpb.dpbSize + 1 && dpb.currentOut < dpb.buffer.len()) {
        return false;
    }
    let mut i: usize = 0;
    while i < 17
        invariant
            i <= 17,
            dpb.list.len() == 17,
            dpb.buffer.len() == 17,
            forall|j: int| 0 <= j < i ==> (#[trigger] dpb.list@[j] matches Some(s) ==> s < dpb.buffer.len()),
            forall|j: int| 0 <= j < i ==> (#[trigger] dpb.buffer@[j]).data < dpb.pictures.len(),
        decreases 17 - i,
    {
        let ok = match dpb.list[i] {
            Some(s) => s < dpb.buffer.len(),
            None => true,
        };
        if !ok || dpb.buffer[i].data >= dpb.pictures.len() {
            return false;
        }
        i += 1;
    }
    true
}

/// Decode the slice data of the current slice `sh` from `strm` into the
/// current picture, when the storage is ready for it
/// (`h264bsdDecodeSliceData`); H264BSD_ERROR when it is not.
fn decode_slice_data_checked(pStorage: &mut storage_t, strm: &mut strmData_t, sh: &sliceHeader_t) -> (r: u32)
    requires
        old(pStorage).wf(),
        old(strm).wf(),
    ensures
        final(pStorage).wf(),
        final(pStorage).strm == old(pStorage).strm,
{
    let ppsId = pStorage.activePpsId as usize;
    if ppsId >= MAX_NUM_PIC_PARAM_SETS || pStorage.slice.sliceId == u32::MAX {
        return H264BSD_ERROR;
    }
    let (qp0, cqo) = match &pStorage.pps[ppsId] {
        Some(p) => (p.picInitQp as i64 + sh.sliceQpDelta as i64, p.chromaQpIndexOffset),
        None => {
            return H264BSD_ERROR;
        },
    };
    let size = pStorage.picSizeInMbs;
    if !(strm.strmBuffSize <= 0x1000_0000 && strm.strmBuffReadBits as u64 <= 8 * strm.strmBuffSize as u64 && 0 <= qp0
        && qp0 <= 51 && -12 <= cqo && cqo <= 12 && (sh.firstMbInSlice as u64) < size as u64
        && pStorage.sliceGroupMap.len() >= size as usize) {
        return H264BSD_ERROR;
    }
    if !picture_ready_check(pStorage) || !mbs_ready(&pStorage.mb) || !dpb_ready(&pStorage.dpb) {
        return H264BSD_ERROR;
    }
    let mut img = image_t { data: Vec::new(), width: 0, height: 0, luma: 0, cb: 0, cr: 0 };
    std::mem::swap(&mut img, &mut pStorage.currImage);
    let r = h264bsdDecodeSliceData(strm, pStorage, &mut img, sh);
    std::mem::swap(&mut img, &mut pStorage.currImage);
    r
}

/// Can the slice group map of the active PPS be computed with change
/// cycle `cycle` (`h264bsdComputeSliceGroupMap`)?
fn sgmap_ready(st: &storage_t, cycle: u32) -> (r: bool)
    requires
        st.wf(),
    ensures
        r ==> ({
            let pps = st.pps@[st.activePpsId as int]->0;
            let sps = st.sps@[st.activeSpsId as int]->0;
            &&& st.has_pps_and_sps(st.activePpsId)
            &&& st.activeSpsId == pps.seqParameterSetId
            &&& st.sliceGroupMap.len() == sps.picWidthInMbs * sps.picHeightInMbs
            &&& 1 <= pps.numSliceGroups <= 8
            &&& pps.sliceGroupMapType <= 6
            &&& pps.sliceGroupChangeDirectionFlag <= 1
            &&& pps_fits(pps.model(), sps.picWidthInMbs, sps.picHeightInMbs)
            &&& pps.numSliceGroups > 1 && 2 < pps.sliceGroupMapType < 6 ==> cycle * pps.sliceGroupChangeRate <= u32::MAX
            &&& pps.numSliceGroups > 1 && pps.sliceGroupMapType == 0 ==> run_prefix(
                pps.runLength@,
                pps.numSliceGroups as int,
            ) > 0
        }),
{
    let pid = st.activePpsId as usize;
    if pid >= MAX_NUM_PIC_PARAM_SETS {
        return false;
    }
    match &st.pps[pid] {
        None => false,
        Some(pps) => {
            let sid = pps.seqParameterSetId as usize;
            if sid >= MAX_NUM_SEQ_PARAM_SETS || st.activeSpsId as usize != sid {
                return false;
            }
            match &st.sps[sid] {
                None => false,
                Some(sps) => {
                    proof {
                        assert(pps_storable(st.pps@[pid as int]->0));
                        assert(sps_storable(st.sps@[sid as int]->0));
                    }
                    let size = mul64(sps.picWidthInMbs, sps.picHeightInMbs);
                    if st.sliceGroupMap.len() as u64 != size || !(1 <= pps.numSliceGroups && pps.numSliceGroups <= 8)
                        || pps.sliceGroupMapType > 6 || pps.sliceGroupChangeDirectionFlag > 1 {
                        return false;
                    }
                    if CheckPps(pps, sps) != HANTRO_OK {
                        return false;
                    }
                    if pps.numSliceGroups > 1 && 2 < pps.sliceGroupMapType && pps.sliceGroupMapType < 6 && mul64(
                        cycle,
                        pps.sliceGroupChangeRate,
                    ) > 0xFFFF_FFFF {
                        return false;
                    }
                    if pps.numSliceGroups > 1 && pps.sliceGroupMapType == 0 && run_sum(
                        &pps.runLength,
                        pps.numSliceGroups as usize,
                    ) == 0 {
                        return false;
                    }
                    true
                },
            }
        },
    }
}

/// Deblock the current picture (`h264bsdFilterPicture`); false when the
/// storage is not ready for it.
fn deblock_current(pStorage: &mut storage_t) -> (r: bool)
    requires
        old(pStorage).wf(),
    ensures
        final(pStorage).wf(),
        final(pStorage).strm == old(pStorage).strm,
{
    if !picture_ready_check(pStorage) {
        return false;
    }
    let w = pStorage.currImage.width;
    let h = pStorage.currImage.height;
    if !mbs_filter_ready(&pStorage.mb, w, h) {
        return false;
    }
    let mut img = image_t { data: Vec::new(), width: 0, height: 0, luma: 0, cb: 0, cr: 0 };
    std::mem::swap(&mut img, &mut pStorage.currImage);
    h264bsdFilterPicture(&mut img, pStorage.mb.as_slice());
    std::mem::swap(&mut img, &mut pStorage.currImage);
    true
}

/// Store the current picture in its buffer picture and mark it with
/// picture order count `picOrderCnt` (`h264bsdMarkDecRefPic`); false when
/// the storage is not ready for it.
fn store_current(pStorage: &mut storage_t, picOrderCnt: i32) -> (r: bool)
    requires
        old(pStorage).wf(),
    ensures
        final(pStorage).wf(),
        final(pStorage).strm == old(pStorage).strm,
        final(pStorage).picStarted == old(pStorage).picStarted,
{
    let idx = pStorage.currPic;
    let frameNum = pStorage.sliceHeader.frameNum;
    if idx >= pStorage.dpb.pictures.len() || frameNum > i32::MAX as u32 || !dpb_ready(&pStorage.dpb) {
        return false;
    }
    let data = copy_vec(&pStorage.currImage.data);
    pStorage.dpb.pictures.set(idx, data);
    if !dpb_ready(&pStorage.dpb) {
        return false;
    }
    let isIdr = if IS_IDR_NAL_UNIT(&pStorage.prevNalUnit) {
        HANTRO_TRUE
    } else {
        HANTRO_FALSE
    };
    let picId = pStorage.currentPicId;
    let errMbs = pStorage.numConcealedMbs;
    if pStorage.prevNalUnit.nalRefIdc != 0 {
        let mk = &pStorage.sliceHeader.decRefPicMarking;
        if !marking_ok(mk) {
            return false;
        }
        let _ = h264bsdMarkDecRefPic(
            &mut pStorage.dpb,
            Some(mk),
            idx,
            frameNum,
            picOrderCnt,
            isIdr,
            picId,
            errMbs,
        );
    } else {
        let _ = h264bsdMarkDecRefPic(&mut pStorage.dpb, None, idx, frameNum, picOrderCnt, isIdr, picId, errMbs);
    }
    true
}

/// Finish the current picture: deblock it, reset the slice state, compute
/// its picture order count and, when a slice of it was decoded, store it
/// with its reference marking. H264BSD_ERROR when the storage is not
/// ready for these steps.
fn finish_picture(pStorage: &mut storage_t) -> (r: u32)
    requires
        old(pStorage).wf(),
    ensures
        final(pStorage).wf(),
        final(pStorage).strm == old(pStorage).strm,
        r == H264BSD_PIC_RDY || r == H264BSD_ERROR,
        r == H264BSD_PIC_RDY ==> final(pStorage).picStarted == HANTRO_FALSE
            && final(pStorage).validSliceInAccessUnit == HANTRO_FALSE,
{
    if !deblock_current(pStorage) {
        return H264BSD_ERROR;
    }
    if pStorage.mb.len() < pStorage.picSizeInMbs as usize {
        return H264BSD_ERROR;
    }
    h264bsdResetStorage(pStorage);
    let sid = pStorage.activeSpsId as usize;
    if sid >= MAX_NUM_SEQ_PARAM_SETS || !marking_terminated(&pStorage.sliceHeader) {
        return H264BSD_ERROR;
    }
    let mut poc = pStorage.poc;
    let picOrderCnt = match &pStorage.sps[sid] {
        Some(sps) => {
            proof {
                assert(sps_storable(pStorage.sps@[sid as int]->0));
            }
            h264bsdDecodePicOrderCnt(&mut poc, sps, &pStorage.sliceHeader, &pStorage.prevNalUnit)
        },
        None => {
            return H264BSD_ERROR;
        },
    };
    pStorage.poc = poc;
    if pStorage.validSliceInAccessUnit != 0 {
        if !store_current(pStorage, picOrderCnt) {
            return H264BSD_ERROR;
        }
    }
    pStorage.picStarted = HANTRO_FALSE;
    pStorage.validSliceInAccessUnit = HANTRO_FALSE;
    H264BSD_PIC_RDY
}

/// A coded slice NAL unit (`nalUnit`, its header read from `strm`):
/// (whether the call ends here, its result, whether a picture was
/// finished).
#[verifier::rlimit(100)]
#[verifier::spinoff_prover]
fn decode_slice_nal(
    pStorage: &mut storage_t,
    strm: &mut strmData_t,
    nalUnit: &nalUnit_t,
    picId: u32,
    readBytes: &mut u32,
) -> (res: (bool, u32, bool))
    requires
        old(pStorage).wf(),
        can_parse(old(strm)),
    ensures
        final(pStorage).wf(),
        final(pStorage).strm == old(pStorage).strm,
        res.0 ==> res.1 <= H264BSD_PARAM_SET_ERROR && res.1 != H264BSD_PIC_RDY,
        res.0 && res.1 == H264BSD_HDRS_RDY ==> *final(readBytes) == 0 && final(pStorage).prevBufNotFinished == HANTRO_TRUE
            && final(pStorage).has_pps_and_sps(final(pStorage).activePpsId),
{
    if pStorage.skipRedundantSlices != 0 {
        return (true, H264BSD_RDY, false);
    }
    pStorage.picStarted = HANTRO_TRUE;
    let isIdr = IS_IDR_NAL_UNIT(nalUnit);
    if h264bsdIsStartOfPicture(pStorage) != 0 {
        pStorage.numConcealedMbs = 0;
        pStorage.currentPicId = picId;
        let mut ppsId: u32 = 0;
        let _ = h264bsdCheckPpsId(strm, &mut ppsId);
        let spsId = pStorage.activeSpsId;
        if pStorage.activePpsId as usize != MAX_NUM_PIC_PARAM_SETS && pStorage.pendingActivation != 0 && !((spsId as usize)
            < MAX_NUM_SEQ_PARAM_SETS && pStorage.sps[spsId as usize].is_some()) {
            return (true, H264BSD_ERROR, false);
        }
        let tmp = h264bsdActivateParamSets(
            pStorage,
            ppsId,
            if isIdr {
                HANTRO_TRUE
            } else {
                HANTRO_FALSE
            },
        );
        if tmp != HANTRO_OK {
            pStorage.activePpsId = MAX_NUM_PIC_PARAM_SETS as u32;
            pStorage.activeSpsId = MAX_NUM_SEQ_PARAM_SETS as u32;
            pStorage.pendingActivation = HANTRO_FALSE;
            return (true, H264BSD_PARAM_SET_ERROR, false);
        }
        if spsId != pStorage.activeSpsId {
            *readBytes = 0;
            pStorage.prevBufNotFinished = HANTRO_TRUE;
            let newId = pStorage.activeSpsId as usize;
            let pid = pStorage.activePpsId as usize;
            let oldId = pStorage.oldSpsId as usize;
            let mut flush = false;
            if newId < MAX_NUM_SEQ_PARAM_SETS && pid < MAX_NUM_PIC_PARAM_SETS && oldId < MAX_NUM_SEQ_PARAM_SETS {
                match (&pStorage.sps[newId], &pStorage.pps[pid], &pStorage.sps[oldId]) {
                    (Some(ns), Some(ap), Some(os)) => {
                        proof {
                            assert(sps_storable(pStorage.sps@[newId as int]->0));
                        }
                        let mut flag: u32 = 1;
                        let t = if nalUnit.nalUnitType == NAL_CODED_SLICE_IDR {
                            h264bsdCheckPriorPicsFlag(&mut flag, strm, ns, ap, nalUnit.nalUnitType)
                        } else {
                            HANTRO_NOK
                        };
                        flush = t == HANTRO_OK && flag == 0 && pStorage.dpb.noReordering == 0 && os.picWidthInMbs
                            == ns.picWidthInMbs && os.picHeightInMbs == ns.picHeightInMbs && os.maxDpbSize
                            == ns.maxDpbSize;
                    },
                    _ => {},
                }
            }
            if flush && dpb_ready(&pStorage.dpb) {
                h264bsdFlushDpb(&mut pStorage.dpb);
            } else {
                pStorage.dpb.flushed = 0;
            }
            pStorage.oldSpsId = pStorage.activeSpsId;
            return (true, H264BSD_HDRS_RDY, false);
        }
    }
    if pStorage.pendingActivation != 0 {
        return (true, H264BSD_ERROR, false);
    }
    let sid = pStorage.activeSpsId as usize;
    let pid = pStorage.activePpsId as usize;
    if sid >= MAX_NUM_SEQ_PARAM_SETS || pid >= MAX_NUM_PIC_PARAM_SETS {
        return (true, H264BSD_ERROR, false);
    }
    let mut sh = sliceHeader_t::zeroed();
    let mut gaps: u32 = 0;
    let tmp = match (&pStorage.sps[sid], &pStorage.pps[pid]) {
        (Some(sps), Some(pps)) => {
            gaps = sps.gapsInFrameNumValueAllowedFlag;
            if !sh_ready(sps, pps) {
                return (true, H264BSD_ERROR, false);
            }
            h264bsdDecodeSliceHeader(strm, &mut sh, sps, pps, nalUnit)
        },
        _ => {
            return (true, H264BSD_ERROR, false);
        },
    };
    if tmp != HANTRO_OK {
        return (true, H264BSD_ERROR, false);
    }
    if h264bsdIsStartOfPicture(pStorage) != 0 {
        if !dpb_ready(&pStorage.dpb) {
            return (true, H264BSD_ERROR, false);
        }
        if !isIdr {
            let frameNum = sh.frameNum;
            if !(frameNum < pStorage.dpb.maxFrameNum && pStorage.dpb.maxFrameNum <= 65536 && pStorage.dpb.prevRefFrameNum
                < pStorage.dpb.maxFrameNum && frame_nums_ok(&pStorage.dpb)) {
                return (true, H264BSD_ERROR, false);
            }
            let t = h264bsdCheckGapsInFrameNum(
                &mut pStorage.dpb,
                frameNum,
                if nalUnit.nalRefIdc != 0 {
                    HANTRO_TRUE
                } else {
                    HANTRO_FALSE
                },
                gaps,
            );
            if t != HANTRO_OK {
                return (true, H264BSD_ERROR, false);
            }
        }
        let _ = start_picture(pStorage);
    }
    pStorage.validSliceInAccessUnit = HANTRO_TRUE;
    pStorage.prevNalUnit = *nalUnit;
    let cycle = sh.sliceGroupChangeCycle;
    if !sgmap_ready(pStorage, cycle) {
        return (true, H264BSD_ERROR, false);
    }
    h264bsdComputeSliceGroupMap(pStorage, cycle);
    if !dpb_ready(&pStorage.dpb) {
        return (true, H264BSD_ERROR, false);
    }
    h264bsdInitRefPicList(&mut pStorage.dpb);
    if !(sh.frameNum < pStorage.dpb.maxFrameNum && pStorage.dpb.maxFrameNum <= 65536 && sh.numRefIdxL0Active <= 16
        && frame_nums_ok(&pStorage.dpb) && reordering_ok(&sh.refPicListReordering, pStorage.dpb.maxFrameNum)) {
        return (true, H264BSD_ERROR, false);
    }
    let t = h264bsdReorderRefPicList(&mut pStorage.dpb, &sh.refPicListReordering, sh.frameNum, sh.numRefIdxL0Active);
    if t != HANTRO_OK {
        return (true, H264BSD_ERROR, false);
    }
    let d = decode_slice_data_checked(pStorage, strm, &sh);
    let first = sh.firstMbInSlice;
    pStorage.sliceHeader = sh;
    let size = pStorage.picSizeInMbs;
    if pStorage.mb.len() < size as usize {
        return (true, H264BSD_ERROR, false);
    }
    if d != HANTRO_OK {
        if first < size && pStorage.slice.lastMbAddr <= size && pStorage.sliceGroupMap.len() >= size as usize {
            h264bsdMarkSliceCorrupted(pStorage, first);
        }
        return (true, H264BSD_ERROR, false);
    }
    if h264bsdIsEndOfPicture(pStorage) != 0 {
        pStorage.skipRedundantSlices = HANTRO_TRUE;
        return (false, H264BSD_RDY, true);
    }
    (false, H264BSD_RDY, false)
}

/// The NAL unit a call decodes, as its bytes and size: the one kept from
/// the previous call when that did not finish it and the buffer is the
/// same, else the one extracted from the byte stream (none when
/// extraction fails).
pub open spec fn nal_source(st: &storage_t, b: Seq<u8>, len: u32, same: bool) -> Option<(Seq<u8>, nat)> {
    if st.prevBufNotFinished != 0 && same {
        Some((st.strm.strmBuff@, st.strm.strmBuffSize as nat))
    } else {
        match extract_nal(b, len as nat).1 {
            Some(v) => Some((v, v.len())),
            None => None,
        }
    }
}

/// The type of the NAL unit of bytes `d` and size `sz` when its header is
/// valid.
pub open spec fn nal_type_of(d: Seq<u8>, sz: nat) -> Option<u32> {
    let t = stream_bits(d, sz, 3, 5) as u32;
    let refIdc = stream_bits(d, sz, 1, 2) as u32;
    if sz >= 1 && nal_header_valid(t, refIdc) {
        Some(t)
    } else {
        None
    }
}

/// Is the NAL unit of bytes `d` and size `sz` one that the decoder skips:
/// unspecified (type 0) or reserved or extension data (type 13 and
/// above)?
pub open spec fn nal_discarded(d: Seq<u8>, sz: nat) -> bool {
    nal_type_of(d, sz) matches Some(t) && (t == 0 || t >= 13)
}

/// Decode one NAL unit of the byte stream `byteStrm` (its first `len`
/// bytes), or again the last one when the previous call did not finish it
/// and `sameBuffer` says the buffer is the same; `readBytes` receives the
/// bytes consumed (0 when the NAL unit must be given again). Returns
/// H264BSD_RDY, H264BSD_PIC_RDY when a picture was finished,
/// H264BSD_HDRS_RDY when new parameter sets were activated,
/// H264BSD_ERROR, or H264BSD_PARAM_SET_ERROR when the sets could not be
/// activated. Reserved and unspecified NAL unit types are skipped.
#[verifier::rlimit(100)]
#[verifier::spinoff_prover]
pub fn h264bsdDecode(
    pStorage: &mut storage_t,
    byteStrm: &[u8],
    len: u32,
    picId: u32,
    sameBuffer: bool,
    readBytes: &mut u32,
) -> (r: u32)
    requires
        old(pStorage).wf(),
        old(pStorage).strm.wf(),
        len <= byteStrm@.len(),
        len <= MAX_STRM_BYTES,
    ensures
        final(pStorage).wf(),
        final(pStorage).strm.wf(),
        r <= H264BSD_PARAM_SET_ERROR,
        r == H264BSD_HDRS_RDY ==> *final(readBytes) == 0 && final(pStorage).prevBufNotFinished == HANTRO_TRUE,
        r == H264BSD_PIC_RDY ==> final(pStorage).picStarted == HANTRO_FALSE
            && final(pStorage).validSliceInAccessUnit == HANTRO_FALSE,
        r == H264BSD_HDRS_RDY ==> final(pStorage).has_pps_and_sps(final(pStorage).activePpsId),
        ({
            let src = nal_source(old(pStorage), byteStrm@, len, sameBuffer);
            &&& src is None ==> r == H264BSD_ERROR
            &&& src matches Some(x) ==> {
                &&& nal_type_of(x.0, x.1) is None ==> r == H264BSD_ERROR
                &&& nal_discarded(x.0, x.1) ==> r == H264BSD_RDY
                &&& nal_discarded(x.0, x.1) ==> *final(pStorage) == (storage_t {
                    prevBufNotFinished: HANTRO_FALSE,
                    strm: final(pStorage).strm,
                    prevBytesConsumed: final(pStorage).prevBytesConsumed,
                    ..*old(pStorage)
                })
            }
        }),
{
    let mut strm: strmData_t;
    if pStorage.prevBufNotFinished != 0 && sameBuffer {
        strm = rewound(&pStorage.strm);
        *readBytes = pStorage.prevBytesConsumed;
    } else {
        strm = strmData_t::new(Vec::new(), 0);
        let tmp = h264bsdExtractNalUnit(byteStrm, len, &mut strm, readBytes);
        if tmp != HANTRO_OK {
            return H264BSD_ERROR;
        }
        pStorage.strm = rewound(&strm);
        pStorage.prevBytesConsumed = *readBytes;
    }
    pStorage.prevBufNotFinished = HANTRO_FALSE;
    let mut nalUnit = nalUnit_t { nalUnitType: 0, nalRefIdc: 0 };
    let ghost s0 = strm;
    proof {
        let src = nal_source(old(pStorage), byteStrm@, len, sameBuffer);
        assert(src matches Some(x) && x.0 == s0.strmBuff@ && x.1 == s0.strmBuffSize);
        assert(s0.pos() == 0);
    }
    if h264bsdDecodeNalUnit(&mut strm, &mut nalUnit) != HANTRO_OK {
        proof {
            if s0.strmBuffSize >= 1 {
                lemma_stream_bits_bound(s0.strmBuff@, s0.strmBuffSize as nat, 0, 1);
                vstd::arithmetic::power2::lemma2_to64();
                assert(get_bits_value(&s0, 0, 1) != crate::defs::END_OF_STREAM);
                assert(get_bits_value(&s0, 3, 5) == stream_bits(s0.strmBuff@, s0.strmBuffSize as nat, 3, 5) as u32);
                assert(get_bits_value(&s0, 1, 2) == stream_bits(s0.strmBuff@, s0.strmBuffSize as nat, 1, 2) as u32);
            }
        }
        return H264BSD_ERROR;
    }
    proof {
        assert(get_bits_value(&s0, 3, 5) == stream_bits(s0.strmBuff@, s0.strmBuffSize as nat, 3, 5) as u32);
        assert(get_bits_value(&s0, 1, 2) == stream_bits(s0.strmBuff@, s0.strmBuffSize as nat, 1, 2) as u32);
    }
    if nalUnit.nalUnitType == 0 || nalUnit.nalUnitType >= 13 {
        return H264BSD_RDY;
    }
    let mut aubFlag: u32 = HANTRO_FALSE;
    let tmp = h264bsdCheckAccessUnitBoundary(&mut strm, &nalUnit, pStorage, &mut aubFlag);
    if tmp != HANTRO_OK {
        if tmp == PARAM_SET_ERROR {
            return H264BSD_PARAM_SET_ERROR;
        } else {
            return H264BSD_ERROR;
        }
    }
    let mut picReady = false;
    if aubFlag != 0 {
        if pStorage.picStarted != 0 && (pStorage.activeSpsId as usize) < MAX_NUM_SEQ_PARAM_SETS
            && pStorage.sps[pStorage.activeSpsId as usize].is_some() {
            if pStorage.pendingActivation != 0 {
                return H264BSD_ERROR;
            }
            let c = if pStorage.validSliceInAccessUnit == 0 {
                let s0 = start_picture(pStorage);
                if s0 != HANTRO_OK {
                    return H264BSD_ERROR;
                }
                if !dpb_ready(&pStorage.dpb) {
                    return H264BSD_ERROR;
                }
                h264bsdInitRefPicList(&mut pStorage.dpb);
                conceal_current(pStorage, P_SLICE)
            } else {
                let t = pStorage.sliceHeader.sliceType;
                conceal_current(pStorage, t)
            };
            if c != HANTRO_OK {
                return H264BSD_ERROR;
            }
            picReady = true;
            *readBytes = 0;
            pStorage.prevBufNotFinished = HANTRO_TRUE;
        } else {
            pStorage.validSliceInAccessUnit = HANTRO_FALSE;
        }
        pStorage.skipRedundantSlices = HANTRO_FALSE;
    }
    if !picReady {
        if nalUnit.nalUnitType == NAL_SEQ_PARAM_SET {
            let mut sps = seqParamSet_t::zeroed();
            if h264bsdDecodeSeqParamSet(&mut strm, &mut sps) != HANTRO_OK {
                return H264BSD_ERROR;
            }
            if !sps_storable_check(&sps) {
                return H264BSD_ERROR;
            }
            let _ = h264bsdStoreSeqParamSet(pStorage, sps);
        } else if nalUnit.nalUnitType == NAL_PIC_PARAM_SET {
            let mut pps = picParamSet_t::zeroed();
            if h264bsdDecodePicParamSet(&mut strm, &mut pps) != HANTRO_OK {
                return H264BSD_ERROR;
            }
            if !pps_storable_check(&pps) {
                return H264BSD_ERROR;
            }
            let _ = h264bsdStorePicParamSet(pStorage, pps);
        } else if nalUnit.nalUnitType == NAL_CODED_SLICE_IDR || nalUnit.nalUnitType == NAL_CODED_SLICE {
            let (done, code, ready) = decode_slice_nal(pStorage, &mut strm, &nalUnit, picId, readBytes);
            if done {
                return code;
            }
            picReady = ready;
        }
    }
    if picReady {
        finish_picture(pStorage)
    } else {
        H264BSD_RDY
    }
}

} // verus!

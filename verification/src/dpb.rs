//! Decoded picture buffer: reference picture marking, the reference
//! picture list and display reordering.
//!
//! The sample memory of the pictures is `pictures`; a picture's `data` is
//! the index of its memory there, and stays with the picture when the
//! buffer is sorted.
use vstd::prelude::*;
use crate::defs::{HANTRO_FALSE, HANTRO_NOK, HANTRO_OK, HANTRO_TRUE};
use crate::slice_header::{
    decRefPicMarking_t, memoryManagementOperation_t, refPicListReorderingOperation_t, refPicListReordering_t,
};
use crate::util::urem;

verus! {

/// Status of a picture in the buffer.
pub type dpbPictureStatus_e = u32;

pub const UNUSED: u32 = 0;
pub const NON_EXISTING: u32 = 1;
pub const SHORT_TERM: u32 = 2;
pub const LONG_TERM: u32 = 3;

/// maxLongTermFrameIdx value meaning "no long-term frame indices".
pub const NO_LONG_TERM_FRAME_INDICES: u32 = 0xFFFF;

/// Largest number of active reference indices; the buffer and the list
/// have one entry more.
pub const MAX_NUM_REF_IDX_L0_ACTIVE: u32 = 16;

/// A picture of the buffer.
#[derive(Clone, Copy)]
pub struct dpbPicture_t {
    pub data: usize,
    pub picNum: i32,
    pub frameNum: u32,
    pub picOrderCnt: i32,
    pub status: dpbPictureStatus_e,
    pub toBeDisplayed: u32,
    pub picId: u32,
    pub numErrMbs: u32,
    pub isIdr: u32,
}

/// A picture handed out for display.
#[derive(Clone, Copy)]
pub struct dpbOutPicture_t {
    pub data: usize,
    pub picId: u32,
    pub numErrMbs: u32,
    pub isIdr: u32,
}

/// The decoded picture buffer. `list` holds the positions in `buffer` of
/// the reference picture list; `currentOut` is the position of the
/// picture being decoded; `outBuf[..numOut]` are the pictures put out
/// for display, of which `outIndex` have been handed on.
pub struct dpbStorage_t {
    pub buffer: Vec<dpbPicture_t>,
    pub list: Vec<Option<usize>>,
    pub currentOut: usize,
    pub outBuf: Vec<dpbOutPicture_t>,
    pub numOut: u32,
    pub outIndex: u32,
    pub maxRefFrames: u32,
    pub dpbSize: u32,
    pub maxFrameNum: u32,
    pub maxLongTermFrameIdx: u32,
    pub numRefFrames: u32,
    pub fullness: u32,
    pub prevRefFrameNum: u32,
    pub lastContainsMmco5: u32,
    pub noReordering: u32,
    pub flushed: u32,
    pub pictures: Vec<Vec<u8>>,
}

/// The picture is used for reference (short term, long term or
/// non-existing).
pub open spec fn is_reference(p: dpbPicture_t) -> bool {
    p.status != UNUSED
}

/// The picture exists (was decoded): used for reference and not a
/// non-existing frame.
pub open spec fn is_existing(p: dpbPicture_t) -> bool {
    p.status > NON_EXISTING
}

/// Short-term reference picture; non-existing frames count as short term.
pub open spec fn is_short_term(p: dpbPicture_t) -> bool {
    p.status == NON_EXISTING || p.status == SHORT_TERM
}

/// Long-term reference picture.
pub open spec fn is_long_term(p: dpbPicture_t) -> bool {
    p.status == LONG_TERM
}

/// The picture marked unused for reference.
pub open spec fn unused(p: dpbPicture_t) -> dpbPicture_t {
    dpbPicture_t { status: UNUSED, ..p }
}

fn IS_REFERENCE(a: &dpbPicture_t) -> (r: bool)
    ensures
        r == is_reference(*a),
{
    a.status != UNUSED
}

fn IS_EXISTING(a: &dpbPicture_t) -> (r: bool)
    ensures
        r == is_existing(*a),
{
    a.status > NON_EXISTING
}

fn IS_SHORT_TERM(a: &dpbPicture_t) -> (r: bool)
    ensures
        r == is_short_term(*a),
{
    a.status == NON_EXISTING || a.status == SHORT_TERM
}

fn IS_LONG_TERM(a: &dpbPicture_t) -> (r: bool)
    ensures
        r == is_long_term(*a),
{
    a.status == LONG_TERM
}

fn SET_UNUSED(a: &mut dpbPicture_t)
    ensures
        *final(a) == unused(*old(a)),
{
    a.status = UNUSED;
}

impl dpbStorage_t {
    /// The buffer and the list have their 17 entries, the list points
    /// into the buffer, every picture's memory is one of `pictures`, and
    /// the sizes are within the 16 reference frames of the standard.
    pub open spec fn wf(&self) -> bool {
        &&& self.buffer.len() == MAX_NUM_REF_IDX_L0_ACTIVE + 1
        &&& self.list.len() == MAX_NUM_REF_IDX_L0_ACTIVE + 1
        &&& forall|i: int| 0 <= i < self.list.len() ==> (#[trigger] self.list@[i] matches Some(s) ==> s < self.buffer.len())
        &&& forall|i: int| 0 <= i < self.buffer.len() ==> (#[trigger] self.buffer@[i]).data < self.pictures.len()
        &&& 1 <= self.maxRefFrames <= 16
        &&& self.dpbSize <= 16
        &&& self.numRefFrames <= self.maxRefFrames
        &&& self.outBuf.len() == self.dpbSize + 1
        &&& self.numOut <= self.dpbSize + 1
        &&& self.currentOut < self.buffer.len()
    }
}

/// The memory of reference picture `index` of the list: none when the
/// index is past the list, the entry is empty or the picture does not
/// exist.
pub open spec fn ref_pic_data(dpb: &dpbStorage_t, index: u32) -> Option<usize> {
    if index > 16 {
        None
    } else {
        match dpb.list@[index as int] {
            None => None,
            Some(s) => if is_existing(dpb.buffer@[s as int]) {
                Some(dpb.buffer@[s as int].data)
            } else {
                None
            },
        }
    }
}

/// The memory of reference picture `index` of the reference picture
/// list, None if the index is invalid or the picture does not exist.
pub fn h264bsdGetRefPicData(dpb: &dpbStorage_t, index: u32) -> (r: Option<usize>)
    requires
        dpb.wf(),
    ensures
        r == ref_pic_data(dpb, index),
        r matches Some(d) ==> d < dpb.pictures.len(),
{
    if index > 16 {
        return None;
    }
    match dpb.list[index as usize] {
        None => None,
        Some(s) => {
            if !IS_EXISTING(&dpb.buffer[s]) {
                None
            } else {
                Some(dpb.buffer[s].data)
            }
        },
    }
}


/// All of the buffer's state but the pictures and the two counters agree.
pub open spec fn same_but_marking(a: &dpbStorage_t, b: &dpbStorage_t) -> bool {
    &&& a.list@ == b.list@
    &&& a.currentOut == b.currentOut
    &&& a.outBuf@ == b.outBuf@
    &&& a.numOut == b.numOut
    &&& a.outIndex == b.outIndex
    &&& a.maxRefFrames == b.maxRefFrames
    &&& a.dpbSize == b.dpbSize
    &&& a.maxFrameNum == b.maxFrameNum
    &&& a.maxLongTermFrameIdx == b.maxLongTermFrameIdx
    &&& a.prevRefFrameNum == b.prevRefFrameNum
    &&& a.lastContainsMmco5 == b.lastContainsMmco5
    &&& a.noReordering == b.noReordering
    &&& a.flushed == b.flushed
    &&& a.pictures@ == b.pictures@
}

/// `b` is `a` with picture `i` marked unused for reference: one reference
/// frame less, and one picture less in use unless it waits for display.
pub open spec fn released(a: &dpbStorage_t, b: &dpbStorage_t, i: int) -> bool {
    &&& same_but_marking(a, b)
    &&& b.buffer@ == a.buffer@.update(i, unused(a.buffer@[i]))
    &&& b.numRefFrames == a.numRefFrames.wrapping_sub(1)
    &&& b.fullness == if a.buffer@[i].toBeDisplayed == 0 {
        a.fullness.wrapping_sub(1)
    } else {
        a.fullness
    }
}

/// The picture is the short-term (or long-term) reference picture with
/// number `picNum`.
pub open spec fn pic_matches(p: dpbPicture_t, picNum: i32, isShortTerm: bool) -> bool {
    &&& if isShortTerm {
        is_short_term(p)
    } else {
        is_long_term(p)
    }
    &&& p.picNum == picNum
}

/// Position of the first picture among the first `n` that is the
/// reference picture `picNum` of the kind `isShortTerm`; -1 when none is.
pub open spec fn find_pic(buf: Seq<dpbPicture_t>, n: int, picNum: i32, isShortTerm: bool) -> int {
    if exists|i: int| 0 <= i < n && #[trigger] pic_matches(buf[i], picNum, isShortTerm) {
        choose|i: int|
            0 <= i < n && #[trigger] pic_matches(buf[i], picNum, isShortTerm) && forall|j: int|
                0 <= j < i ==> !pic_matches(#[trigger] buf[j], picNum, isShortTerm)
    } else {
        -1
    }
}

/// The first match is the one `find_pic` names.
proof fn lemma_find_pic(buf: Seq<dpbPicture_t>, n: int, picNum: i32, isShortTerm: bool, r: int)
    requires
        -1 <= r < n,
        r == -1 ==> forall|i: int| 0 <= i < n ==> !pic_matches(#[trigger] buf[i], picNum, isShortTerm),
        r >= 0 ==> pic_matches(buf[r], picNum, isShortTerm) && forall|i: int|
            0 <= i < r ==> !pic_matches(#[trigger] buf[i], picNum, isShortTerm),
    ensures
        find_pic(buf, n, picNum, isShortTerm) == r,
{
    if r >= 0 {
        assert(pic_matches(buf[r], picNum, isShortTerm));
        let c = choose|i: int|
            0 <= i < n && #[trigger] pic_matches(buf[i], picNum, isShortTerm) && forall|j: int|
                0 <= j < i ==> !pic_matches(#[trigger] buf[j], picNum, isShortTerm);
        assert(0 <= c < n && pic_matches(buf[c], picNum, isShortTerm) && forall|j: int|
            0 <= j < c ==> !pic_matches(#[trigger] buf[j], picNum, isShortTerm));
        if c < r {
            assert(!pic_matches(buf[c], picNum, isShortTerm));
        }
        if r < c {
            assert(!pic_matches(buf[r], picNum, isShortTerm));
        }
    }
}

/// Mark picture `i` unused for reference and update the counters.
fn release(dpb: &mut dpbStorage_t, i: usize)
    requires
        i < old(dpb).buffer.len(),
    ensures
        released(old(dpb), final(dpb), i as int),
        final(dpb).buffer.len() == old(dpb).buffer.len(),
        final(dpb).model() == m_release(old(dpb).model(), i as int),
        final(dpb).pictures@ == old(dpb).pictures@,
{
    let mut p = dpb.buffer[i];
    SET_UNUSED(&mut p);
    dpb.buffer.set(i, p);
    dpb.numRefFrames = dpb.numRefFrames.wrapping_sub(1);
    if dpb.buffer[i].toBeDisplayed == 0 {
        dpb.fullness = dpb.fullness.wrapping_sub(1);
    }
}

/// Position in the buffer of the reference picture with number `picNum`
/// (short term or long term by `isShortTerm`) among the first
/// `maxRefFrames`: the first such, or -1 when there is none.
fn FindDpbPic(dpb: &dpbStorage_t, picNum: i32, isShortTerm: u32) -> (r: i32)
    requires
        dpb.buffer.len() == MAX_NUM_REF_IDX_L0_ACTIVE + 1,
        dpb.maxRefFrames <= 16,
    ensures
        -1 <= r < dpb.maxRefFrames,
        r == -1 <==> forall|i: int| 0 <= i < dpb.maxRefFrames ==> !pic_matches(#[trigger] dpb.buffer@[i], picNum, isShortTerm != 0),
        r >= 0 ==> pic_matches(dpb.buffer@[r as int], picNum, isShortTerm != 0) && forall|i: int|
            0 <= i < r ==> !pic_matches(#[trigger] dpb.buffer@[i], picNum, isShortTerm != 0),
        r == find_pic(dpb.buffer@, dpb.maxRefFrames as int, picNum, isShortTerm != 0),
{
    let mut i: u32 = 0;
    while i < dpb.maxRefFrames
        invariant
            dpb.buffer.len() == MAX_NUM_REF_IDX_L0_ACTIVE + 1,
            dpb.maxRefFrames <= 16,
            i <= dpb.maxRefFrames,
            forall|j: int| 0 <= j < i ==> !pic_matches(#[trigger] dpb.buffer@[j], picNum, isShortTerm != 0),
        decreases dpb.maxRefFrames - i,
    {
        let p = &dpb.buffer[i as usize];
        let kind = if isShortTerm != 0 {
            IS_SHORT_TERM(p)
        } else {
            IS_LONG_TERM(p)
        };
        if kind && p.picNum == picNum {
            proof {
                lemma_find_pic(dpb.buffer@, dpb.maxRefFrames as int, picNum, isShortTerm != 0, i as int);
            }
            return i as i32;
        }
        i += 1;
    }
    proof {
        lemma_find_pic(dpb.buffer@, dpb.maxRefFrames as int, picNum, isShortTerm != 0, -1);
    }
    -1
}

/// Picture numbers of the short-term pictures: frame numbers larger than
/// the current one belong to the previous wrap of frame_num.
pub open spec fn pic_num_of(frameNum: u32, currFrameNum: u32, maxFrameNum: u32) -> i32 {
    if frameNum > currFrameNum {
        (frameNum - maxFrameNum) as i32
    } else {
        frameNum as i32
    }
}

/// Set picNum of the short-term pictures among the first numRefFrames from
/// their frame numbers, relative to the current frame number.
fn SetPicNums(dpb: &mut dpbStorage_t, currFrameNum: u32)
    requires
        old(dpb).wf(),
        old(dpb).maxFrameNum <= 65536,
        forall|i: int| 0 <= i < old(dpb).buffer.len() ==> (#[trigger] old(dpb).buffer@[i]).frameNum <= 65536,
    ensures
        final(dpb).wf(),
        same_but_marking(old(dpb), final(dpb)),
        final(dpb).numRefFrames == old(dpb).numRefFrames,
        final(dpb).fullness == old(dpb).fullness,
        final(dpb).buffer.len() == old(dpb).buffer.len(),
        forall|i: int|
            0 <= i < old(dpb).buffer.len() ==> #[trigger] final(dpb).buffer@[i] == if i < old(dpb).numRefFrames && is_short_term(
                old(dpb).buffer@[i],
            ) {
                dpbPicture_t {
                    picNum: pic_num_of(old(dpb).buffer@[i].frameNum, currFrameNum, old(dpb).maxFrameNum),
                    ..old(dpb).buffer@[i]
                }
            } else {
                old(dpb).buffer@[i]
            },
        final(dpb).model() == (DpbModel {
            buffer: pic_nums_set(old(dpb).buffer@, old(dpb).numRefFrames, currFrameNum, old(dpb).maxFrameNum),
            ..old(dpb).model()
        }),
        final(dpb).pictures@ == old(dpb).pictures@,
{
    let ghost b0 = dpb.buffer@;
    let mut i: u32 = 0;
    while i < dpb.numRefFrames
        invariant
            dpb.wf(),
            i <= dpb.numRefFrames,
            same_but_marking(old(dpb), dpb),
            dpb.numRefFrames == old(dpb).numRefFrames,
            dpb.fullness == old(dpb).fullness,
            b0 == old(dpb).buffer@,
            dpb.maxFrameNum <= 65536,
            dpb.buffer.len() == b0.len(),
            forall|j: int| 0 <= j < b0.len() ==> (#[trigger] b0[j]).frameNum <= 65536,
            forall|j: int|
                0 <= j < b0.len() ==> #[trigger] dpb.buffer@[j] == if j < i && is_short_term(b0[j]) {
                    dpbPicture_t { picNum: pic_num_of(b0[j].frameNum, currFrameNum, dpb.maxFrameNum), ..b0[j] }
                } else {
                    b0[j]
                },
        decreases dpb.numRefFrames - i,
    {
        let mut p = dpb.buffer[i as usize];
        if IS_SHORT_TERM(&p) {
            let frameNumWrap: i32 = if p.frameNum > currFrameNum {
                p.frameNum as i32 - dpb.maxFrameNum as i32
            } else {
                p.frameNum as i32
            };
            p.picNum = frameNumWrap;
            dpb.buffer.set(i as usize, p);
        }
        i += 1;
    }
}

/// Sliding window marking: when the reference frames are all in use, the
/// short-term picture with the smallest picNum among the first
/// numRefFrames (the first of them on a tie) is marked unused.
pub open spec fn oldest_short_term(buf: Seq<dpbPicture_t>, n: int) -> int
    decreases n,
{
    if n <= 0 {
        -1
    } else {
        let r = oldest_short_term(buf, n - 1);
        if is_short_term(buf[n - 1]) && (r == -1 || buf[n - 1].picNum < buf[r].picNum) {
            n - 1
        } else {
            r
        }
    }
}

/// The oldest short-term picture is short term, and no short-term
/// picture before it has a smaller or equal picNum, nor one after it a
/// smaller one; -1 when there is no short-term picture.
pub proof fn lemma_oldest_short_term(buf: Seq<dpbPicture_t>, n: int)
    requires
        0 <= n <= buf.len(),
    ensures
        -1 <= oldest_short_term(buf, n) < n,
        oldest_short_term(buf, n) == -1 <==> forall|i: int| 0 <= i < n ==> !is_short_term(#[trigger] buf[i]),
        oldest_short_term(buf, n) >= 0 ==> {
            let r = oldest_short_term(buf, n);
            &&& is_short_term(buf[r])
            &&& forall|i: int| 0 <= i < n && is_short_term(#[trigger] buf[i]) ==> buf[r].picNum <= buf[i].picNum
            &&& forall|i: int| 0 <= i < r && is_short_term(#[trigger] buf[i]) ==> buf[r].picNum < buf[i].picNum
        },
    decreases n,
{
    if n > 0 {
        lemma_oldest_short_term(buf, n - 1);
    }
}

/// Sliding window reference picture marking.
fn SlidingWindowRefPicMarking(dpb: &mut dpbStorage_t) -> (r: u32)
    requires
        old(dpb).wf(),
    ensures
        ({
            let o = oldest_short_term(old(dpb).buffer@, old(dpb).numRefFrames as int);
            &&& old(dpb).numRefFrames < old(dpb).maxRefFrames ==> r == HANTRO_OK && *final(dpb) == *old(dpb)
            &&& old(dpb).numRefFrames >= old(dpb).maxRefFrames && o >= 0 ==> r == HANTRO_OK && released(
                old(dpb),
                final(dpb),
                o,
            )
            &&& old(dpb).numRefFrames >= old(dpb).maxRefFrames && o < 0 ==> r == HANTRO_NOK && *final(dpb) == *old(dpb)
            &&& final(dpb).buffer.len() == old(dpb).buffer.len()
            &&& final(dpb).wf()
            &&& r == HANTRO_OK ==> final(dpb).numRefFrames < final(dpb).maxRefFrames
            &&& forall|i: int|
                0 <= i < old(dpb).buffer.len() ==> (#[trigger] final(dpb).buffer@[i]).data == old(dpb).buffer@[i].data
                    && final(dpb).buffer@[i].frameNum == old(dpb).buffer@[i].frameNum
        }),
        (final(dpb).model(), r) == m_sliding(old(dpb).model()),
        final(dpb).pictures@ == old(dpb).pictures@,
{
    if dpb.numRefFrames < dpb.maxRefFrames {
        return HANTRO_OK;
    }
    let mut index: i32 = -1;
    let mut picNum: i32 = 0;
    let mut i: u32 = 0;
    while i < dpb.numRefFrames
        invariant
            dpb.wf(),
            i <= dpb.numRefFrames,
            index == oldest_short_term(dpb.buffer@, i as int),
            index >= 0 ==> picNum == dpb.buffer@[index as int].picNum,
            -1 <= index < i,
        decreases dpb.numRefFrames - i,
    {
        if IS_SHORT_TERM(&dpb.buffer[i as usize]) {
            if dpb.buffer[i as usize].picNum < picNum || index == -1 {
                index = i as i32;
                picNum = dpb.buffer[i as usize].picNum;
            }
        }
        i += 1;
    }
    if index >= 0 {
        release(dpb, index as usize);
        return HANTRO_OK;
    }
    HANTRO_NOK
}


/// Memory management operation 1: mark the short-term picture
/// currPicNum - differenceOfPicNums unused; HANTRO_NOK (and no change)
/// when there is no such picture.
fn Mmcop1(dpb: &mut dpbStorage_t, currPicNum: u32, differenceOfPicNums: u32) -> (r: u32)
    requires
        old(dpb).buffer.len() == MAX_NUM_REF_IDX_L0_ACTIVE + 1,
        old(dpb).maxRefFrames <= 16,
        currPicNum <= i32::MAX,
        differenceOfPicNums <= i32::MAX,
    ensures
        ({
            let k = find_pic(old(dpb).buffer@, old(dpb).maxRefFrames as int, (currPicNum - differenceOfPicNums) as i32, true);
            &&& r == if k >= 0 { HANTRO_OK } else { HANTRO_NOK }
            &&& k >= 0 ==> released(old(dpb), final(dpb), k)
            &&& k < 0 ==> *final(dpb) == *old(dpb)
            &&& final(dpb).buffer.len() == old(dpb).buffer.len()
        }),
        (final(dpb).model(), r) == m_mmco1(old(dpb).model(), currPicNum, differenceOfPicNums),
        final(dpb).pictures@ == old(dpb).pictures@,
{
    let picNum: i32 = currPicNum as i32 - differenceOfPicNums as i32;
    let index = FindDpbPic(dpb, picNum, HANTRO_TRUE);
    if index < 0 {
        return HANTRO_NOK;
    }
    release(dpb, index as usize);
    HANTRO_OK
}

/// Memory management operation 2: mark the long-term picture
/// longTermPicNum unused; HANTRO_NOK (and no change) when there is none.
fn Mmcop2(dpb: &mut dpbStorage_t, longTermPicNum: u32) -> (r: u32)
    requires
        old(dpb).buffer.len() == MAX_NUM_REF_IDX_L0_ACTIVE + 1,
        old(dpb).maxRefFrames <= 16,
    ensures
        ({
            let k = find_pic(old(dpb).buffer@, old(dpb).maxRefFrames as int, longTermPicNum as i32, false);
            &&& r == if k >= 0 { HANTRO_OK } else { HANTRO_NOK }
            &&& k >= 0 ==> released(old(dpb), final(dpb), k)
            &&& k < 0 ==> *final(dpb) == *old(dpb)
            &&& final(dpb).buffer.len() == old(dpb).buffer.len()
        }),
        (final(dpb).model(), r) == m_mmco2(old(dpb).model(), longTermPicNum),
        final(dpb).pictures@ == old(dpb).pictures@,
{
    let index = FindDpbPic(dpb, longTermPicNum as i32, HANTRO_FALSE);
    if index < 0 {
        return HANTRO_NOK;
    }
    release(dpb, index as usize);
    HANTRO_OK
}

/// Pictures and counters after freeing long-term frame index `idx`: the
/// first long-term picture with that index, when there is one, is marked
/// unused.
pub open spec fn freed(a: &dpbStorage_t, idx: u32) -> (Seq<dpbPicture_t>, u32, u32) {
    let k = find_pic(a.buffer@, a.maxRefFrames as int, idx as i32, false);
    if k >= 0 {
        (
            a.buffer@.update(k, unused(a.buffer@[k])),
            a.numRefFrames.wrapping_sub(1),
            if a.buffer@[k].toBeDisplayed == 0 {
                a.fullness.wrapping_sub(1)
            } else {
                a.fullness
            },
        )
    } else {
        (a.buffer@, a.numRefFrames, a.fullness)
    }
}

/// Free long-term frame index `idx`.
fn free_long_term_index(dpb: &mut dpbStorage_t, idx: u32)
    requires
        old(dpb).buffer.len() == MAX_NUM_REF_IDX_L0_ACTIVE + 1,
        old(dpb).maxRefFrames <= 16,
    ensures
        same_but_marking(old(dpb), final(dpb)),
        (final(dpb).buffer@, final(dpb).numRefFrames, final(dpb).fullness) == freed(old(dpb), idx),
        final(dpb).buffer.len() == old(dpb).buffer.len(),
        final(dpb).model() == m_free_index(old(dpb).model(), idx),
        final(dpb).pictures@ == old(dpb).pictures@,
{
    let index = FindDpbPic(dpb, idx as i32, HANTRO_FALSE);
    if index >= 0 {
        release(dpb, index as usize);
    }
}

/// The picture made long-term with frame index `idx`.
pub open spec fn long_term(p: dpbPicture_t, idx: u32) -> dpbPicture_t {
    dpbPicture_t { status: LONG_TERM, picNum: idx as i32, ..p }
}

/// Memory management operation 3: give the short-term picture
/// currPicNum - differenceOfPicNums the long-term frame index
/// longTermFrameIdx, after freeing that index. HANTRO_NOK when the index
/// exceeds maxLongTermFrameIdx (no change), or the picture is not there or
/// is a non-existing frame (the index stays freed).
fn Mmcop3(dpb: &mut dpbStorage_t, currPicNum: u32, differenceOfPicNums: u32, longTermFrameIdx: u32) -> (r: u32)
    requires
        old(dpb).buffer.len() == MAX_NUM_REF_IDX_L0_ACTIVE + 1,
        old(dpb).maxRefFrames <= 16,
        currPicNum <= i32::MAX,
        differenceOfPicNums <= i32::MAX,
    ensures
        ({
            let bad = old(dpb).maxLongTermFrameIdx == NO_LONG_TERM_FRAME_INDICES || longTermFrameIdx > old(
                dpb,
            ).maxLongTermFrameIdx;
            let (b1, n1, f1) = freed(old(dpb), longTermFrameIdx);
            let k = find_pic(b1, old(dpb).maxRefFrames as int, (currPicNum - differenceOfPicNums) as i32, true);
            let ok = k >= 0 && is_existing(b1[k]);
            &&& bad ==> r == HANTRO_NOK && *final(dpb) == *old(dpb)
            &&& !bad ==> r == if ok { HANTRO_OK } else { HANTRO_NOK }
            &&& !bad ==> same_but_marking(old(dpb), final(dpb)) && final(dpb).numRefFrames == n1 && final(dpb).fullness == f1
                && final(dpb).buffer@ == if ok {
                b1.update(k, long_term(b1[k], longTermFrameIdx))
            } else {
                b1
            }
            &&& final(dpb).buffer.len() == old(dpb).buffer.len()
        }),
        (final(dpb).model(), r) == m_mmco3(old(dpb).model(), currPicNum, differenceOfPicNums, longTermFrameIdx),
        final(dpb).pictures@ == old(dpb).pictures@,
{
    if dpb.maxLongTermFrameIdx == NO_LONG_TERM_FRAME_INDICES || longTermFrameIdx > dpb.maxLongTermFrameIdx {
        return HANTRO_NOK;
    }
    free_long_term_index(dpb, longTermFrameIdx);
    let picNum: i32 = currPicNum as i32 - differenceOfPicNums as i32;
    let index = FindDpbPic(dpb, picNum, HANTRO_TRUE);
    if index < 0 {
        return HANTRO_NOK;
    }
    if !IS_EXISTING(&dpb.buffer[index as usize]) {
        return HANTRO_NOK;
    }
    let mut p = dpb.buffer[index as usize];
    p.status = LONG_TERM;
    p.picNum = longTermFrameIdx as i32;
    dpb.buffer.set(index as usize, p);
    HANTRO_OK
}


/// Pictures and counters after memory management operation 4 has looked
/// at the first `i` pictures: long-term pictures with an index above
/// `maxIdx` (all of them when there are no indices) are marked unused.
pub open spec fn mmco4_run(buf: Seq<dpbPicture_t>, num: u32, full: u32, maxIdx: u32, i: nat) -> (Seq<dpbPicture_t>, u32, u32)
    decreases i,
{
    if i == 0 {
        (buf, num, full)
    } else {
        let (b, n, f) = mmco4_run(buf, num, full, maxIdx, (i - 1) as nat);
        let p = b[i - 1];
        if is_long_term(p) && (p.picNum as u32 > maxIdx || maxIdx == NO_LONG_TERM_FRAME_INDICES) {
            (
                b.update(i - 1, unused(p)),
                n.wrapping_sub(1),
                if p.toBeDisplayed == 0 {
                    f.wrapping_sub(1)
                } else {
                    f
                },
            )
        } else {
            (b, n, f)
        }
    }
}

/// Memory management operation 4: set maxLongTermFrameIdx and mark the
/// long-term pictures above it unused.
fn Mmcop4(dpb: &mut dpbStorage_t, maxLongTermFrameIdx: u32) -> (r: u32)
    requires
        old(dpb).buffer.len() == MAX_NUM_REF_IDX_L0_ACTIVE + 1,
        old(dpb).maxRefFrames <= 16,
    ensures
        r == HANTRO_OK,
        final(dpb).maxLongTermFrameIdx == maxLongTermFrameIdx,
        (final(dpb).buffer@, final(dpb).numRefFrames, final(dpb).fullness) == mmco4_run(
            old(dpb).buffer@,
            old(dpb).numRefFrames,
            old(dpb).fullness,
            maxLongTermFrameIdx,
            old(dpb).maxRefFrames as nat,
        ),
        final(dpb).buffer.len() == old(dpb).buffer.len(),
        same_but_marking(&dpbStorage_t { maxLongTermFrameIdx, ..*old(dpb) }, final(dpb)),
        final(dpb).model() == m_mmco4(old(dpb).model(), maxLongTermFrameIdx),
        final(dpb).pictures@ == old(dpb).pictures@,
{
    dpb.maxLongTermFrameIdx = maxLongTermFrameIdx;
    let ghost d1 = *dpb;
    let mut i: u32 = 0;
    while i < dpb.maxRefFrames
        invariant
            i <= dpb.maxRefFrames,
            dpb.maxRefFrames <= 16,
            dpb.buffer.len() == MAX_NUM_REF_IDX_L0_ACTIVE + 1,
            dpb.maxLongTermFrameIdx == maxLongTermFrameIdx,
            same_but_marking(&d1, dpb),
            d1.buffer@ == old(dpb).buffer@,
            d1.numRefFrames == old(dpb).numRefFrames,
            d1.fullness == old(dpb).fullness,
            (dpb.buffer@, dpb.numRefFrames, dpb.fullness) == mmco4_run(
                old(dpb).buffer@,
                old(dpb).numRefFrames,
                old(dpb).fullness,
                maxLongTermFrameIdx,
                i as nat,
            ),
        decreases dpb.maxRefFrames - i,
    {
        let p = dpb.buffer[i as usize];
        if IS_LONG_TERM(&p) && (p.picNum as u32 > maxLongTermFrameIdx || dpb.maxLongTermFrameIdx == NO_LONG_TERM_FRAME_INDICES) {
            release(dpb, i as usize);
        }
        i += 1;
    }
    HANTRO_OK
}

/// Memory management operation 6: give the current picture long-term
/// frame index longTermFrameIdx, after freeing that index. HANTRO_NOK
/// when the index exceeds maxLongTermFrameIdx (no change) or the
/// reference frames are all in use (the index stays freed).
fn Mmcop6(dpb: &mut dpbStorage_t, frameNum: u32, picOrderCnt: i32, longTermFrameIdx: u32) -> (r: u32)
    requires
        old(dpb).buffer.len() == MAX_NUM_REF_IDX_L0_ACTIVE + 1,
        old(dpb).maxRefFrames <= 16,
        old(dpb).currentOut < old(dpb).buffer.len(),
    ensures
        ({
            let bad = old(dpb).maxLongTermFrameIdx == NO_LONG_TERM_FRAME_INDICES || longTermFrameIdx > old(
                dpb,
            ).maxLongTermFrameIdx;
            let (b1, n1, f1) = freed(old(dpb), longTermFrameIdx);
            let c = old(dpb).currentOut as int;
            let room = n1 < old(dpb).maxRefFrames;
            &&& bad ==> r == HANTRO_NOK && *final(dpb) == *old(dpb)
            &&& !bad ==> r == if room { HANTRO_OK } else { HANTRO_NOK }
            &&& !bad ==> same_but_marking(old(dpb), final(dpb))
            &&& !bad && !room ==> final(dpb).buffer@ == b1 && final(dpb).numRefFrames == n1 && final(dpb).fullness == f1
            &&& !bad && room ==> final(dpb).numRefFrames == n1 + 1 && final(dpb).fullness == f1.wrapping_add(1)
                && final(dpb).buffer@ == b1.update(
                c,
                dpbPicture_t {
                    frameNum,
                    picNum: longTermFrameIdx as i32,
                    picOrderCnt,
                    status: LONG_TERM,
                    toBeDisplayed: if old(dpb).noReordering != 0 { HANTRO_FALSE } else { HANTRO_TRUE },
                    ..b1[c]
                },
            )
            &&& final(dpb).buffer.len() == old(dpb).buffer.len()
        }),
        (final(dpb).model(), r) == m_mmco6(old(dpb).model(), frameNum, picOrderCnt, longTermFrameIdx),
        final(dpb).pictures@ == old(dpb).pictures@,
{
    if dpb.maxLongTermFrameIdx == NO_LONG_TERM_FRAME_INDICES || longTermFrameIdx > dpb.maxLongTermFrameIdx {
        return HANTRO_NOK;
    }
    free_long_term_index(dpb, longTermFrameIdx);
    if dpb.numRefFrames < dpb.maxRefFrames {
        let c = dpb.currentOut;
        let mut p = dpb.buffer[c];
        p.frameNum = frameNum;
        p.picNum = longTermFrameIdx as i32;
        p.picOrderCnt = picOrderCnt;
        p.status = LONG_TERM;
        p.toBeDisplayed = if dpb.noReordering != 0 {
            HANTRO_FALSE
        } else {
            HANTRO_TRUE
        };
        dpb.buffer.set(c, p);
        dpb.numRefFrames += 1;
        dpb.fullness = dpb.fullness.wrapping_add(1);
        HANTRO_OK
    } else {
        HANTRO_NOK
    }
}

/// Number of the first `n` pictures waiting for display.
pub open spec fn displayable(buf: Seq<dpbPicture_t>, n: int) -> nat
    decreases n,
{
    if n <= 0 {
        0
    } else {
        displayable(buf, n - 1) + if buf[n - 1].toBeDisplayed != 0 {
            1nat
        } else {
            0nat
        }
    }
}

/// Position of the picture next in display order among the first `n`: the
/// first waiting one with the smallest picture order count below
/// 0x7FFFFFFF; -1 when there is none.
pub open spec fn next_display(buf: Seq<dpbPicture_t>, n: int) -> int
    decreases n,
{
    if n <= 0 {
        -1
    } else {
        let r = next_display(buf, n - 1);
        let best = if r < 0 {
            0x7FFF_FFFFi32
        } else {
            buf[r].picOrderCnt
        };
        if buf[n - 1].toBeDisplayed != 0 && buf[n - 1].picOrderCnt < best {
            n - 1
        } else {
            r
        }
    }
}

/// The picture next in display order waits for display; putting it out
/// leaves one picture fewer waiting.
pub proof fn lemma_next_display(buf: Seq<dpbPicture_t>, n: int, m: int)
    requires
        0 <= n <= m <= buf.len(),
    ensures
        -1 <= next_display(buf, n) < n,
        next_display(buf, n) >= 0 ==> buf[next_display(buf, n)].toBeDisplayed != 0,
        forall|k: int, p: dpbPicture_t|
            0 <= k < m && buf[k].toBeDisplayed != 0 && p.toBeDisplayed == 0 ==> #[trigger] displayable(buf.update(k, p), m)
                < displayable(buf, m),
    decreases m,
{
    if n > 0 {
        lemma_next_display(buf, n - 1, n - 1);
    }
    if m > 0 {
        lemma_next_display(buf, 0, m - 1);
        assert forall|k: int, p: dpbPicture_t|
            0 <= k < m && buf[k].toBeDisplayed != 0 && p.toBeDisplayed == 0 implies #[trigger] displayable(
            buf.update(k, p),
            m,
        ) < displayable(buf, m) by {
            lemma_displayable_frame(buf, buf.update(k, p), m - 1, k);
        }
    }
}

/// Pictures that agree below `n` have the same count.
pub proof fn lemma_displayable_frame(a: Seq<dpbPicture_t>, b: Seq<dpbPicture_t>, n: int, k: int)
    requires
        0 <= n,
        n < a.len(),
        a.len() == b.len(),
        forall|i: int| 0 <= i < a.len() && i != k ==> a[i] == b[i],
        0 <= k <= n,
        a[k].toBeDisplayed != 0,
        b[k].toBeDisplayed == 0,
    ensures
        displayable(b, n + 1) < displayable(a, n + 1),
    decreases n,
{
    if k < n {
        lemma_displayable_frame(a, b, n - 1, k);
    } else {
        lemma_displayable_same(a, b, n);
    }
}

/// Pictures that agree below `n` have the same count.
pub proof fn lemma_displayable_same(a: Seq<dpbPicture_t>, b: Seq<dpbPicture_t>, n: int)
    requires
        0 <= n <= a.len(),
        n <= b.len(),
        forall|i: int| 0 <= i < n ==> a[i] == b[i],
    ensures
        displayable(a, n) == displayable(b, n),
    decreases n,
{
    if n > 0 {
        lemma_displayable_same(a, b, n - 1);
    }
}

/// Find the picture next in display order among positions 0..=dpbSize.
fn FindSmallestPicOrderCnt(dpb: &dpbStorage_t) -> (r: Option<usize>)
    requires
        dpb.buffer.len() == MAX_NUM_REF_IDX_L0_ACTIVE + 1,
        dpb.dpbSize <= 16,
    ensures
        r == if next_display(dpb.buffer@, dpb.dpbSize + 1) >= 0 {
            Some(next_display(dpb.buffer@, dpb.dpbSize + 1) as usize)
        } else {
            None::<usize>
        },
{
    let mut picOrderCnt: i32 = 0x7FFF_FFFF;
    let mut tmp: Option<usize> = None;
    let mut i: u32 = 0;
    while i <= dpb.dpbSize
        invariant
            dpb.buffer.len() == MAX_NUM_REF_IDX_L0_ACTIVE + 1,
            dpb.dpbSize <= 16,
            i <= dpb.dpbSize + 1,
            tmp == if next_display(dpb.buffer@, i as int) >= 0 {
                Some(next_display(dpb.buffer@, i as int) as usize)
            } else {
                None::<usize>
            },
            picOrderCnt == if next_display(dpb.buffer@, i as int) >= 0 {
                dpb.buffer@[next_display(dpb.buffer@, i as int)].picOrderCnt
            } else {
                0x7FFF_FFFFi32
            },
        decreases dpb.dpbSize + 1 - i,
    {
        proof {
            lemma_next_display(dpb.buffer@, i as int, i as int);
        }
        if dpb.buffer[i as usize].toBeDisplayed != 0 && dpb.buffer[i as usize].picOrderCnt < picOrderCnt {
            tmp = Some(i as usize);
            picOrderCnt = dpb.buffer[i as usize].picOrderCnt;
        }
        i += 1;
    }
    tmp
}

/// Put the picture next in display order into the output buffer: it no
/// longer waits for display, and when it is not a reference picture the
/// buffer holds one picture fewer. HANTRO_NOK (and no change) when the
/// buffer does not reorder, nothing waits for display, or the output
/// buffer is full.
fn OutputPicture(dpb: &mut dpbStorage_t) -> (r: u32)
    requires
        old(dpb).buffer.len() == MAX_NUM_REF_IDX_L0_ACTIVE + 1,
        old(dpb).dpbSize <= 16,
        old(dpb).outBuf.len() == old(dpb).dpbSize + 1,
    ensures
        ({
            let k = next_display(old(dpb).buffer@, old(dpb).dpbSize + 1);
            let n = old(dpb).numOut as int;
            let ok = old(dpb).noReordering == 0 && k >= 0 && n < old(dpb).outBuf.len();
            let p = old(dpb).buffer@[k];
            &&& r == if ok { HANTRO_OK } else { HANTRO_NOK }
            &&& !ok ==> *final(dpb) == *old(dpb)
            &&& ok ==> final(dpb).outBuf@ == old(dpb).outBuf@.update(
                n,
                dpbOutPicture_t { data: p.data, picId: p.picId, numErrMbs: p.numErrMbs, isIdr: p.isIdr },
            )
            &&& ok ==> final(dpb).numOut == n + 1
            &&& ok ==> final(dpb).buffer@ == old(dpb).buffer@.update(k, dpbPicture_t { toBeDisplayed: HANTRO_FALSE, ..p })
            &&& ok ==> final(dpb).fullness == if !is_reference(p) {
                old(dpb).fullness.wrapping_sub(1)
            } else {
                old(dpb).fullness
            }
            &&& ok ==> final(dpb).numRefFrames == old(dpb).numRefFrames
            &&& ok ==> final(dpb).list@ == old(dpb).list@ && final(dpb).currentOut == old(dpb).currentOut
                && final(dpb).outIndex == old(dpb).outIndex && final(dpb).maxRefFrames == old(dpb).maxRefFrames
                && final(dpb).dpbSize == old(dpb).dpbSize && final(dpb).maxFrameNum == old(dpb).maxFrameNum
                && final(dpb).maxLongTermFrameIdx == old(dpb).maxLongTermFrameIdx && final(dpb).prevRefFrameNum == old(
                dpb,
            ).prevRefFrameNum && final(dpb).lastContainsMmco5 == old(dpb).lastContainsMmco5 && final(dpb).noReordering
                == old(dpb).noReordering && final(dpb).flushed == old(dpb).flushed && final(dpb).pictures@ == old(
                dpb,
            ).pictures@
            &&& ok ==> displayable(final(dpb).buffer@, old(dpb).dpbSize + 1) < displayable(old(dpb).buffer@, old(dpb).dpbSize + 1)
            &&& final(dpb).buffer.len() == old(dpb).buffer.len()
            &&& final(dpb).outBuf.len() == old(dpb).outBuf.len()
            &&& forall|i: int|
                0 <= i < old(dpb).buffer.len() ==> (#[trigger] final(dpb).buffer@[i]).data == old(dpb).buffer@[i].data
                    && final(dpb).buffer@[i].frameNum == old(dpb).buffer@[i].frameNum
            &&& old(dpb).wf() ==> final(dpb).wf()
            &&& ok ==> {
                let o = output_step(
                    (old(dpb).buffer@, old(dpb).outBuf@, old(dpb).numOut, old(dpb).fullness),
                    old(dpb).dpbSize as int,
                );
                final(dpb).model() == DpbModel { buffer: o.0, outBuf: o.1, numOut: o.2, fullness: o.3, ..old(dpb).model() }
            }
            &&& final(dpb).pictures@ == old(dpb).pictures@
        }),
{
    if dpb.noReordering != 0 {
        return HANTRO_NOK;
    }
    let k = match FindSmallestPicOrderCnt(dpb) {
        None => {
            return HANTRO_NOK;
        },
        Some(k) => k,
    };
    if dpb.numOut as usize >= dpb.outBuf.len() {
        return HANTRO_NOK;
    }
    proof {
        lemma_next_display(dpb.buffer@, dpb.dpbSize + 1, dpb.dpbSize + 1);
    }
    let mut p = dpb.buffer[k];
    let n = dpb.numOut as usize;
    dpb.outBuf.set(n, dpbOutPicture_t { data: p.data, picId: p.picId, numErrMbs: p.numErrMbs, isIdr: p.isIdr });
    dpb.numOut += 1;
    p.toBeDisplayed = HANTRO_FALSE;
    dpb.buffer.set(k, p);
    if !IS_REFERENCE(&p) {
        dpb.fullness = dpb.fullness.wrapping_sub(1);
    }
    HANTRO_OK
}


/// State of display output: pictures, output buffer, number of pictures
/// put out, pictures in use.
pub type OutState = (Seq<dpbPicture_t>, Seq<dpbOutPicture_t>, u32, u32);

/// Whether one more picture can be put out, as OutputPicture does.
pub open spec fn can_output(s: OutState, size: int) -> bool {
    next_display(s.0, size + 1) >= 0 && (s.2 as int) < s.1.len() && s.2 < u32::MAX
}

/// The state after putting out the picture next in display order.
pub open spec fn output_step(s: OutState, size: int) -> OutState {
    let k = next_display(s.0, size + 1);
    let p = s.0[k];
    (
        s.0.update(k, dpbPicture_t { toBeDisplayed: HANTRO_FALSE, ..p }),
        s.1.update(s.2 as int, dpbOutPicture_t { data: p.data, picId: p.picId, numErrMbs: p.numErrMbs, isIdr: p.isIdr }),
        (s.2 + 1) as u32,
        if !is_reference(p) {
            s.3.wrapping_sub(1)
        } else {
            s.3
        },
    )
}

/// The state after putting out pictures in display order while there are
/// any and room for them.
pub open spec fn output_all(s: OutState, size: int) -> OutState
    decreases displayable(s.0, size + 1),
    when 0 <= size < s.0.len()
{
    if can_output(s, size) {
        proof {
            lemma_next_display(s.0, size + 1, size + 1);
        }
        output_all(output_step(s, size), size)
    } else {
        s
    }
}

/// The display output state of the buffer.
pub open spec fn out_state(d: &dpbStorage_t) -> OutState {
    (d.buffer@, d.outBuf@, d.numOut, d.fullness)
}

/// Put out all pictures waiting for display, in display order (as long
/// as the output buffer has room).
fn output_all_pictures(dpb: &mut dpbStorage_t)
    requires
        old(dpb).buffer.len() == MAX_NUM_REF_IDX_L0_ACTIVE + 1,
        old(dpb).dpbSize <= 16,
        old(dpb).outBuf.len() == old(dpb).dpbSize + 1,
        old(dpb).noReordering == 0,
    ensures
        out_state(final(dpb)) == output_all(out_state(old(dpb)), old(dpb).dpbSize as int),
        same_but_marking_out(old(dpb), final(dpb)),
        final(dpb).numRefFrames == old(dpb).numRefFrames,
        final(dpb).buffer.len() == old(dpb).buffer.len(),
        final(dpb).outBuf.len() == old(dpb).outBuf.len(),
        final(dpb).model() == m_output_all(old(dpb).model()),
        final(dpb).pictures@ == old(dpb).pictures@,
{
    loop
        invariant
            dpb.buffer.len() == MAX_NUM_REF_IDX_L0_ACTIVE + 1,
            dpb.dpbSize <= 16,
            dpb.outBuf.len() == dpb.dpbSize + 1,
            dpb.noReordering == 0,
            dpb.dpbSize == old(dpb).dpbSize,
            output_all(out_state(dpb), dpb.dpbSize as int) == output_all(out_state(old(dpb)), old(dpb).dpbSize as int),
            same_but_marking_out(old(dpb), dpb),
            dpb.numRefFrames == old(dpb).numRefFrames,
            dpb.buffer.len() == old(dpb).buffer.len(),
            dpb.outBuf.len() == old(dpb).outBuf.len(),
        decreases displayable(dpb.buffer@, dpb.dpbSize + 1),
    {
        let ghost s0 = out_state(dpb);
        if OutputPicture(dpb) != HANTRO_OK {
            assert(!can_output(s0, dpb.dpbSize as int));
            return;
        }
        assert(can_output(s0, dpb.dpbSize as int));
        assert(out_state(dpb) == output_step(s0, dpb.dpbSize as int));
    }
}

/// All of the buffer's state but the pictures, the output and the counter
/// of pictures in use agree.
pub open spec fn same_but_marking_out(a: &dpbStorage_t, b: &dpbStorage_t) -> bool {
    &&& a.list@ == b.list@
    &&& a.currentOut == b.currentOut
    &&& a.outIndex == b.outIndex
    &&& a.maxRefFrames == b.maxRefFrames
    &&& a.dpbSize == b.dpbSize
    &&& a.maxFrameNum == b.maxFrameNum
    &&& a.maxLongTermFrameIdx == b.maxLongTermFrameIdx
    &&& a.prevRefFrameNum == b.prevRefFrameNum
    &&& a.lastContainsMmco5 == b.lastContainsMmco5
    &&& a.noReordering == b.noReordering
    &&& a.flushed == b.flushed
    &&& a.pictures@ == b.pictures@
}

/// Flush the buffer at the end of the stream: put all pictures waiting
/// for display into the output buffer, in display order.
pub fn h264bsdFlushDpb(dpb: &mut dpbStorage_t)
    requires
        old(dpb).wf(),
    ensures
        final(dpb).flushed == 1,
        old(dpb).noReordering == 0 ==> out_state(final(dpb)) == output_all(out_state(old(dpb)), old(dpb).dpbSize as int),
        old(dpb).noReordering != 0 ==> out_state(final(dpb)) == out_state(old(dpb)),
        final(dpb).numRefFrames == old(dpb).numRefFrames,
        final(dpb).list@ == old(dpb).list@,
        final(dpb).outIndex == old(dpb).outIndex,
        final(dpb).pictures@ == old(dpb).pictures@,
{
    dpb.flushed = 1;
    if dpb.noReordering == 0 {
        output_all_pictures(dpb);
    }
}

/// Hand on the next picture of the output buffer, None when all put out
/// have been handed on.
pub fn h264bsdDpbOutputPicture(dpb: &mut dpbStorage_t) -> (r: Option<dpbOutPicture_t>)
    requires
        old(dpb).wf(),
    ensures
        old(dpb).outIndex < old(dpb).numOut ==> r == Some(old(dpb).outBuf@[old(dpb).outIndex as int]) && final(dpb).outIndex
            == old(dpb).outIndex + 1,
        old(dpb).outIndex >= old(dpb).numOut ==> r is None && final(dpb).outIndex == old(dpb).outIndex,
        out_state(final(dpb)) == out_state(old(dpb)),
        final(dpb).numOut == old(dpb).numOut,
        same_but_marking(&dpbStorage_t { outIndex: final(dpb).outIndex, ..*old(dpb) }, final(dpb)),
        final(dpb).numRefFrames == old(dpb).numRefFrames,
{
    if dpb.outIndex < dpb.numOut {
        let out = dpb.outBuf[dpb.outIndex as usize];
        dpb.outIndex += 1;
        Some(out)
    } else {
        None
    }
}

/// Set up the reference picture list: entry i is the picture at position
/// i of the (sorted) buffer, for the numRefFrames reference frames.
pub fn h264bsdInitRefPicList(dpb: &mut dpbStorage_t)
    requires
        old(dpb).wf(),
    ensures
        final(dpb).wf(),
        forall|i: int| 0 <= i < old(dpb).list.len() ==> #[trigger] final(dpb).list@[i] == if i < old(dpb).numRefFrames {
            Some(i as usize)
        } else {
            old(dpb).list@[i]
        },
        final(dpb).buffer@ == old(dpb).buffer@,
        out_state(final(dpb)) == out_state(old(dpb)),
        final(dpb).numRefFrames == old(dpb).numRefFrames,
{
    let mut i: u32 = 0;
    while i < dpb.numRefFrames
        invariant
            dpb.wf(),
            i <= dpb.numRefFrames,
            dpb.buffer@ == old(dpb).buffer@,
            out_state(dpb) == out_state(old(dpb)),
            dpb.numRefFrames == old(dpb).numRefFrames,
            dpb.maxRefFrames == old(dpb).maxRefFrames,
            forall|j: int| 0 <= j < dpb.list.len() ==> #[trigger] dpb.list@[j] == if j < i {
                Some(j as usize)
            } else {
                old(dpb).list@[j]
            },
        decreases dpb.numRefFrames - i,
    {
        dpb.list.set(i as usize, Some(i as usize));
        i += 1;
    }
}


/// Sort key of a picture: short-term reference pictures first, largest
/// picNum first; then long-term reference pictures, smallest picNum
/// first; then pictures waiting for display; then the others.
pub open spec fn pic_key(p: dpbPicture_t) -> int {
    if is_reference(p) {
        if is_short_term(p) {
            -(p.picNum as int)
        } else {
            0x2_0000_0000 + p.picNum as int
        }
    } else if p.toBeDisplayed != 0 {
        0x4_0000_0000
    } else {
        0x6_0000_0000
    }
}

/// Compare two pictures for sorting: -1 when the first goes first, 1 when
/// the second does, 0 when they rank equal.
fn ComparePictures(pic1: &dpbPicture_t, pic2: &dpbPicture_t) -> (r: i32)
    ensures
        r == if pic_key(*pic1) < pic_key(*pic2) {
            -1i32
        } else if pic_key(*pic1) > pic_key(*pic2) {
            1i32
        } else {
            0i32
        },
{
    if !IS_REFERENCE(pic1) && !IS_REFERENCE(pic2) {
        if pic1.toBeDisplayed != 0 && pic2.toBeDisplayed == 0 {
            -1
        } else if pic1.toBeDisplayed == 0 && pic2.toBeDisplayed != 0 {
            1
        } else {
            0
        }
    } else if !IS_REFERENCE(pic2) {
        -1
    } else if !IS_REFERENCE(pic1) {
        1
    } else if IS_SHORT_TERM(pic1) && IS_SHORT_TERM(pic2) {
        if pic1.picNum > pic2.picNum {
            -1
        } else if pic1.picNum < pic2.picNum {
            1
        } else {
            0
        }
    } else if IS_SHORT_TERM(pic1) {
        -1
    } else if IS_SHORT_TERM(pic2) {
        1
    } else {
        if pic1.picNum > pic2.picNum {
            1
        } else if pic1.picNum < pic2.picNum {
            -1
        } else {
            0
        }
    }
}

/// Exchanging two entries keeps the multiset of entries.
proof fn lemma_swap_multiset(s: Seq<dpbPicture_t>, i: int, j: int)
    requires
        0 <= i < s.len(),
        0 <= j < s.len(),
        i != j,
    ensures
        s.update(i, s[j]).update(j, s[i]).to_multiset() == s.to_multiset(),
{
    broadcast use vstd::multiset::group_multiset_axioms;
    let t = s.update(i, s[j]);
    vstd::seq_lib::to_multiset_update(s, i, s[j]);
    vstd::seq_lib::to_multiset_update(t, j, s[i]);
    assert(t[j] == s[j]);
    let m = s.to_multiset();
    vstd::seq_lib::to_multiset_contains(s, s[i]);
    vstd::seq_lib::to_multiset_contains(s, s[j]);
    assert(s.contains(s[i]) && s.contains(s[j]));
    assert(m.count(s[i]) > 0 && m.count(s[j]) > 0);
    let r = m.insert(s[j]).remove(s[i]).insert(s[i]).remove(s[j]);
    assert forall|x: dpbPicture_t| #[trigger] r.count(x) == m.count(x) by {
    }
    assert(r =~= m);
}

/// Exchange entries `a` and `b` of the buffer.
fn swap_pics(buf: &mut Vec<dpbPicture_t>, a: usize, b: usize)
    requires
        a < old(buf).len(),
        b < old(buf).len(),
        a != b,
    ensures
        final(buf)@ == old(buf)@.update(a as int, old(buf)@[b as int]).update(b as int, old(buf)@[a as int]),
        final(buf)@.to_multiset() == old(buf)@.to_multiset(),
{
    proof {
        lemma_swap_multiset(buf@, a as int, b as int);
    }
    let x = buf[a];
    let y = buf[b];
    buf.set(a, y);
    buf.set(b, x);
}

/// Pictures `a` and `b` of `s` exchanged.
pub open spec fn swapped(s: Seq<dpbPicture_t>, a: int, b: int) -> Seq<dpbPicture_t> {
    s.update(a, s[b]).update(b, s[a])
}

/// The picture at `j` moved back by steps of `step` past the pictures
/// that sort after it.
pub open spec fn sift(s: Seq<dpbPicture_t>, step: int, j: int) -> Seq<dpbPicture_t>
    decreases j,
    when step >= 1
{
    if j >= step && j < s.len() && pic_key(s[j - step]) > pic_key(s[j]) {
        sift(swapped(s, j - step, j), step, j - step)
    } else {
        s
    }
}

/// One pass of Shell's sort with increment `step` over the first `num`
/// pictures, from position `i` on.
pub open spec fn shell_run(s: Seq<dpbPicture_t>, step: int, num: int, i: int) -> Seq<dpbPicture_t>
    decreases num - i,
    when step >= 1
{
    if i < num {
        shell_run(sift(s, step, i), step, num, i + 1)
    } else {
        s
    }
}

/// The pictures after Shell's sort of the first `num` with increments 7,
/// 3 and 1.
pub open spec fn shell_sorted(s: Seq<dpbPicture_t>, num: int) -> Seq<dpbPicture_t> {
    shell_run(shell_run(shell_run(s, 7, num, 7), 3, num, 3), 1, num, 1)
}

/// One pass of Shell's sort with increment `step` over the first `num`
/// pictures: each picture moves back by steps past the pictures that go
/// after it.
fn shell_pass(buf: &mut Vec<dpbPicture_t>, num: u32, step: u32)
    requires
        num <= old(buf).len(),
        1 <= step,
    ensures
        final(buf)@.to_multiset() == old(buf)@.to_multiset(),
        final(buf).len() == old(buf).len(),
        forall|k: int| num <= k < old(buf).len() ==> final(buf)@[k] == old(buf)@[k],
        final(buf)@ == shell_run(old(buf)@, step as int, num as int, step as int),
{
    let mut i: u32 = step;
    while i < num
        invariant
            num <= buf.len(),
            1 <= step,
            step <= i || i == step,
            buf.len() == old(buf).len(),
            buf@.to_multiset() == old(buf)@.to_multiset(),
            forall|k: int| num <= k < old(buf).len() ==> buf@[k] == old(buf)@[k],
            shell_run(buf@, step as int, num as int, i as int) == shell_run(old(buf)@, step as int, num as int, step as int),
        decreases num - i,
    {
        let ghost target = sift(buf@, step as int, i as int);
        let mut j: u32 = i;
        while j >= step && ComparePictures(&buf[(j - step) as usize], &buf[j as usize]) > 0
            invariant
                j <= i < num,
                1 <= step,
                num <= buf.len(),
                buf.len() == old(buf).len(),
                buf@.to_multiset() == old(buf)@.to_multiset(),
                forall|k: int| num <= k < old(buf).len() ==> buf@[k] == old(buf)@[k],
                sift(buf@, step as int, j as int) == target,
            decreases j,
        {
            swap_pics(buf, (j - step) as usize, j as usize);
            j -= step;
        }
        i += 1;
    }
}

/// The first `n` pictures are in sort order.
pub open spec fn sorted_pics(buf: Seq<dpbPicture_t>, n: int) -> bool {
    forall|a: int, b: int| 0 <= a < b < n ==> pic_key(#[trigger] buf[a]) <= pic_key(#[trigger] buf[b])
}

/// The last pass of Shell's sort, with increment 1: insertion sort, after
/// which the first `num` pictures are in sort order.
fn insertion_pass(buf: &mut Vec<dpbPicture_t>, num: u32)
    requires
        num <= old(buf).len(),
    ensures
        final(buf)@.to_multiset() == old(buf)@.to_multiset(),
        final(buf).len() == old(buf).len(),
        forall|k: int| num <= k < old(buf).len() ==> final(buf)@[k] == old(buf)@[k],
        sorted_pics(final(buf)@, num as int),
        final(buf)@ == shell_run(old(buf)@, 1, num as int, 1),
{
    if num == 0 {
        return;
    }
    let mut i: u32 = 1;
    while i < num
        invariant
            1 <= i <= num,
            shell_run(buf@, 1, num as int, i as int) == shell_run(old(buf)@, 1, num as int, 1),
            num <= buf.len(),
            buf.len() == old(buf).len(),
            buf@.to_multiset() == old(buf)@.to_multiset(),
            forall|k: int| num <= k < old(buf).len() ==> buf@[k] == old(buf)@[k],
            sorted_pics(buf@, i as int),
        decreases num - i,
    {
        let ghost target = sift(buf@, 1, i as int);
        let mut j: u32 = i;
        while j >= 1 && ComparePictures(&buf[(j - 1) as usize], &buf[j as usize]) > 0
            invariant
                j <= i < num,
                sift(buf@, 1, j as int) == target,
                num <= buf.len(),
                buf.len() == old(buf).len(),
                buf@.to_multiset() == old(buf)@.to_multiset(),
                forall|k: int| num <= k < old(buf).len() ==> buf@[k] == old(buf)@[k],
                forall|a: int, b: int| 0 <= a < b < j ==> pic_key(#[trigger] buf@[a]) <= pic_key(#[trigger] buf@[b]),
                forall|a: int, b: int| j <= a < b <= i ==> pic_key(#[trigger] buf@[a]) <= pic_key(#[trigger] buf@[b]),
                forall|a: int, b: int| 0 <= a < j && j < b <= i ==> pic_key(#[trigger] buf@[a]) <= pic_key(#[trigger] buf@[b]),
            decreases j,
        {
            swap_pics(buf, (j - 1) as usize, j as usize);
            j -= 1;
        }
        proof {
            assert forall|a: int, b: int| 0 <= a < b < i + 1 implies pic_key(#[trigger] buf@[a]) <= pic_key(#[trigger] buf@[b]) by {
                if j > 0 && b == j && a < j {
                    assert(pic_key(buf@[a]) <= pic_key(buf@[j - 1]));
                }
            }
        }
        i += 1;
    }
}

/// Sort the first `num` pictures of the buffer (Shell's method, with
/// increments 7, 3 and 1): short-term reference pictures first (largest
/// picNum first), then long-term ones (smallest picNum first), then
/// pictures waiting for display, then the rest.
fn ShellSort(buf: &mut Vec<dpbPicture_t>, num: u32)
    requires
        num <= old(buf).len(),
    ensures
        final(buf)@.to_multiset() == old(buf)@.to_multiset(),
        final(buf).len() == old(buf).len(),
        forall|k: int| num <= k < old(buf).len() ==> final(buf)@[k] == old(buf)@[k],
        sorted_pics(final(buf)@, num as int),
        final(buf)@ == shell_sorted(old(buf)@, num as int),
{
    shell_pass(buf, num, 7);
    shell_pass(buf, num, 3);
    insertion_pass(buf, num);
}


/// Pictures and pictures in use after the first `i` pictures have been
/// marked unused for reference.
pub open spec fn unmark_all(buf: Seq<dpbPicture_t>, full: u32, i: nat) -> (Seq<dpbPicture_t>, u32)
    decreases i,
{
    if i == 0 {
        (buf, full)
    } else {
        let (b, f) = unmark_all(buf, full, (i - 1) as nat);
        let p = b[i - 1];
        if is_reference(p) {
            (
                b.update(i - 1, unused(p)),
                if p.toBeDisplayed == 0 {
                    f.wrapping_sub(1)
                } else {
                    f
                },
            )
        } else {
            (b, f)
        }
    }
}

/// Memory management operation 5: mark all reference pictures unused,
/// put out all pictures waiting for display, and forget the reference
/// frames and long-term indices.
fn Mmcop5(dpb: &mut dpbStorage_t) -> (r: u32)
    requires
        old(dpb).buffer.len() == MAX_NUM_REF_IDX_L0_ACTIVE + 1,
        old(dpb).dpbSize <= 16,
        old(dpb).outBuf.len() == old(dpb).dpbSize + 1,
    ensures
        ({
            let (b1, f1) = unmark_all(old(dpb).buffer@, old(dpb).fullness, 16);
            let s1 = (b1, old(dpb).outBuf@, old(dpb).numOut, f1);
            &&& r == HANTRO_OK
            &&& out_state(final(dpb)) == if old(dpb).noReordering == 0 {
                output_all(s1, old(dpb).dpbSize as int)
            } else {
                s1
            }
            &&& final(dpb).numRefFrames == 0
            &&& final(dpb).maxLongTermFrameIdx == NO_LONG_TERM_FRAME_INDICES
            &&& final(dpb).prevRefFrameNum == 0
            &&& final(dpb).list@ == old(dpb).list@
            &&& final(dpb).currentOut == old(dpb).currentOut
            &&& final(dpb).outIndex == old(dpb).outIndex
            &&& final(dpb).maxRefFrames == old(dpb).maxRefFrames
            &&& final(dpb).dpbSize == old(dpb).dpbSize
            &&& final(dpb).maxFrameNum == old(dpb).maxFrameNum
            &&& final(dpb).lastContainsMmco5 == old(dpb).lastContainsMmco5
            &&& final(dpb).noReordering == old(dpb).noReordering
            &&& final(dpb).flushed == old(dpb).flushed
            &&& final(dpb).pictures@ == old(dpb).pictures@
            &&& final(dpb).buffer.len() == old(dpb).buffer.len()
            &&& final(dpb).outBuf.len() == old(dpb).outBuf.len()
        }),
        final(dpb).model() == m_mmco5(old(dpb).model()),
        final(dpb).pictures@ == old(dpb).pictures@,
{
    let mut i: u32 = 0;
    while i < 16
        invariant
            i <= 16,
            dpb.buffer.len() == MAX_NUM_REF_IDX_L0_ACTIVE + 1,
            dpb.dpbSize <= 16,
            dpb.outBuf.len() == dpb.dpbSize + 1,
            (dpb.buffer@, dpb.fullness) == unmark_all(old(dpb).buffer@, old(dpb).fullness, i as nat),
            dpb.outBuf@ == old(dpb).outBuf@,
            dpb.numOut == old(dpb).numOut,
            same_but_marking(old(dpb), dpb),
            dpb.numRefFrames == old(dpb).numRefFrames,
        decreases 16 - i,
    {
        let mut p = dpb.buffer[i as usize];
        if IS_REFERENCE(&p) {
            SET_UNUSED(&mut p);
            dpb.buffer.set(i as usize, p);
            if p.toBeDisplayed == 0 {
                dpb.fullness = dpb.fullness.wrapping_sub(1);
            }
        }
        i += 1;
    }
    if dpb.noReordering == 0 {
        output_all_pictures(dpb);
    }
    dpb.numRefFrames = 0;
    dpb.maxLongTermFrameIdx = NO_LONG_TERM_FRAME_INDICES;
    dpb.prevRefFrameNum = 0;
    HANTRO_OK
}


/// The buffer's sizes and the positions it holds are in range, as
/// marking keeps them.
pub open spec fn dpb_sized(d: &dpbStorage_t) -> bool {
    &&& d.buffer.len() == MAX_NUM_REF_IDX_L0_ACTIVE + 1
    &&& d.maxRefFrames <= 16
    &&& d.dpbSize <= 16
    &&& d.outBuf.len() == d.dpbSize + 1
    &&& d.currentOut < d.buffer.len()
}

/// The sizes of two states of the buffer agree.
pub open spec fn same_sizes(a: &dpbStorage_t, b: &dpbStorage_t) -> bool {
    &&& a.buffer.len() == b.buffer.len()
    &&& a.maxRefFrames == b.maxRefFrames
    &&& a.dpbSize == b.dpbSize
    &&& a.outBuf.len() == b.outBuf.len()
    &&& a.currentOut == b.currentOut
    &&& a.noReordering == b.noReordering
    &&& a.list@ == b.list@
    &&& a.pictures@ == b.pictures@
}

/// Set fields of the current picture.
fn set_current(dpb: &mut dpbStorage_t, status: u32, frameNum: u32, picNum: i32, picOrderCnt: i32, toBeDisplayed: u32)
    requires
        dpb_sized(old(dpb)),
    ensures
        same_sizes(old(dpb), final(dpb)),
        out_state(final(dpb)).1 == out_state(old(dpb)).1,
        final(dpb).numOut == old(dpb).numOut,
        final(dpb).fullness == old(dpb).fullness,
        final(dpb).numRefFrames == old(dpb).numRefFrames,
        final(dpb).maxLongTermFrameIdx == old(dpb).maxLongTermFrameIdx,
        final(dpb).prevRefFrameNum == old(dpb).prevRefFrameNum,
        final(dpb).lastContainsMmco5 == old(dpb).lastContainsMmco5,
        final(dpb).buffer@ == old(dpb).buffer@.update(
            old(dpb).currentOut as int,
            dpbPicture_t { status, frameNum, picNum, picOrderCnt, toBeDisplayed, ..old(dpb).buffer@[old(dpb).currentOut as int] },
        ),
        final(dpb).model() == m_set_current(old(dpb).model(), status, frameNum, picNum, picOrderCnt, toBeDisplayed),
        final(dpb).pictures@ == old(dpb).pictures@,
{
    let c = dpb.currentOut;
    let mut p = dpb.buffer[c];
    p.status = status;
    p.frameNum = frameNum;
    p.picNum = picNum;
    p.picOrderCnt = picOrderCnt;
    p.toBeDisplayed = toBeDisplayed;
    dpb.buffer.set(c, p);
}

/// Position of the first operation that ends the list (operation 0), from
/// `i` on.
pub open spec fn first_zero(ops: Seq<memoryManagementOperation_t>, i: int) -> int
    decreases 35 - i,
{
    if i >= 35 {
        35
    } else if ops[i].memoryManagementControlOperation == 0 {
        i
    } else {
        first_zero(ops, i + 1)
    }
}

proof fn lemma_first_zero(ops: Seq<memoryManagementOperation_t>, i: int)
    requires
        0 <= i <= 35,
    ensures
        i <= first_zero(ops, i) <= 35,
        forall|k: int| i <= k < first_zero(ops, i) ==> #[trigger] ops[k].memoryManagementControlOperation != 0,
        first_zero(ops, i) < 35 ==> ops[first_zero(ops, i)].memoryManagementControlOperation == 0,
    decreases 35 - i,
{
    if i < 35 && ops[i].memoryManagementControlOperation != 0 {
        lemma_first_zero(ops, i + 1);
    }
}

/// One memory management operation: the buffer, its status, the frame
/// number (operation 5 sets it to 0) and whether the current picture was
/// made long-term (operation 6).
pub open spec fn mmco_step(m: DpbModel, o: memoryManagementOperation_t, frameNum: u32, poc: i32, lt: bool) -> (
    DpbModel,
    u32,
    u32,
    bool,
) {
    let c = o.memoryManagementControlOperation;
    if c == 1 {
        let (m2, s2) = m_mmco1(m, frameNum, o.differenceOfPicNums);
        (m2, s2, frameNum, lt)
    } else if c == 2 {
        let (m2, s2) = m_mmco2(m, o.longTermPicNum);
        (m2, s2, frameNum, lt)
    } else if c == 3 {
        let (m2, s2) = m_mmco3(m, frameNum, o.differenceOfPicNums, o.longTermFrameIdx);
        (m2, s2, frameNum, lt)
    } else if c == 4 {
        (m_mmco4(m, o.maxLongTermFrameIdx), HANTRO_OK, frameNum, lt)
    } else if c == 5 {
        (DpbModel { lastContainsMmco5: HANTRO_TRUE, ..m_mmco5(m) }, HANTRO_OK, 0, lt)
    } else if c == 6 {
        let (m2, s2) = m_mmco6(m, frameNum, poc, o.longTermFrameIdx);
        (m2, s2, frameNum, lt || s2 == HANTRO_OK)
    } else {
        (m, HANTRO_NOK, frameNum, lt)
    }
}

/// The first `i` memory management operations, stopping at the first that
/// fails.
pub open spec fn mmco_run(m: DpbModel, ops: Seq<memoryManagementOperation_t>, frameNum: u32, poc: i32, i: nat) -> (
    DpbModel,
    u32,
    u32,
    bool,
)
    decreases i,
{
    if i == 0 {
        (m, HANTRO_OK, frameNum, false)
    } else {
        let r = mmco_run(m, ops, frameNum, poc, (i - 1) as nat);
        if r.1 != HANTRO_OK {
            r
        } else {
            mmco_step(r.0, ops[i - 1], r.2, poc, r.3)
        }
    }
}

proof fn lemma_mmco_run_stops(m: DpbModel, ops: Seq<memoryManagementOperation_t>, frameNum: u32, poc: i32, p: nat, q: nat)
    requires
        p <= q,
        mmco_run(m, ops, frameNum, poc, p).1 != HANTRO_OK,
    ensures
        mmco_run(m, ops, frameNum, poc, q) == mmco_run(m, ops, frameNum, poc, p),
    decreases q,
{
    if q > p {
        lemma_mmco_run_stops(m, ops, frameNum, poc, p, (q - 1) as nat);
    }
}

/// Marking of a reference picture that is not IDR: its memory management
/// operations (or the sliding window), then, unless operation 6 made it
/// long-term, the current picture stored as a short-term frame when there
/// is room (status HANTRO_NOK when there is none).
pub open spec fn mark_reference(m: DpbModel, mk: &decRefPicMarking_t, frameNum: u32, poc: i32) -> (u32, DpbModel) {
    let (ma, sa, fa, lt) = if mk.adaptiveRefPicMarkingModeFlag != 0 {
        mmco_run(m, mk.operation@, frameNum, poc, first_zero(mk.operation@, 0) as nat)
    } else {
        let (ms, ss) = m_sliding(m);
        (ms, ss, frameNum, false)
    };
    if lt {
        (sa, ma)
    } else if ma.numRefFrames < ma.maxRefFrames {
        let mc = m_set_current(ma, SHORT_TERM, fa, fa as i32, poc, display_flag(m));
        (sa, DpbModel { fullness: mc.fullness.wrapping_add(1), numRefFrames: (mc.numRefFrames + 1) as u32, ..mc })
    } else {
        (HANTRO_NOK, ma)
    }
}

/// Marking of an IDR picture: the buffer is emptied (its pictures put out
/// for display unless no_output_of_prior_pics or no reordering), and the
/// current picture becomes the only reference frame, long-term or short
/// term by long_term_reference_flag.
pub open spec fn mark_idr(m: DpbModel, mk: &decRefPicMarking_t) -> DpbModel {
    let a = m_mmco5(DpbModel { numOut: 0, outIndex: 0, ..m });
    let b = if mk.noOutputOfPriorPicsFlag != 0 || a.noReordering != 0 {
        DpbModel { numOut: 0, outIndex: 0, ..a }
    } else {
        a
    };
    let c = if mk.longTermReferenceFlag != 0 {
        DpbModel { maxLongTermFrameIdx: 0, ..m_set_current(b, LONG_TERM, 0, 0, 0, display_flag(m)) }
    } else {
        DpbModel { maxLongTermFrameIdx: NO_LONG_TERM_FRAME_INDICES, ..m_set_current(b, SHORT_TERM, 0, 0, 0, display_flag(m)) }
    };
    DpbModel { fullness: 1, numRefFrames: 1, ..c }
}

/// The whole marking of the decoded picture: status and buffer.
pub open spec fn mark_dec_ref_pic(
    m: DpbModel,
    mark: Option<&decRefPicMarking_t>,
    frameNum: u32,
    poc: i32,
    isIdr: u32,
    picId: u32,
    numErrMbs: u32,
) -> (u32, DpbModel) {
    let m0 = DpbModel { lastContainsMmco5: HANTRO_FALSE, ..m };
    let (st, m1) = match mark {
        None => {
            let mc = m_set_current(m0, UNUSED, frameNum, frameNum as i32, poc, display_flag(m));
            (HANTRO_OK, if m0.noReordering == 0 { DpbModel { fullness: mc.fullness.wrapping_add(1), ..mc } } else { mc })
        },
        Some(mk) => if isIdr != 0 {
            (HANTRO_OK, mark_idr(m0, mk))
        } else {
            mark_reference(m0, mk, frameNum, poc)
        },
    };
    let c = m1.currentOut as int;
    let p2 = dpbPicture_t { isIdr, picId, numErrMbs, ..m1.buffer[c] };
    let m2 = DpbModel { buffer: m1.buffer.update(c, p2), ..m1 };
    let m3 = if m2.noReordering != 0 {
        if (m2.numOut as int) < m2.outBuf.len() {
            DpbModel {
                outBuf: m2.outBuf.update(
                    m2.numOut as int,
                    dpbOutPicture_t { data: p2.data, picId: p2.picId, numErrMbs: p2.numErrMbs, isIdr: p2.isIdr },
                ),
                numOut: (m2.numOut + 1) as u32,
                ..m2
            }
        } else {
            m2
        }
    } else {
        m_output_while(m2, true)
    };
    (st, m_sort(m3))
}

/// Reference picture marking of the decoded picture, whose memory is
/// `image` (it must be the buffer's current picture): a non-reference
/// picture (no `mark`) is kept for display only; an IDR picture empties
/// the buffer and becomes its only reference frame; another reference
/// picture is marked by its memory management operations, or by the
/// sliding window, and kept as a short-term frame when there is room.
/// Pictures are then put out for display while the buffer is over its
/// size (at once when the buffer does not reorder), and the buffer is
/// sorted.
pub fn h264bsdMarkDecRefPic(
    dpb: &mut dpbStorage_t,
    mark: Option<&decRefPicMarking_t>,
    image: usize,
    frameNum: u32,
    picOrderCnt: i32,
    isIdr: u32,
    picId: u32,
    numErrMbs: u32,
) -> (r: u32)
    requires
        old(dpb).wf(),
        frameNum <= i32::MAX,
        mark matches Some(m) ==> (exists|k: int| 0 <= k < 35 && #[trigger] m.operation@[k].memoryManagementControlOperation == 0)
            && forall|k: int| 0 <= k < 35 ==> #[trigger] m.operation@[k].differenceOfPicNums <= i32::MAX,
    ensures
        image != old(dpb).buffer@[old(dpb).currentOut as int].data ==> r == HANTRO_NOK && *final(dpb) == *old(dpb),
        image == old(dpb).buffer@[old(dpb).currentOut as int].data ==> (r, final(dpb).model()) == mark_dec_ref_pic(
            old(dpb).model(),
            mark,
            frameNum,
            picOrderCnt,
            isIdr,
            picId,
            numErrMbs,
        ),
        final(dpb).pictures@ == old(dpb).pictures@,
        same_sizes(old(dpb), final(dpb)),
        image == old(dpb).buffer@[old(dpb).currentOut as int].data ==> sorted_pics(final(dpb).buffer@, old(dpb).dpbSize + 1),
{
    let c = dpb.currentOut;
    if image != dpb.buffer[c].data {
        return HANTRO_NOK;
    }
    let ghost d0 = *dpb;
    dpb.lastContainsMmco5 = HANTRO_FALSE;
    let ghost m0 = dpb.model();
    let mut status = HANTRO_OK;
    let toBeDisplayed = if dpb.noReordering != 0 {
        HANTRO_FALSE
    } else {
        HANTRO_TRUE
    };
    let frameNum0 = frameNum;
    let mut frameNum = frameNum;
    match mark {
        None => {
            set_current(dpb, UNUSED, frameNum, frameNum as i32, picOrderCnt, toBeDisplayed);
            if dpb.noReordering == 0 {
                dpb.fullness = dpb.fullness.wrapping_add(1);
            }
        },
        Some(m) => {
            if isIdr != 0 {
                dpb.numOut = 0;
                dpb.outIndex = 0;
                Mmcop5(dpb);
                if m.noOutputOfPriorPicsFlag != 0 || dpb.noReordering != 0 {
                    dpb.numOut = 0;
                    dpb.outIndex = 0;
                }
                if m.longTermReferenceFlag != 0 {
                    set_current(dpb, LONG_TERM, 0, 0, 0, toBeDisplayed);
                    dpb.maxLongTermFrameIdx = 0;
                } else {
                    set_current(dpb, SHORT_TERM, 0, 0, 0, toBeDisplayed);
                    dpb.maxLongTermFrameIdx = NO_LONG_TERM_FRAME_INDICES;
                }
                dpb.fullness = 1;
                dpb.numRefFrames = 1;
                assert(dpb.model() == mark_idr(m0, m));
            } else {
                let mut markedAsLongTerm = false;
                if m.adaptiveRefPicMarkingModeFlag != 0 {
                    proof {
                        lemma_first_zero(m.operation@, 0);
                    }
                    let ghost t = first_zero(m.operation@, 0);
                    let mut i: usize = 0;
                    while m.operation[i].memoryManagementControlOperation != 0
                        invariant_except_break
                            mmco_run(m0, m.operation@, frameNum0, picOrderCnt, i as nat) == (dpb.model(), status, frameNum, markedAsLongTerm),
                            status == HANTRO_OK,
                        invariant
                            i <= t,
                            t < 35,
                            t == first_zero(m.operation@, 0),
                            forall|k: int| 0 <= k < t ==> #[trigger] m.operation@[k].memoryManagementControlOperation != 0,
                            m.operation@[t].memoryManagementControlOperation == 0,
                            forall|k: int| 0 <= k < 35 ==> #[trigger] m.operation@[k].differenceOfPicNums <= i32::MAX,
                            frameNum <= i32::MAX,
                            dpb_sized(dpb),
                            same_sizes(&d0, dpb),
                            dpb.pictures@ == d0.pictures@,
                        ensures
                            mmco_run(m0, m.operation@, frameNum0, picOrderCnt, t as nat) == (dpb.model(), status, frameNum, markedAsLongTerm),
                            dpb_sized(dpb),
                            same_sizes(&d0, dpb),
                            dpb.pictures@ == d0.pictures@,
                        decreases t - i,
                    {
                        let op = m.operation[i];
                        let code = op.memoryManagementControlOperation;
                        if code == 1 {
                            status = Mmcop1(dpb, frameNum, op.differenceOfPicNums);
                        } else if code == 2 {
                            status = Mmcop2(dpb, op.longTermPicNum);
                        } else if code == 3 {
                            status = Mmcop3(dpb, frameNum, op.differenceOfPicNums, op.longTermFrameIdx);
                        } else if code == 4 {
                            status = Mmcop4(dpb, op.maxLongTermFrameIdx);
                        } else if code == 5 {
                            status = Mmcop5(dpb);
                            dpb.lastContainsMmco5 = HANTRO_TRUE;
                            frameNum = 0;
                        } else if code == 6 {
                            status = Mmcop6(dpb, frameNum, picOrderCnt, op.longTermFrameIdx);
                            if status == HANTRO_OK {
                                markedAsLongTerm = true;
                            }
                        } else {
                            status = HANTRO_NOK;
                        }
                        assert(mmco_run(m0, m.operation@, frameNum0, picOrderCnt, (i + 1) as nat) == (dpb.model(), status, frameNum, markedAsLongTerm));
                        if status != HANTRO_OK {
                            proof {
                                lemma_mmco_run_stops(m0, m.operation@, frameNum0, picOrderCnt, (i + 1) as nat, t as nat);
                            }
                            break;
                        }
                        i += 1;
                    }
                    assert((dpb.model(), status, frameNum, markedAsLongTerm) == mmco_run(m0, m.operation@, frameNum0, picOrderCnt, first_zero(m.operation@, 0) as nat));
                } else {
                    status = SlidingWindowRefPicMarking(dpb);
                    assert((dpb.model(), status) == m_sliding(m0));
                }
                if !markedAsLongTerm {
                    if dpb.numRefFrames < dpb.maxRefFrames {
                        set_current(dpb, SHORT_TERM, frameNum, frameNum as i32, picOrderCnt, toBeDisplayed);
                        dpb.fullness = dpb.fullness.wrapping_add(1);
                        dpb.numRefFrames += 1;
                    } else {
                        status = HANTRO_NOK;
                    }
                }
                assert((status, dpb.model()) == mark_reference(m0, m, frameNum0, picOrderCnt));
            }
        },
    }
    let ghost d1 = *dpb;
    assert((status, dpb.model()) == ({
        let m1 = DpbModel { lastContainsMmco5: HANTRO_FALSE, ..old(dpb).model() };
        match mark {
            None => {
                let mc = m_set_current(m1, UNUSED, frameNum0, frameNum0 as i32, picOrderCnt, display_flag(old(dpb).model()));
                (HANTRO_OK, if m1.noReordering == 0 { DpbModel { fullness: mc.fullness.wrapping_add(1), ..mc } } else { mc })
            },
            Some(mk) => if isIdr != 0 {
                (HANTRO_OK, mark_idr(m1, mk))
            } else {
                mark_reference(m1, mk, frameNum0, picOrderCnt)
            },
        }
    }));
    let c = dpb.currentOut;
    let mut p = dpb.buffer[c];
    p.isIdr = isIdr;
    p.picId = picId;
    p.numErrMbs = numErrMbs;
    dpb.buffer.set(c, p);
    let ghost m2 = dpb.model();
    if dpb.noReordering != 0 {
        let n = dpb.numOut as usize;
        if n < dpb.outBuf.len() {
            dpb.outBuf.set(n, dpbOutPicture_t { data: p.data, picId: p.picId, numErrMbs: p.numErrMbs, isIdr: p.isIdr });
            dpb.numOut += 1;
        }
    } else {
        while dpb.fullness > dpb.dpbSize
            invariant
                dpb_sized(dpb),
                same_sizes(&d0, dpb),
                dpb.pictures@ == d0.pictures@,
                dpb.noReordering == 0,
                m_output_while(dpb.model(), true) == m_output_while(m2, true),
            ensures
                m_output_while(dpb.model(), true) == m_output_while(m2, true),
                m_output_while(dpb.model(), true) == dpb.model(),
                dpb_sized(dpb),
                same_sizes(&d0, dpb),
                dpb.pictures@ == d0.pictures@,
            decreases displayable(dpb.buffer@, dpb.dpbSize + 1),
        {
            let ghost mb = dpb.model();
            if OutputPicture(dpb) != HANTRO_OK {
                assert(!can_output((mb.buffer, mb.outBuf, mb.numOut, mb.fullness), mb.dpbSize as int));
                break;
            }
            assert(m_output_while(mb, true) == m_output_while(dpb.model(), true));
        }
        assert(dpb.model() == m_output_while(m2, true));
    }
    let ghost m3 = dpb.model();
    ShellSort(&mut dpb.buffer, dpb.dpbSize + 1);
    status
}

/// Take the last position of the buffer (dpbSize) for the picture to be
/// decoded and give its memory.
pub fn h264bsdAllocateDpbImage(dpb: &mut dpbStorage_t) -> (r: usize)
    requires
        old(dpb).wf(),
    ensures
        final(dpb).wf(),
        final(dpb).currentOut == old(dpb).dpbSize,
        r == old(dpb).buffer@[old(dpb).dpbSize as int].data,
        r < final(dpb).pictures.len(),
        final(dpb).buffer@ == old(dpb).buffer@,
        out_state(final(dpb)) == out_state(old(dpb)),
        final(dpb).numRefFrames == old(dpb).numRefFrames,
        final(dpb).list@ == old(dpb).list@,
        final(dpb).pictures@ == old(dpb).pictures@,
{
    dpb.currentOut = dpb.dpbSize as usize;
    dpb.buffer[dpb.currentOut].data
}

/// A picture slot of an empty buffer with memory `data`.
pub open spec fn empty_pic(data: usize) -> dpbPicture_t {
    dpbPicture_t {
        data,
        picNum: 0,
        frameNum: 0,
        picOrderCnt: 0,
        status: UNUSED,
        toBeDisplayed: 0,
        picId: 0,
        numErrMbs: 0,
        isIdr: 0,
    }
}

/// Initialise the buffer for pictures of picSizeInMbs macroblocks: at
/// most numRefFrames (at least one) reference frames, dpbSize pictures
/// kept for display reordering (only the reference frames when
/// noReordering), each of the dpbSize + 1 positions with its own memory,
/// and nothing in the buffer, the list or the output.
pub fn h264bsdInitDpb(
    dpb: &mut dpbStorage_t,
    picSizeInMbs: u32,
    dpbSize: u32,
    numRefFrames: u32,
    maxFrameNum: u32,
    noReordering: u32,
) -> (r: u32)
    requires
        numRefFrames <= 16,
        dpbSize <= 16,
        picSizeInMbs * 384 <= usize::MAX,
    ensures
        r == HANTRO_OK,
        final(dpb).wf(),
        final(dpb).maxRefFrames == if numRefFrames > 1 { numRefFrames } else { 1 },
        final(dpb).dpbSize == if noReordering != 0 { final(dpb).maxRefFrames } else { dpbSize },
        final(dpb).maxFrameNum == maxFrameNum,
        final(dpb).noReordering == noReordering,
        final(dpb).maxLongTermFrameIdx == NO_LONG_TERM_FRAME_INDICES,
        final(dpb).fullness == 0,
        final(dpb).numRefFrames == 0,
        final(dpb).prevRefFrameNum == 0,
        final(dpb).numOut == 0,
        final(dpb).outIndex == 0,
        final(dpb).pictures.len() == final(dpb).dpbSize + 1,
        forall|i: int| 0 <= i < final(dpb).pictures.len() ==> (#[trigger] final(dpb).pictures@[i])@.len() == picSizeInMbs * 384,
        forall|i: int|
            0 <= i < final(dpb).buffer.len() ==> #[trigger] final(dpb).buffer@[i] == empty_pic(
                if i <= final(dpb).dpbSize { i as usize } else { 0 },
            ),
        forall|i: int| 0 <= i < final(dpb).list.len() ==> #[trigger] final(dpb).list@[i] is None,
{
    dpb.maxLongTermFrameIdx = NO_LONG_TERM_FRAME_INDICES;
    dpb.maxRefFrames = if numRefFrames > 1 {
        numRefFrames
    } else {
        1
    };
    if noReordering != 0 {
        dpb.dpbSize = dpb.maxRefFrames;
    } else {
        dpb.dpbSize = dpbSize;
    }
    dpb.maxFrameNum = maxFrameNum;
    dpb.noReordering = noReordering;
    dpb.fullness = 0;
    dpb.numRefFrames = 0;
    dpb.prevRefFrameNum = 0;
    let size = dpb.dpbSize;
    let mut buffer: Vec<dpbPicture_t> = Vec::new();
    let mut pictures: Vec<Vec<u8>> = Vec::new();
    let mut i: u32 = 0;
    while i < MAX_NUM_REF_IDX_L0_ACTIVE + 1
        invariant
            i <= MAX_NUM_REF_IDX_L0_ACTIVE + 1,
            size <= 16,
            picSizeInMbs * 384 <= usize::MAX,
            buffer.len() == i,
            pictures.len() == if i <= size + 1 { i as int } else { size + 1 },
            forall|k: int| 0 <= k < pictures.len() ==> (#[trigger] pictures@[k])@.len() == picSizeInMbs * 384,
            forall|k: int| 0 <= k < i ==> #[trigger] buffer@[k] == empty_pic(if k <= size { k as usize } else { 0 }),
        decreases MAX_NUM_REF_IDX_L0_ACTIVE + 1 - i,
    {
        if i <= size {
            pictures.push(vec![0u8; picSizeInMbs as usize * 384]);
            buffer.push(dpbPicture_t {
                data: i as usize,
                picNum: 0,
                frameNum: 0,
                picOrderCnt: 0,
                status: UNUSED,
                toBeDisplayed: 0,
                picId: 0,
                numErrMbs: 0,
                isIdr: 0,
            });
        } else {
            buffer.push(dpbPicture_t {
                data: 0,
                picNum: 0,
                frameNum: 0,
                picOrderCnt: 0,
                status: UNUSED,
                toBeDisplayed: 0,
                picId: 0,
                numErrMbs: 0,
                isIdr: 0,
            });
        }
        i += 1;
    }
    dpb.buffer = buffer;
    dpb.pictures = pictures;
    dpb.list = vec![None; 17];
    dpb.outBuf = vec![dpbOutPicture_t { data: 0, picId: 0, numErrMbs: 0, isIdr: 0 }; size as usize + 1];
    dpb.currentOut = 0;
    dpb.numOut = 0;
    dpb.outIndex = 0;
    HANTRO_OK
}


/// The entries of `s` other than the picture at buffer position `pos`, in
/// order.
pub open spec fn keep_others(s: Seq<Option<usize>>, pos: usize) -> Seq<Option<usize>>
    decreases s.len(),
{
    if s.len() == 0 {
        s
    } else {
        let k = keep_others(s.drop_last(), pos);
        if s.last() != Some(pos) {
            k.push(s.last())
        } else {
            k
        }
    }
}

proof fn lemma_keep_others_len(s: Seq<Option<usize>>, pos: usize)
    ensures
        keep_others(s, pos).len() <= s.len(),
    decreases s.len(),
{
    if s.len() > 0 {
        lemma_keep_others_len(s.drop_last(), pos);
    }
}

/// The list with entries refIdx..n moved one down and the picture at
/// buffer position `pos` in entry refIdx.
pub open spec fn list_shift(l: Seq<Option<usize>>, refIdx: int, n: int, pos: usize) -> Seq<Option<usize>> {
    Seq::new(l.len(), |j: int| if refIdx < j <= n { l[j - 1] } else if j == refIdx { Some(pos) } else { l[j] })
}

/// The list after putting the picture at buffer position `pos` into entry
/// `refIdx` of the `n + 1` active entries: the entries from `refIdx` on
/// move one down, and later entries of the same picture are removed (the
/// entries freed at the end keep what they held).
pub open spec fn list_put(l: Seq<Option<usize>>, refIdx: int, n: int, pos: usize) -> Seq<Option<usize>> {
    let l2 = list_shift(l, refIdx, n, pos);
    let f = if refIdx + 1 <= n + 1 {
        keep_others(l2.subrange(refIdx + 1, n + 1), pos)
    } else {
        Seq::empty()
    };
    Seq::new(l.len(), |j: int| if refIdx + 1 <= j < refIdx + 1 + f.len() { f[j - refIdx - 1] } else { l2[j] })
}

/// No entry kept names the picture left out.
proof fn lemma_keep_others_without(s: Seq<Option<usize>>, pos: usize)
    ensures
        forall|i: int| 0 <= i < keep_others(s, pos).len() ==> #[trigger] keep_others(s, pos)[i] != Some(pos),
    decreases s.len(),
{
    if s.len() > 0 {
        lemma_keep_others_without(s.drop_last(), pos);
        let k = keep_others(s.drop_last(), pos);
        let r = keep_others(s, pos);
        assert forall|i: int| 0 <= i < r.len() implies #[trigger] r[i] != Some(pos) by {
            if i < k.len() {
                assert(k[i] != Some(pos));
            }
        }
    }
}

/// After a reordering command puts a picture into entry `refIdx`, the
/// entry names it, the entries before it are unchanged, and none of the
/// active entries moved up after it names it again.
pub proof fn lemma_list_put(l: Seq<Option<usize>>, refIdx: int, n: int, pos: usize)
    requires
        0 <= refIdx < l.len(),
        n < l.len(),
    ensures
        list_put(l, refIdx, n, pos).len() == l.len(),
        list_put(l, refIdx, n, pos)[refIdx] == Some(pos),
        forall|j: int| 0 <= j < refIdx ==> #[trigger] list_put(l, refIdx, n, pos)[j] == l[j],
        forall|j: int|
            refIdx < j <= n && #[trigger] list_put(l, refIdx, n, pos)[j] == Some(pos) ==> j >= refIdx + 1 + keep_others(
                list_shift(l, refIdx, n, pos).subrange(refIdx + 1, n + 1),
                pos,
            ).len(),
{
    if refIdx + 1 <= n + 1 {
        lemma_keep_others_without(list_shift(l, refIdx, n, pos).subrange(refIdx + 1, n + 1), pos);
    }
}

/// Put the picture at buffer position `pos` into list entry `refIdx`.
fn put_in_list(list: &mut Vec<Option<usize>>, refIdx: u32, n: u32, pos: usize)
    requires
        old(list).len() == MAX_NUM_REF_IDX_L0_ACTIVE + 1,
        refIdx <= 16,
        n <= 16,
    ensures
        final(list)@ == list_put(old(list)@, refIdx as int, n as int, pos),
{
    let ghost l0 = list@;
    let mut j: u32 = n;
    while j > refIdx
        invariant
            j <= n,
            refIdx <= j || j == n,
            n <= 16,
            list.len() == 17,
            forall|k: int|
                0 <= k < 17 ==> #[trigger] list@[k] == if j < k <= n {
                    l0[k - 1]
                } else {
                    l0[k]
                },
        decreases j,
    {
        let v = list[(j - 1) as usize];
        list.set(j as usize, v);
        j -= 1;
    }
    list.set(refIdx as usize, Some(pos));
    let ghost l2 = list_shift(l0, refIdx as int, n as int, pos);
    assert(list@ =~= l2);
    if refIdx < n {
        let mut j: u32 = refIdx + 1;
        let mut k: u32 = refIdx + 1;
        while j <= n
            invariant
                refIdx + 1 <= k <= j,
                j <= n + 1,
                l2.len() == 17,
                n <= 16,
                refIdx <= 16,
                list.len() == 17,
                j - (refIdx + 1) <= n + 1 - (refIdx + 1),
                keep_others(l2.subrange(refIdx + 1, j as int), pos).len() == k - (refIdx + 1),
                forall|t: int|
                    0 <= t < 17 ==> #[trigger] list@[t] == if refIdx + 1 <= t < k {
                        keep_others(l2.subrange(refIdx + 1, j as int), pos)[t - refIdx - 1]
                    } else {
                        l2[t]
                    },
            decreases n + 1 - j,
        {
            let ghost prev = l2.subrange(refIdx + 1, j as int);
            let ghost next = l2.subrange(refIdx + 1, j + 1);
            assert(next.drop_last() =~= prev);
            assert(next.last() == l2[j as int]);
            proof {
                lemma_keep_others_len(prev, pos);
            }
            let v = list[j as usize];
            if v != Some(pos) {
                list.set(k as usize, v);
                k += 1;
            }
            j += 1;
        }
        assert(list@ =~= list_put(l0, refIdx as int, n as int, pos));
    }
    proof {
        if refIdx == n {
            assert(l2.subrange(refIdx + 1, n + 1).len() == 0);
            assert(keep_others(l2.subrange(refIdx + 1, n + 1), pos).len() == 0);
            assert(list@ =~= list_put(l0, refIdx as int, n as int, pos));
        } else if refIdx > n {
            assert(list@ =~= list_put(l0, refIdx as int, n as int, pos));
        }
    }
}


/// The buffer after SetPicNums.
pub open spec fn pic_nums_set(buf: Seq<dpbPicture_t>, numRefFrames: u32, currFrameNum: u32, maxFrameNum: u32) -> Seq<dpbPicture_t> {
    Seq::new(
        buf.len(),
        |i: int|
            if i < numRefFrames && is_short_term(buf[i]) {
                dpbPicture_t { picNum: pic_num_of(buf[i].frameNum, currFrameNum, maxFrameNum), ..buf[i] }
            } else {
                buf[i]
            },
    )
}

/// Position of the first command that ends the reordering commands
/// (reordering_of_pic_nums_idc 3 or more) from `i` on.
pub open spec fn first_end(cmds: Seq<refPicListReorderingOperation_t>, i: int) -> int
    decreases 17 - i,
{
    if i >= 17 {
        17
    } else if cmds[i].reorderingOfPicNumsIdc >= 3 {
        i
    } else {
        first_end(cmds, i + 1)
    }
}

/// The picture a reordering command names, given the prediction `pred`
/// of the picture number: (picture number, short term, next prediction).
pub open spec fn cmd_target(c: refPicListReorderingOperation_t, pred: int, curr: int, max: int) -> (int, bool, int) {
    if c.reorderingOfPicNumsIdc < 2 {
        let nw = if c.reorderingOfPicNumsIdc == 0 {
            if pred - c.absDiffPicNum < 0 {
                pred - c.absDiffPicNum + max
            } else {
                pred - c.absDiffPicNum
            }
        } else {
            if pred + c.absDiffPicNum >= max {
                pred + c.absDiffPicNum - max
            } else {
                pred + c.absDiffPicNum
            }
        };
        (if nw > curr { nw - max } else { nw }, true, nw)
    } else {
        (c.longTermPicNum as int, false, pred)
    }
}

/// List, prediction and success after the first `i` reordering commands:
/// each puts the picture it names into the next list entry, and fails
/// when that picture is not in the buffer or does not exist.
pub open spec fn reorder_run(
    buf: Seq<dpbPicture_t>,
    list: Seq<Option<usize>>,
    cmds: Seq<refPicListReorderingOperation_t>,
    curr: int,
    max: int,
    maxRef: int,
    n: int,
    i: nat,
) -> (Seq<Option<usize>>, int, bool)
    decreases i,
{
    if i == 0 {
        (list, curr, true)
    } else {
        let (l, p, ok) = reorder_run(buf, list, cmds, curr, max, maxRef, n, (i - 1) as nat);
        if !ok {
            (l, p, false)
        } else {
            let (pn, st, np) = cmd_target(cmds[i - 1], p, curr, max);
            let idx = find_pic(buf, maxRef, pn as i32, st);
            if idx < 0 || !is_existing(buf[idx]) {
                (l, np, false)
            } else {
                (list_put(l, i - 1, n, idx as usize), np, true)
            }
        }
    }
}

proof fn lemma_first_end(cmds: Seq<refPicListReorderingOperation_t>, i: int)
    requires
        0 <= i <= 17,
    ensures
        i <= first_end(cmds, i) <= 17,
        forall|k: int| i <= k < first_end(cmds, i) ==> #[trigger] cmds[k].reorderingOfPicNumsIdc < 3,
        first_end(cmds, i) < 17 ==> cmds[first_end(cmds, i)].reorderingOfPicNumsIdc >= 3,
    decreases 17 - i,
{
    if i < 17 && cmds[i].reorderingOfPicNumsIdc < 3 {
        lemma_first_end(cmds, i + 1);
    }
}

/// Once a command fails, later ones change nothing.
proof fn lemma_reorder_stops(
    buf: Seq<dpbPicture_t>,
    list: Seq<Option<usize>>,
    cmds: Seq<refPicListReorderingOperation_t>,
    curr: int,
    max: int,
    maxRef: int,
    n: int,
    p: nat,
    q: nat,
)
    requires
        p <= q,
        !reorder_run(buf, list, cmds, curr, max, maxRef, n, p).2,
    ensures
        reorder_run(buf, list, cmds, curr, max, maxRef, n, q) == reorder_run(buf, list, cmds, curr, max, maxRef, n, p),
    decreases q,
{
    if q > p {
        lemma_reorder_stops(buf, list, cmds, curr, max, maxRef, n, p, (q - 1) as nat);
    }
}

/// The entry names a position of the buffer, when it names one.
pub open spec fn entry_ok(x: Option<usize>) -> bool {
    x matches Some(s) ==> s < MAX_NUM_REF_IDX_L0_ACTIVE + 1
}

proof fn lemma_keep_others_ok(s: Seq<Option<usize>>, pos: usize)
    requires
        forall|i: int| 0 <= i < s.len() ==> entry_ok(#[trigger] s[i]),
    ensures
        forall|i: int| 0 <= i < keep_others(s, pos).len() ==> entry_ok(#[trigger] keep_others(s, pos)[i]),
    decreases s.len(),
{
    if s.len() > 0 {
        let d = s.drop_last();
        assert forall|i: int| 0 <= i < d.len() implies entry_ok(#[trigger] d[i]) by {
            assert(d[i] == s[i]);
        }
        lemma_keep_others_ok(d, pos);
        assert(entry_ok(s[s.len() - 1]));
        let k = keep_others(d, pos);
        let r = keep_others(s, pos);
        assert(r == if s.last() != Some(pos) { k.push(s.last()) } else { k });
        assert forall|i: int| 0 <= i < r.len() implies entry_ok(#[trigger] r[i]) by {
            if i < k.len() {
                assert(entry_ok(k[i]));
            }
        }
    }
}

proof fn lemma_list_put_ok(l: Seq<Option<usize>>, refIdx: int, n: int, pos: usize)
    requires
        forall|i: int| 0 <= i < l.len() ==> entry_ok(#[trigger] l[i]),
        pos < MAX_NUM_REF_IDX_L0_ACTIVE + 1,
        0 <= refIdx < l.len(),
        n < l.len(),
    ensures
        forall|i: int| 0 <= i < l.len() ==> entry_ok(#[trigger] list_put(l, refIdx, n, pos)[i]),
        list_put(l, refIdx, n, pos).len() == l.len(),
{
    let l2 = list_shift(l, refIdx, n, pos);
    assert forall|i: int| 0 <= i < l2.len() implies entry_ok(#[trigger] l2[i]) by {
    }
    if refIdx + 1 <= n + 1 {
        let sub = l2.subrange(refIdx + 1, n + 1);
        assert forall|i: int| 0 <= i < sub.len() implies entry_ok(#[trigger] sub[i]) by {
            assert(sub[i] == l2[refIdx + 1 + i]);
        }
        lemma_keep_others_ok(sub, pos);
    }
}

/// Reference picture list reordering: set the picture numbers, then, when
/// the slice asks for it, put the pictures its commands name into the
/// list one after the other. HANTRO_NOK when a command names a picture
/// that is not in the buffer or does not exist.
pub fn h264bsdReorderRefPicList(
    dpb: &mut dpbStorage_t,
    order: &refPicListReordering_t,
    currFrameNum: u32,
    numRefIdxActive: u32,
) -> (r: u32)
    requires
        old(dpb).wf(),
        currFrameNum < old(dpb).maxFrameNum <= 65536,
        numRefIdxActive <= 16,
        forall|i: int| 0 <= i < old(dpb).buffer.len() ==> (#[trigger] old(dpb).buffer@[i]).frameNum <= 65536,
        forall|k: int|
            0 <= k < 17 ==> (#[trigger] order.command@[k]).absDiffPicNum <= old(dpb).maxFrameNum
                && order.command@[k].longTermPicNum <= 65536,
        order.refPicListReorderingFlagL0 != 0 ==> exists|k: int|
            0 <= k < 17 && #[trigger] order.command@[k].reorderingOfPicNumsIdc >= 3,
    ensures
        final(dpb).wf(),
        final(dpb).buffer@ == pic_nums_set(old(dpb).buffer@, old(dpb).numRefFrames, currFrameNum, old(dpb).maxFrameNum),
        out_state(final(dpb)).1 == out_state(old(dpb)).1,
        final(dpb).numRefFrames == old(dpb).numRefFrames,
        final(dpb).fullness == old(dpb).fullness,
        order.refPicListReorderingFlagL0 == 0 ==> r == HANTRO_OK && final(dpb).list@ == old(dpb).list@,
        order.refPicListReorderingFlagL0 != 0 ==> {
            let (l, p, ok) = reorder_run(
                final(dpb).buffer@,
                old(dpb).list@,
                order.command@,
                currFrameNum as int,
                old(dpb).maxFrameNum as int,
                old(dpb).maxRefFrames as int,
                numRefIdxActive as int,
                first_end(order.command@, 0) as nat,
            );
            &&& r == if ok { HANTRO_OK } else { HANTRO_NOK }
            &&& final(dpb).list@ == l
        },
{
    SetPicNums(dpb, currFrameNum);
    assert(dpb.buffer@ =~= pic_nums_set(old(dpb).buffer@, old(dpb).numRefFrames, currFrameNum, old(dpb).maxFrameNum));
    if order.refPicListReorderingFlagL0 == 0 {
        return HANTRO_OK;
    }
    proof {
        lemma_first_end(order.command@, 0);
    }
    let ghost buf = dpb.buffer@;
    let ghost l0 = dpb.list@;
    let ghost t = first_end(order.command@, 0);
    let mut picNumPred: u32 = currFrameNum;
    let mut i: u32 = 0;
    while order.command[i as usize].reorderingOfPicNumsIdc < 3
        invariant
            i <= t,
            t < 17,
            t == first_end(order.command@, 0),
            forall|k: int| 0 <= k < t ==> #[trigger] order.command@[k].reorderingOfPicNumsIdc < 3,
            order.command@[t].reorderingOfPicNumsIdc >= 3,
            dpb.wf(),
            dpb.buffer@ == buf,
            l0 == old(dpb).list@,
            buf == pic_nums_set(old(dpb).buffer@, old(dpb).numRefFrames, currFrameNum, old(dpb).maxFrameNum),
            order.refPicListReorderingFlagL0 != 0,
            dpb.maxFrameNum == old(dpb).maxFrameNum,
            dpb.maxRefFrames == old(dpb).maxRefFrames,
            out_state(dpb).1 == out_state(old(dpb)).1,
            dpb.numRefFrames == old(dpb).numRefFrames,
            dpb.fullness == old(dpb).fullness,
            currFrameNum < dpb.maxFrameNum <= 65536,
            numRefIdxActive <= 16,
            forall|k: int|
                0 <= k < 17 ==> (#[trigger] order.command@[k]).absDiffPicNum <= dpb.maxFrameNum
                    && order.command@[k].longTermPicNum <= 65536,
            picNumPred < dpb.maxFrameNum,
            reorder_run(
                buf,
                l0,
                order.command@,
                currFrameNum as int,
                dpb.maxFrameNum as int,
                dpb.maxRefFrames as int,
                numRefIdxActive as int,
                i as nat,
            ) == (dpb.list@, picNumPred as int, true),
        decreases t - i,
    {
        let c = order.command[i as usize];
        let picNum: i32;
        let isShortTerm: u32;
        if c.reorderingOfPicNumsIdc < 2 {
            let mut picNumNoWrap: i32;
            if c.reorderingOfPicNumsIdc == 0 {
                picNumNoWrap = picNumPred as i32 - c.absDiffPicNum as i32;
                if picNumNoWrap < 0 {
                    picNumNoWrap += dpb.maxFrameNum as i32;
                }
            } else {
                picNumNoWrap = (picNumPred + c.absDiffPicNum) as i32;
                if picNumNoWrap >= dpb.maxFrameNum as i32 {
                    picNumNoWrap -= dpb.maxFrameNum as i32;
                }
            }
            picNumPred = picNumNoWrap as u32;
            let mut pn = picNumNoWrap;
            if picNumNoWrap as u32 > currFrameNum {
                pn -= dpb.maxFrameNum as i32;
            }
            picNum = pn;
            isShortTerm = HANTRO_TRUE;
        } else {
            picNum = c.longTermPicNum as i32;
            isShortTerm = HANTRO_FALSE;
        }
        let index = FindDpbPic(dpb, picNum, isShortTerm);
        if index < 0 || !IS_EXISTING(&dpb.buffer[index as usize]) {
            proof {
                lemma_reorder_stops(
                    buf,
                    l0,
                    order.command@,
                    currFrameNum as int,
                    dpb.maxFrameNum as int,
                    dpb.maxRefFrames as int,
                    numRefIdxActive as int,
                    (i + 1) as nat,
                    t as nat,
                );
            }
            return HANTRO_NOK;
        }
        proof {
            assert forall|k: int| 0 <= k < dpb.list.len() implies entry_ok(#[trigger] dpb.list@[k]) by {
            }
            lemma_list_put_ok(dpb.list@, i as int, numRefIdxActive as int, index as usize);
        }
        put_in_list(&mut dpb.list, i, numRefIdxActive, index as usize);
        proof {
            assert forall|k: int| 0 <= k < dpb.list.len() implies (#[trigger] dpb.list@[k] matches Some(s) ==> s < dpb.buffer.len()) by {
                assert(entry_ok(dpb.list@[k]));
            }
        }
        i += 1;
    }
    assert(order.command@[i as int].reorderingOfPicNumsIdc >= 3);
    assert(i == t);
    HANTRO_OK
}


/// Free the buffer's memory: the pictures, the list, the output buffer
/// and the sample memory are emptied.
pub fn h264bsdFreeDpb(dpb: &mut dpbStorage_t)
    ensures
        final(dpb).buffer@.len() == 0,
        final(dpb).list@.len() == 0,
        final(dpb).outBuf@.len() == 0,
        final(dpb).pictures@.len() == 0,
        final(dpb).dpbSize == old(dpb).dpbSize,
        final(dpb).numRefFrames == old(dpb).numRefFrames,
        final(dpb).fullness == old(dpb).fullness,
{
    dpb.buffer = Vec::new();
    dpb.list = Vec::new();
    dpb.outBuf = Vec::new();
    dpb.pictures = Vec::new();
}

/// Free the buffer and initialise it anew, as h264bsdInitDpb does.
pub fn h264bsdResetDpb(
    dpb: &mut dpbStorage_t,
    picSizeInMbs: u32,
    dpbSize: u32,
    numRefFrames: u32,
    maxFrameNum: u32,
    noReordering: u32,
) -> (r: u32)
    requires
        numRefFrames <= 16,
        dpbSize <= 16,
        picSizeInMbs * 384 <= usize::MAX,
    ensures
        r == HANTRO_OK,
        final(dpb).wf(),
        final(dpb).maxRefFrames == if numRefFrames > 1 { numRefFrames } else { 1 },
        final(dpb).dpbSize == if noReordering != 0 { final(dpb).maxRefFrames } else { dpbSize },
        final(dpb).maxFrameNum == maxFrameNum,
        final(dpb).noReordering == noReordering,
        final(dpb).maxLongTermFrameIdx == NO_LONG_TERM_FRAME_INDICES,
        final(dpb).fullness == 0,
        final(dpb).numRefFrames == 0,
        final(dpb).prevRefFrameNum == 0,
        final(dpb).numOut == 0,
        final(dpb).outIndex == 0,
        final(dpb).pictures.len() == final(dpb).dpbSize + 1,
        forall|i: int| 0 <= i < final(dpb).pictures.len() ==> (#[trigger] final(dpb).pictures@[i])@.len() == picSizeInMbs * 384,
        forall|i: int|
            0 <= i < final(dpb).buffer.len() ==> #[trigger] final(dpb).buffer@[i] == empty_pic(
                if i <= final(dpb).dpbSize { i as usize } else { 0 },
            ),
        forall|i: int| 0 <= i < final(dpb).list.len() ==> #[trigger] final(dpb).list@[i] is None,
{
    h264bsdFreeDpb(dpb);
    h264bsdInitDpb(dpb, picSizeInMbs, dpbSize, numRefFrames, maxFrameNum, noReordering)
}


/// A reordering of the pictures keeps every picture's memory among the
/// buffer's memories.
proof fn lemma_permuted_data(s: Seq<dpbPicture_t>, t: Seq<dpbPicture_t>, n: nat)
    requires
        t.to_multiset() == s.to_multiset(),
        forall|i: int| 0 <= i < s.len() ==> (#[trigger] s[i]).data < n,
    ensures
        forall|i: int| 0 <= i < t.len() ==> (#[trigger] t[i]).data < n,
{
    assert forall|i: int| 0 <= i < t.len() implies (#[trigger] t[i]).data < n by {
        vstd::seq_lib::to_multiset_contains(t, t[i]);
        vstd::seq_lib::to_multiset_contains(s, t[i]);
        assert(t.contains(t[i]));
        let j = choose|j: int| 0 <= j < s.len() && s[j] == t[i];
        assert(s[j].data < n);
    }
}

/// Frames between `from` and `to` in frame_num order, modulo `max`.
pub open spec fn frame_dist(to: int, from: int, max: int) -> int {
    if to >= from {
        to - from
    } else {
        to + max - from
    }
}

/// Frame `f` as a non-existing short-term frame in picture slot `p`.
pub open spec fn non_existing(p: dpbPicture_t, f: u32) -> dpbPicture_t {
    dpbPicture_t { status: NON_EXISTING, frameNum: f, picNum: f as i32, picOrderCnt: 0, toBeDisplayed: HANTRO_FALSE, ..p }
}

/// The gap in frame numbers from `u` up to, not including, `frameNum`
/// filled: for each missing frame number, the picture numbers are set
/// relative to it, the sliding window marks (the filling stops, failing,
/// when it finds nothing to remove), pictures are put out for display
/// while the buffer is full, the frame enters at position dpbSize as a
/// non-existing short-term frame, and the buffer is sorted.
pub open spec fn gap_fill(m: DpbModel, frameNum: u32, u: u32, max: u32) -> (DpbModel, bool)
    decreases frame_dist(frameNum as int, u as int, max as int),
    when u < max && frameNum < max
{
    if u == frameNum {
        (m, true)
    } else {
        let m1 = DpbModel { buffer: pic_nums_set(m.buffer, m.numRefFrames, u, max), ..m };
        let (m2, st) = m_sliding(m1);
        if st != HANTRO_OK {
            (m2, false)
        } else {
            let m3 = m_output_while(m2, false);
            let c = m3.dpbSize as int;
            let m4 = DpbModel {
                buffer: m3.buffer.update(c, non_existing(m3.buffer[c], u)),
                fullness: m3.fullness.wrapping_add(1),
                numRefFrames: (m3.numRefFrames + 1) as u32,
                ..m3
            };
            let m5 = m_sort(m4);
            proof {
                if u + 1 < max {
                    vstd::arithmetic::div_mod::lemma_small_mod((u + 1) as nat, max as nat);
                } else {
                    vstd::arithmetic::div_mod::lemma_mod_self_0(max as int);
                }
            }
            gap_fill(m5, frameNum, ((u + 1) % (max as int)) as u32, max)
        }
    }
}

/// Position of the first of pictures i..n with memory `d`; -1 if none.
pub open spec fn first_with_data(buf: Seq<dpbPicture_t>, i: int, n: int, d: usize) -> int
    decreases n - i,
{
    if i >= n {
        -1
    } else if buf[i].data == d {
        i
    } else {
        first_with_data(buf, i + 1, n, d)
    }
}

/// One of output pictures i..n has memory `d`.
pub open spec fn out_has(out: Seq<dpbOutPicture_t>, i: int, n: int, d: usize) -> bool
    decreases n - i,
{
    if i >= n {
        false
    } else if out[i].data == d {
        true
    } else {
        out_has(out, i + 1, n, d)
    }
}

/// After a gap was filled: when the memory at position dpbSize (where the
/// next picture is decoded) was put out for display, it is exchanged with
/// `tmp`, the memory that was there before, so that no picture waiting in
/// the output is overwritten.
pub open spec fn swap_back(m: DpbModel, tmp: usize) -> DpbModel {
    let size = m.dpbSize as int;
    if m.numOut != 0 && out_has(m.outBuf, 0, m.numOut as int, m.buffer[size].data) {
        let j = first_with_data(m.buffer, 0, size, tmp);
        if j >= 0 {
            let pj = m.buffer[j];
            let ps = m.buffer[size];
            DpbModel {
                buffer: m.buffer.update(j, dpbPicture_t { data: ps.data, ..pj }).update(size, dpbPicture_t { data: tmp, ..ps }),
                ..m
            }
        } else {
            m
        }
    } else {
        m
    }
}

/// The check for a gap in frame numbers: status and buffer.
pub open spec fn check_gaps(m: DpbModel, frameNum: u32, isRefPic: u32, gapsAllowed: u32) -> (u32, DpbModel) {
    let m0 = DpbModel { numOut: 0, outIndex: 0, ..m };
    if gapsAllowed == 0 {
        (HANTRO_OK, m0)
    } else {
        let prev = m.prevRefFrameNum;
        let max = m.maxFrameNum;
        let next = ((prev + 1) % (max as int)) as u32;
        let (st, m1) = if frameNum != prev && frameNum != next {
            let (mg, ok) = gap_fill(m0, frameNum, next, max);
            if ok {
                (HANTRO_OK, swap_back(mg, m.buffer[m.dpbSize as int].data))
            } else {
                (HANTRO_NOK, mg)
            }
        } else if isRefPic != 0 && frameNum == prev {
            (HANTRO_NOK, m0)
        } else {
            (HANTRO_OK, m0)
        };
        if st != HANTRO_OK {
            (st, m1)
        } else {
            let np = if isRefPic != 0 {
                frameNum
            } else if frameNum != prev {
                ((frameNum + max - 1) % (max as int)) as u32
            } else {
                prev
            };
            (HANTRO_OK, DpbModel { prevRefFrameNum: np, ..m1 })
        }
    }
}

/// Check for a gap in frame_num before the picture with frame number
/// `frameNum` and fill it with non-existing short-term frames, marked by
/// the sliding window (putting out pictures for display when the buffer
/// is full), when gaps are allowed. HANTRO_NOK when the sliding window
/// finds no frame to remove, or a reference picture repeats the previous
/// reference frame number. The output buffer starts empty.
pub fn h264bsdCheckGapsInFrameNum(dpb: &mut dpbStorage_t, frameNum: u32, isRefPic: u32, gapsAllowed: u32) -> (r: u32)
    requires
        old(dpb).wf(),
        frameNum < old(dpb).maxFrameNum <= 65536,
        old(dpb).prevRefFrameNum < old(dpb).maxFrameNum,
        forall|i: int| 0 <= i < old(dpb).buffer.len() ==> (#[trigger] old(dpb).buffer@[i]).frameNum <= 65536,
    ensures
        final(dpb).wf(),
        (r, final(dpb).model()) == check_gaps(old(dpb).model(), frameNum, isRefPic, gapsAllowed),
        final(dpb).pictures@ == old(dpb).pictures@,
        gapsAllowed != 0 && r == HANTRO_OK && frameNum != old(dpb).prevRefFrameNum && frameNum != (old(dpb).prevRefFrameNum + 1)
            % (old(dpb).maxFrameNum as int) ==> sorted_pics(final(dpb).buffer@, old(dpb).dpbSize + 1),
{
    dpb.numOut = 0;
    dpb.outIndex = 0;
    if gapsAllowed == 0 {
        return HANTRO_OK;
    }
    let ghost m0 = dpb.model();
    let max = dpb.maxFrameNum;
    let prev = dpb.prevRefFrameNum;
    let next = urem(prev + 1, max);
    if frameNum != prev && frameNum != next {
        let mut unUsedShortTermFrameNum = next;
        let size = dpb.dpbSize as usize;
        let tmp = dpb.buffer[size].data;
        let ghost d0 = *dpb;
        let mut sorted = false;
        while unUsedShortTermFrameNum != frameNum
            invariant
                dpb.wf(),
                d0.list@ == old(dpb).list@,
                max == old(dpb).maxFrameNum,
                size == old(dpb).dpbSize,
                gapsAllowed != 0,
                prev == old(dpb).prevRefFrameNum,
                frameNum != prev && frameNum != (prev + 1) % (max as int),
                dpb.pictures@ == d0.pictures@,
                tmp < d0.pictures.len(),
                dpb.list@ == d0.list@,
                dpb.maxFrameNum == max,
                dpb.dpbSize as usize == size,
                dpb.outIndex == 0,
                dpb.prevRefFrameNum == prev,
                frameNum < max <= 65536,
                unUsedShortTermFrameNum < max,
                forall|i: int| 0 <= i < dpb.buffer.len() ==> (#[trigger] dpb.buffer@[i]).frameNum <= 65536,
                sorted ==> sorted_pics(dpb.buffer@, size + 1),
                unUsedShortTermFrameNum != next ==> sorted,
                gap_fill(dpb.model(), frameNum, unUsedShortTermFrameNum, max) == gap_fill(m0, frameNum, next, max),
                m0 == (DpbModel { numOut: 0, outIndex: 0, ..old(dpb).model() }),
                d0.pictures@ == old(dpb).pictures@,
                next == (prev + 1) % (max as int),
            decreases frame_dist(frameNum as int, unUsedShortTermFrameNum as int, max as int),
        {
            let ghost ma = dpb.model();
            SetPicNums(dpb, unUsedShortTermFrameNum);
            if SlidingWindowRefPicMarking(dpb) != HANTRO_OK {
                assert(gap_fill(ma, frameNum, unUsedShortTermFrameNum, max) == (dpb.model(), false));
                return HANTRO_NOK;
            }
            let ghost m2 = dpb.model();
            while dpb.fullness >= dpb.dpbSize
                invariant
                    dpb.wf(),
                    dpb.list@ == d0.list@,
                    dpb.maxFrameNum == max,
                    dpb.dpbSize as usize == size,
                    dpb.outIndex == 0,
                    dpb.prevRefFrameNum == prev,
                    dpb.numRefFrames < dpb.maxRefFrames,
                    dpb.pictures@ == d0.pictures@,
                    dpb.noReordering == m2.noReordering,
                    forall|i: int| 0 <= i < dpb.buffer.len() ==> (#[trigger] dpb.buffer@[i]).frameNum <= 65536,
                    m_output_while(dpb.model(), false) == m_output_while(m2, false),
                ensures
                    dpb.wf(),
                    dpb.list@ == d0.list@,
                    dpb.maxFrameNum == max,
                    dpb.dpbSize as usize == size,
                    dpb.outIndex == 0,
                    dpb.prevRefFrameNum == prev,
                    dpb.numRefFrames < dpb.maxRefFrames,
                    dpb.pictures@ == d0.pictures@,
                    forall|i: int| 0 <= i < dpb.buffer.len() ==> (#[trigger] dpb.buffer@[i]).frameNum <= 65536,
                    dpb.model() == m_output_while(m2, false),
                decreases displayable(dpb.buffer@, dpb.dpbSize + 1),
            {
                let ghost b0 = dpb.buffer@;
                let ghost mb = dpb.model();
                if OutputPicture(dpb) != HANTRO_OK {
                    assert(dpb.noReordering != 0 || !can_output((mb.buffer, mb.outBuf, mb.numOut, mb.fullness), mb.dpbSize as int));
                    break;
                }
                assert(m_output_while(mb, false) == m_output_while(dpb.model(), false));
                assert forall|i: int| 0 <= i < dpb.buffer.len() implies (#[trigger] dpb.buffer@[i]).frameNum <= 65536 by {
                    assert(dpb.buffer@[i].frameNum == b0[i].frameNum);
                }
            }
            let mut p = dpb.buffer[size];
            p.status = NON_EXISTING;
            p.frameNum = unUsedShortTermFrameNum;
            p.picNum = unUsedShortTermFrameNum as i32;
            p.picOrderCnt = 0;
            p.toBeDisplayed = HANTRO_FALSE;
            dpb.buffer.set(size, p);
            dpb.fullness = dpb.fullness.wrapping_add(1);
            dpb.numRefFrames += 1;
            let ghost b1 = dpb.buffer@;
            ShellSort(&mut dpb.buffer, dpb.dpbSize + 1);
            proof {
                lemma_permuted_data(b1, dpb.buffer@, dpb.pictures.len() as nat);
                lemma_permuted_frames(b1, dpb.buffer@);
            }
            sorted = true;
            let ghost u = unUsedShortTermFrameNum;
            unUsedShortTermFrameNum = urem(unUsedShortTermFrameNum + 1, max);
            proof {
                if u + 1 < max {
                    vstd::arithmetic::div_mod::lemma_small_mod((u + 1) as nat, max as nat);
                    assert(unUsedShortTermFrameNum == u + 1);
                } else {
                    vstd::arithmetic::div_mod::lemma_mod_self_0(max as int);
                    assert(unUsedShortTermFrameNum == 0);
                }
                assert(gap_fill(ma, frameNum, u, max) == gap_fill(dpb.model(), frameNum, unUsedShortTermFrameNum, max));
            }
        }
        let ghost mg = dpb.model();
        assert(gap_fill(m0, frameNum, next, max) == (mg, true));
        assert(sorted_pics(mg.buffer, size + 1));
        let numOut = dpb.numOut;
        let mut hit = false;
        let mut i: u32 = 0;
        while i < numOut
            invariant_except_break
                !hit,
            invariant
                dpb.model() == mg,
                numOut == mg.numOut,
                i <= numOut,
                out_has(mg.outBuf, 0, numOut as int, mg.buffer[size as int].data) == out_has(
                    mg.outBuf,
                    i as int,
                    numOut as int,
                    mg.buffer[size as int].data,
                ),
                dpb.wf(),
                size == mg.dpbSize,
                dpb.pictures@ == old(dpb).pictures@,
            ensures
                dpb.pictures@ == old(dpb).pictures@,
                hit == out_has(mg.outBuf, 0, numOut as int, mg.buffer[size as int].data),
                hit ==> numOut != 0,
                dpb.model() == mg,
                dpb.wf(),
            decreases numOut - i,
        {
            if dpb.outBuf[i as usize].data == dpb.buffer[size].data {
                hit = true;
                break;
            }
            i += 1;
        }
        if hit {
            let mut i2: usize = 0;
            while i2 < size
                invariant_except_break
                    dpb.model() == mg,
                invariant
                    i2 <= size,
                    size == mg.dpbSize,
                    dpb.wf(),
                    first_with_data(mg.buffer, 0, size as int, tmp) == first_with_data(mg.buffer, i2 as int, size as int, tmp),
                    tmp < dpb.pictures.len(),
                    mg.numOut != 0,
                    out_has(mg.outBuf, 0, mg.numOut as int, mg.buffer[size as int].data),
                    dpb.pictures@ == old(dpb).pictures@,
                    sorted_pics(mg.buffer, size + 1),
                ensures
                    dpb.model() == swap_back(mg, tmp),
                    dpb.wf(),
                    dpb.pictures@ == old(dpb).pictures@,
                    sorted_pics(dpb.buffer@, size + 1),
                decreases size - i2,
            {
                if dpb.buffer[i2].data == tmp {
                    let mut p1 = dpb.buffer[i2];
                    let mut p2 = dpb.buffer[size];
                    p1.data = p2.data;
                    p2.data = tmp;
                    dpb.buffer.set(i2, p1);
                    dpb.buffer.set(size, p2);
                    assert forall|a: int| 0 <= a < dpb.buffer.len() implies pic_key(#[trigger] dpb.buffer@[a]) == pic_key(mg.buffer[a]) by {
                    }
                    assert forall|a: int, b: int| 0 <= a < b < size + 1 implies pic_key(#[trigger] dpb.buffer@[a]) <= pic_key(
                        #[trigger] dpb.buffer@[b],
                    ) by {
                        assert(pic_key(dpb.buffer@[a]) == pic_key(mg.buffer[a]));
                        assert(pic_key(dpb.buffer@[b]) == pic_key(mg.buffer[b]));
                    }
                    break;
                }
                i2 += 1;
            }
        }
        assert(dpb.model() == swap_back(mg, old(dpb).buffer@[old(dpb).dpbSize as int].data));
        assert(sorted_pics(dpb.buffer@, size + 1));
    } else if isRefPic != 0 && frameNum == prev {
        return HANTRO_NOK;
    }
    if isRefPic != 0 {
        dpb.prevRefFrameNum = frameNum;
    } else if frameNum != dpb.prevRefFrameNum {
        dpb.prevRefFrameNum = urem(frameNum + max - 1, max);
    }
    HANTRO_OK
}

/// A reordering of the pictures keeps the frame numbers' bound.
proof fn lemma_permuted_frames(s: Seq<dpbPicture_t>, t: Seq<dpbPicture_t>)
    requires
        t.to_multiset() == s.to_multiset(),
        forall|i: int| 0 <= i < s.len() ==> (#[trigger] s[i]).frameNum <= 65536,
    ensures
        forall|i: int| 0 <= i < t.len() ==> (#[trigger] t[i]).frameNum <= 65536,
{
    assert forall|i: int| 0 <= i < t.len() implies (#[trigger] t[i]).frameNum <= 65536 by {
        vstd::seq_lib::to_multiset_contains(t, t[i]);
        vstd::seq_lib::to_multiset_contains(s, t[i]);
        assert(t.contains(t[i]));
        let j = choose|j: int| 0 <= j < s.len() && s[j] == t[i];
        assert(s[j].frameNum <= 65536);
    }
}


// ---------------------------------------------------------------------------
// The buffer as a value, and its operations
// ---------------------------------------------------------------------------

/// The buffer's state, without the sample memory.
#[verifier::ext_equal]
pub struct DpbModel {
    pub buffer: Seq<dpbPicture_t>,
    pub list: Seq<Option<usize>>,
    pub currentOut: usize,
    pub outBuf: Seq<dpbOutPicture_t>,
    pub numOut: u32,
    pub outIndex: u32,
    pub maxRefFrames: u32,
    pub dpbSize: u32,
    pub maxFrameNum: u32,
    pub maxLongTermFrameIdx: u32,
    pub numRefFrames: u32,
    pub fullness: u32,
    pub prevRefFrameNum: u32,
    pub lastContainsMmco5: u32,
    pub noReordering: u32,
    pub flushed: u32,
}

impl dpbStorage_t {
    /// The state of the buffer as a value.
    pub open spec fn model(&self) -> DpbModel {
        DpbModel {
            buffer: self.buffer@,
            list: self.list@,
            currentOut: self.currentOut,
            outBuf: self.outBuf@,
            numOut: self.numOut,
            outIndex: self.outIndex,
            maxRefFrames: self.maxRefFrames,
            dpbSize: self.dpbSize,
            maxFrameNum: self.maxFrameNum,
            maxLongTermFrameIdx: self.maxLongTermFrameIdx,
            numRefFrames: self.numRefFrames,
            fullness: self.fullness,
            prevRefFrameNum: self.prevRefFrameNum,
            lastContainsMmco5: self.lastContainsMmco5,
            noReordering: self.noReordering,
            flushed: self.flushed,
        }
    }
}

/// Picture `i` marked unused for reference.
pub open spec fn m_release(m: DpbModel, i: int) -> DpbModel {
    DpbModel {
        buffer: m.buffer.update(i, unused(m.buffer[i])),
        numRefFrames: m.numRefFrames.wrapping_sub(1),
        fullness: if m.buffer[i].toBeDisplayed == 0 {
            m.fullness.wrapping_sub(1)
        } else {
            m.fullness
        },
        ..m
    }
}

/// Position of the reference picture `picNum` of the given kind.
pub open spec fn m_find(m: DpbModel, picNum: i32, isShortTerm: bool) -> int {
    find_pic(m.buffer, m.maxRefFrames as int, picNum, isShortTerm)
}

/// Memory management operation 1.
pub open spec fn m_mmco1(m: DpbModel, currPicNum: u32, diff: u32) -> (DpbModel, u32) {
    let k = m_find(m, (currPicNum - diff) as i32, true);
    if k >= 0 {
        (m_release(m, k), HANTRO_OK)
    } else {
        (m, HANTRO_NOK)
    }
}

/// Memory management operation 2.
pub open spec fn m_mmco2(m: DpbModel, longTermPicNum: u32) -> (DpbModel, u32) {
    let k = m_find(m, longTermPicNum as i32, false);
    if k >= 0 {
        (m_release(m, k), HANTRO_OK)
    } else {
        (m, HANTRO_NOK)
    }
}

/// Long-term frame index `idx` freed.
pub open spec fn m_free_index(m: DpbModel, idx: u32) -> DpbModel {
    let k = m_find(m, idx as i32, false);
    if k >= 0 {
        m_release(m, k)
    } else {
        m
    }
}

/// The long-term frame index is not allowed.
pub open spec fn bad_index(m: DpbModel, idx: u32) -> bool {
    m.maxLongTermFrameIdx == NO_LONG_TERM_FRAME_INDICES || idx > m.maxLongTermFrameIdx
}

/// Memory management operation 3.
pub open spec fn m_mmco3(m: DpbModel, currPicNum: u32, diff: u32, idx: u32) -> (DpbModel, u32) {
    if bad_index(m, idx) {
        (m, HANTRO_NOK)
    } else {
        let m1 = m_free_index(m, idx);
        let k = m_find(m1, (currPicNum - diff) as i32, true);
        if k >= 0 && is_existing(m1.buffer[k]) {
            (DpbModel { buffer: m1.buffer.update(k, long_term(m1.buffer[k], idx)), ..m1 }, HANTRO_OK)
        } else {
            (m1, HANTRO_NOK)
        }
    }
}

/// Memory management operation 4.
pub open spec fn m_mmco4(m: DpbModel, maxIdx: u32) -> DpbModel {
    let (b, n, f) = mmco4_run(m.buffer, m.numRefFrames, m.fullness, maxIdx, m.maxRefFrames as nat);
    DpbModel { buffer: b, numRefFrames: n, fullness: f, maxLongTermFrameIdx: maxIdx, ..m }
}

/// All pictures waiting for display put out (when the buffer reorders).
pub open spec fn m_output_all(m: DpbModel) -> DpbModel {
    if m.noReordering != 0 {
        m
    } else {
        let o = output_all((m.buffer, m.outBuf, m.numOut, m.fullness), m.dpbSize as int);
        DpbModel { buffer: o.0, outBuf: o.1, numOut: o.2, fullness: o.3, ..m }
    }
}

/// Memory management operation 5.
pub open spec fn m_mmco5(m: DpbModel) -> DpbModel {
    let (b1, f1) = unmark_all(m.buffer, m.fullness, 16);
    let m2 = m_output_all(DpbModel { buffer: b1, fullness: f1, ..m });
    DpbModel { numRefFrames: 0, maxLongTermFrameIdx: NO_LONG_TERM_FRAME_INDICES, prevRefFrameNum: 0, ..m2 }
}

/// The display flag for the pictures of this buffer.
pub open spec fn display_flag(m: DpbModel) -> u32 {
    if m.noReordering != 0 {
        HANTRO_FALSE
    } else {
        HANTRO_TRUE
    }
}

/// The current picture with the given status and numbers.
pub open spec fn m_set_current(m: DpbModel, status: u32, frameNum: u32, picNum: i32, picOrderCnt: i32, toBeDisplayed: u32) -> DpbModel {
    DpbModel {
        buffer: m.buffer.update(
            m.currentOut as int,
            dpbPicture_t { status, frameNum, picNum, picOrderCnt, toBeDisplayed, ..m.buffer[m.currentOut as int] },
        ),
        ..m
    }
}

/// Memory management operation 6.
pub open spec fn m_mmco6(m: DpbModel, frameNum: u32, picOrderCnt: i32, idx: u32) -> (DpbModel, u32) {
    if bad_index(m, idx) {
        (m, HANTRO_NOK)
    } else {
        let m1 = m_free_index(m, idx);
        if m1.numRefFrames < m1.maxRefFrames {
            let m2 = m_set_current(m1, LONG_TERM, frameNum, idx as i32, picOrderCnt, display_flag(m1));
            (DpbModel { numRefFrames: (m1.numRefFrames + 1) as u32, fullness: m1.fullness.wrapping_add(1), ..m2 }, HANTRO_OK)
        } else {
            (m1, HANTRO_NOK)
        }
    }
}

/// Sliding window marking.
pub open spec fn m_sliding(m: DpbModel) -> (DpbModel, u32) {
    if m.numRefFrames < m.maxRefFrames {
        (m, HANTRO_OK)
    } else {
        let o = oldest_short_term(m.buffer, m.numRefFrames as int);
        if o >= 0 {
            (m_release(m, o), HANTRO_OK)
        } else {
            (m, HANTRO_NOK)
        }
    }
}

/// Pictures put out for display while the buffer holds more than dpbSize
/// (`strict`) or at least dpbSize pictures, as long as one waits and the
/// output buffer has room.
pub open spec fn m_output_while(m: DpbModel, strict: bool) -> DpbModel
    decreases displayable(m.buffer, m.dpbSize + 1),
    when m.dpbSize < m.buffer.len()
{
    let s = (m.buffer, m.outBuf, m.numOut, m.fullness);
    let full = if strict {
        m.fullness > m.dpbSize
    } else {
        m.fullness >= m.dpbSize
    };
    if full && m.noReordering == 0 && can_output(s, m.dpbSize as int) {
        proof {
            lemma_next_display(m.buffer, m.dpbSize + 1, m.dpbSize + 1);
        }
        let o = output_step(s, m.dpbSize as int);
        m_output_while(DpbModel { buffer: o.0, outBuf: o.1, numOut: o.2, fullness: o.3, ..m }, strict)
    } else {
        m
    }
}

/// The buffer sorted over its first dpbSize + 1 pictures.
pub open spec fn m_sort(m: DpbModel) -> DpbModel {
    DpbModel { buffer: shell_sorted(m.buffer, m.dpbSize + 1), ..m }
}


/// In the sort order of the buffer (`sorted_pics`): reference pictures
/// come before the others, short-term reference pictures before the
/// long-term ones, short-term ones by descending picNum and long-term ones
/// by ascending picNum (LongTermPicNum), so that the initial reference
/// list starts with the smallest LongTermPicNum among the long-term
/// pictures (H.264 8.2.4.2.1).
pub proof fn lemma_sorted_reference_order(buf: Seq<dpbPicture_t>, n: int)
    requires
        sorted_pics(buf, n),
    ensures
        forall|a: int, b: int|
            0 <= a < b < n ==> {
                &&& is_reference(#[trigger] buf[b]) ==> is_reference(#[trigger] buf[a])
                &&& is_reference(buf[b]) && is_short_term(buf[b]) ==> is_short_term(buf[a])
                &&& is_reference(buf[a]) && is_short_term(buf[a]) && is_reference(buf[b]) && is_short_term(buf[b])
                    ==> buf[a].picNum >= buf[b].picNum
                &&& is_long_term(buf[a]) && is_long_term(buf[b]) ==> buf[a].picNum <= buf[b].picNum
            },
{
    assert forall|a: int, b: int| 0 <= a < b < n implies {
        &&& is_reference(#[trigger] buf[b]) ==> is_reference(#[trigger] buf[a])
        &&& is_reference(buf[b]) && is_short_term(buf[b]) ==> is_short_term(buf[a])
        &&& is_reference(buf[a]) && is_short_term(buf[a]) && is_reference(buf[b]) && is_short_term(buf[b])
            ==> buf[a].picNum >= buf[b].picNum
        &&& is_long_term(buf[a]) && is_long_term(buf[b]) ==> buf[a].picNum <= buf[b].picNum
    } by {
        assert(pic_key(buf[a]) <= pic_key(buf[b]));
    }
}

} // verus!

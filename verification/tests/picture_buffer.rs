use h264bsd::defs::{HANTRO_NOK, HANTRO_OK};
use h264bsd::dpb::{
    dpbOutPicture_t, dpbPicture_t, dpbStorage_t, h264bsdAllocateDpbImage, h264bsdCheckGapsInFrameNum, h264bsdDpbOutputPicture, h264bsdFlushDpb,
    h264bsdFreeDpb, h264bsdGetRefPicData, h264bsdInitDpb, h264bsdInitRefPicList, h264bsdMarkDecRefPic,
    h264bsdReorderRefPicList, h264bsdResetDpb, NON_EXISTING, NO_LONG_TERM_FRAME_INDICES, SHORT_TERM, UNUSED,
};
use h264bsd::slice_header::{
    decRefPicMarking_t, memoryManagementOperation_t, refPicListReorderingOperation_t, refPicListReordering_t,
};

fn empty() -> dpbStorage_t {
    dpbStorage_t {
        buffer: Vec::new(),
        list: Vec::new(),
        currentOut: 0,
        outBuf: Vec::new(),
        numOut: 0,
        outIndex: 0,
        maxRefFrames: 0,
        dpbSize: 0,
        maxFrameNum: 0,
        maxLongTermFrameIdx: 0,
        numRefFrames: 0,
        fullness: 0,
        prevRefFrameNum: 0,
        lastContainsMmco5: 0,
        noReordering: 0,
        flushed: 0,
        pictures: Vec::new(),
    }
}

fn op(code: u32, diff: u32) -> memoryManagementOperation_t {
    memoryManagementOperation_t {
        memoryManagementControlOperation: code,
        differenceOfPicNums: diff,
        longTermPicNum: 0,
        longTermFrameIdx: 0,
        maxLongTermFrameIdx: 0,
    }
}

fn marking(adaptive: u32, ops: &[memoryManagementOperation_t]) -> decRefPicMarking_t {
    let mut operation = [op(0, 0); 35];
    for (i, o) in ops.iter().enumerate() {
        operation[i] = *o;
    }
    decRefPicMarking_t {
        noOutputOfPriorPicsFlag: 0,
        longTermReferenceFlag: 0,
        adaptiveRefPicMarkingModeFlag: adaptive,
        operation,
    }
}

fn init() -> dpbStorage_t {
    let mut d = empty();
    assert_eq!(h264bsdInitDpb(&mut d, 4, 2, 2, 16, 0), HANTRO_OK);
    d
}

/// IDR picture A (poc 0) and picture B (frame 1, poc 4): returns their memories.
fn two_pictures(d: &mut dpbStorage_t) -> (usize, usize) {
    let a = h264bsdAllocateDpbImage(d);
    assert_eq!(h264bsdMarkDecRefPic(d, Some(&marking(0, &[])), a, 0, 0, 1, 10, 0), HANTRO_OK);
    let b = h264bsdAllocateDpbImage(d);
    assert_eq!(h264bsdMarkDecRefPic(d, Some(&marking(0, &[])), b, 1, 4, 0, 11, 0), HANTRO_OK);
    (a, b)
}

#[test]
fn initialised_buffer_is_empty() {
    let d = init();
    assert_eq!(d.maxRefFrames, 2);
    assert_eq!(d.dpbSize, 2);
    assert_eq!(d.pictures.len(), 3);
    assert_eq!(d.pictures[0].len(), 4 * 384);
    assert_eq!(d.maxLongTermFrameIdx, NO_LONG_TERM_FRAME_INDICES);
    assert!(d.buffer.iter().all(|p: &dpbPicture_t| p.status == UNUSED));
    assert_eq!(h264bsdGetRefPicData(&d, 0), None);
}

#[test]
fn idr_picture_becomes_the_only_reference() {
    let mut d = init();
    let a = h264bsdAllocateDpbImage(&mut d);
    assert_eq!(a, 2);
    assert_eq!(h264bsdMarkDecRefPic(&mut d, Some(&marking(0, &[])), a, 0, 0, 1, 10, 0), HANTRO_OK);
    assert_eq!(d.numRefFrames, 1);
    assert_eq!(d.fullness, 1);
    assert_eq!(d.buffer[0].status, SHORT_TERM);
    assert_eq!(d.buffer[0].data, a);
    h264bsdInitRefPicList(&mut d);
    assert_eq!(h264bsdGetRefPicData(&d, 0), Some(a));
    assert_eq!(h264bsdGetRefPicData(&d, 1), None);
}

#[test]
fn wrong_picture_memory_is_refused() {
    let mut d = init();
    let a = h264bsdAllocateDpbImage(&mut d);
    assert_eq!(h264bsdMarkDecRefPic(&mut d, None, a + 1, 0, 0, 0, 0, 0), HANTRO_NOK);
    assert_eq!(d.fullness, 0);
}

#[test]
fn sliding_window_drops_the_oldest_and_outputs_in_display_order() {
    let mut d = init();
    let (a, b) = two_pictures(&mut d);
    assert_eq!((a, b), (2, 1));
    assert_eq!(d.numRefFrames, 2);
    assert_eq!((d.buffer[0].data, d.buffer[1].data), (b, a));
    let c = h264bsdAllocateDpbImage(&mut d);
    assert_eq!(c, 0);
    assert_eq!(h264bsdMarkDecRefPic(&mut d, Some(&marking(0, &[])), c, 2, 2, 0, 12, 0), HANTRO_OK);
    assert_eq!(d.numRefFrames, 2);
    assert_eq!(d.fullness, 2);
    // A (poc 0) had to leave for display
    assert_eq!(d.numOut, 1);
    let first: dpbOutPicture_t = h264bsdDpbOutputPicture(&mut d).unwrap();
    assert_eq!((first.data, first.picId), (a, 10));
    assert!(h264bsdDpbOutputPicture(&mut d).is_none());
    // C (frame 2) and B (frame 1) are the references, largest picNum first
    assert_eq!((d.buffer[0].data, d.buffer[1].data), (c, b));
    assert_eq!(d.buffer[2].status, UNUSED);
    h264bsdInitRefPicList(&mut d);
    assert_eq!(h264bsdGetRefPicData(&d, 0), Some(c));
    assert_eq!(h264bsdGetRefPicData(&d, 1), Some(b));
    h264bsdFlushDpb(&mut d);
    assert_eq!(d.flushed, 1);
    let second = h264bsdDpbOutputPicture(&mut d).unwrap();
    let third = h264bsdDpbOutputPicture(&mut d).unwrap();
    assert_eq!((second.picId, third.picId), (12, 11));
    assert!(h264bsdDpbOutputPicture(&mut d).is_none());
}

#[test]
fn adaptive_marking_removes_the_named_short_term_picture() {
    let mut d = init();
    let (_a, b) = two_pictures(&mut d);
    let c = h264bsdAllocateDpbImage(&mut d);
    // operation 1 with difference 2 from frame 2: picture number 0, A
    assert_eq!(h264bsdMarkDecRefPic(&mut d, Some(&marking(1, &[op(1, 2)])), c, 2, 2, 0, 12, 0), HANTRO_OK);
    assert_eq!(d.numRefFrames, 2);
    assert_eq!((d.buffer[0].data, d.buffer[1].data), (c, b));
}

#[test]
fn adaptive_marking_of_a_missing_picture_fails() {
    let mut d = init();
    let (_a, _b) = two_pictures(&mut d);
    let c = h264bsdAllocateDpbImage(&mut d);
    assert_eq!(h264bsdMarkDecRefPic(&mut d, Some(&marking(1, &[op(1, 5)])), c, 2, 2, 0, 12, 0), HANTRO_NOK);
}

#[test]
fn non_reference_picture_waits_for_display() {
    let mut d = init();
    let a = h264bsdAllocateDpbImage(&mut d);
    assert_eq!(h264bsdMarkDecRefPic(&mut d, None, a, 0, 6, 0, 3, 0), HANTRO_OK);
    assert_eq!(d.numRefFrames, 0);
    assert_eq!(d.fullness, 1);
    assert_eq!(d.buffer[0].status, UNUSED);
    assert_eq!(d.buffer[0].toBeDisplayed, 1);
    h264bsdFlushDpb(&mut d);
    assert_eq!(h264bsdDpbOutputPicture(&mut d).unwrap().picId, 3);
}

fn reordering(cmds: &[(u32, u32, u32)]) -> refPicListReordering_t {
    let mut command = [refPicListReorderingOperation_t { reorderingOfPicNumsIdc: 3, absDiffPicNum: 0, longTermPicNum: 0 }; 17];
    for (i, c) in cmds.iter().enumerate() {
        command[i] = refPicListReorderingOperation_t { reorderingOfPicNumsIdc: c.0, absDiffPicNum: c.1, longTermPicNum: c.2 };
    }
    refPicListReordering_t { refPicListReorderingFlagL0: 1, command }
}

#[test]
fn reordering_moves_the_named_picture_first() {
    let mut d = init();
    let (a, b) = two_pictures(&mut d);
    h264bsdInitRefPicList(&mut d);
    assert_eq!(h264bsdGetRefPicData(&d, 0), Some(b));
    assert_eq!(h264bsdGetRefPicData(&d, 1), Some(a));
    // current frame 2: difference 2 below the prediction names frame 0, A
    let r = h264bsdReorderRefPicList(&mut d, &reordering(&[(0, 2, 0)]), 2, 1);
    assert_eq!(r, HANTRO_OK);
    assert_eq!(h264bsdGetRefPicData(&d, 0), Some(a));
    assert_eq!(h264bsdGetRefPicData(&d, 1), Some(b));
    assert_eq!(d.buffer[0].picNum, 1);
    assert_eq!(d.buffer[1].picNum, 0);
}

#[test]
fn reordering_to_a_missing_picture_fails() {
    let mut d = init();
    let (_a, _b) = two_pictures(&mut d);
    h264bsdInitRefPicList(&mut d);
    assert_eq!(h264bsdReorderRefPicList(&mut d, &reordering(&[(0, 1, 0), (0, 5, 0)]), 3, 1), HANTRO_NOK);
}

#[test]
fn picture_numbers_wrap_with_frame_numbers() {
    let mut d = init();
    let (_a, _b) = two_pictures(&mut d);
    let mut no = reordering(&[]);
    no.refPicListReorderingFlagL0 = 0;
    // current frame 0 after a wrap: frames 0 and 1 are from before it
    assert_eq!(h264bsdReorderRefPicList(&mut d, &no, 0, 1), HANTRO_OK);
    assert_eq!(d.buffer[0].picNum, 1 - 16);
    assert_eq!(d.buffer[1].picNum, 0);
}

#[test]
fn reset_buffer_is_empty_again() {
    let mut d = init();
    let (_a, _b) = two_pictures(&mut d);
    h264bsdFreeDpb(&mut d);
    assert!(d.buffer.is_empty() && d.pictures.is_empty());
    assert_eq!(h264bsdResetDpb(&mut d, 4, 1, 1, 16, 1), HANTRO_OK);
    assert_eq!(d.dpbSize, 1);
    assert_eq!(d.numRefFrames, 0);
    assert_eq!(d.pictures.len(), 2);
}

#[test]
fn gap_in_frame_numbers_is_filled_with_non_existing_frames() {
    let mut d = init();
    let a = h264bsdAllocateDpbImage(&mut d);
    assert_eq!(h264bsdMarkDecRefPic(&mut d, Some(&marking(0, &[])), a, 0, 0, 1, 10, 0), HANTRO_OK);
    assert_eq!(h264bsdCheckGapsInFrameNum(&mut d, 3, 1, 1), HANTRO_OK);
    assert_eq!(d.numRefFrames, 2);
    assert_eq!((d.buffer[0].status, d.buffer[0].frameNum), (NON_EXISTING, 2));
    assert_eq!((d.buffer[1].status, d.buffer[1].frameNum), (NON_EXISTING, 1));
    // A was put out to make room, and keeps its memory away from the
    // position the next picture is decoded into
    assert_eq!(d.numOut, 1);
    assert_eq!(d.outBuf[0].data, a);
    assert_eq!(d.buffer[2].data, 1);
    assert_eq!(d.buffer[1].data, a);
    assert_eq!(d.prevRefFrameNum, 3);
}

#[test]
fn repeated_reference_frame_number_is_refused() {
    let mut d = init();
    let a = h264bsdAllocateDpbImage(&mut d);
    assert_eq!(h264bsdMarkDecRefPic(&mut d, Some(&marking(0, &[])), a, 0, 0, 1, 10, 0), HANTRO_OK);
    assert_eq!(h264bsdCheckGapsInFrameNum(&mut d, 0, 1, 1), HANTRO_NOK);
    assert_eq!(h264bsdCheckGapsInFrameNum(&mut d, 1, 1, 1), HANTRO_OK);
    assert_eq!(d.prevRefFrameNum, 1);
    assert_eq!(h264bsdCheckGapsInFrameNum(&mut d, 7, 1, 0), HANTRO_OK);
    assert_eq!(d.prevRefFrameNum, 1);
}

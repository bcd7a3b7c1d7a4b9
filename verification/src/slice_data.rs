//! The slice_data() syntax: the macroblocks of a slice in the order of
//! its slice group, with runs of skipped macroblocks in P slices, each
//! parsed and reconstructed into the current picture.
use vstd::prelude::*;
use crate::defs::{HANTRO_NOK, HANTRO_OK, IS_I_SLICE};
use crate::dpb::dpbStorage_t;
use crate::image::image_t;
use crate::inter::inter_nbrs_ok;
use crate::macroblock::{mbPred_t, mbStorage_t, mv_t, P_Skip};
use crate::mb_decode::h264bsdDecodeMacroblock;
use crate::mb_layer::{h264bsdDecodeMacroblockLayer, lemma_mb_layer_ranges, zero_layer};
use crate::residual::neighbours_ok;
use crate::slice_header::sliceHeader_t;
use crate::storage::storage_t;
use crate::stream::strmData_t;
use crate::util::{h264bsdMoreRbspData, h264bsdNextMbAddress};
use crate::vlc::{h264bsdDecodeExpGolombUnsigned, lemma_ue_next};

verus! {

/// Set the parameters of macroblock `pMb` that stay the same for the whole
/// slice: slice id, deblocking control and offsets, chroma QP offset.
fn SetMbParams(pMb: &mut mbStorage_t, pSlice: &sliceHeader_t, sliceId: u32, chromaQpIndexOffset: i32)
    ensures
        *final(pMb) == (mbStorage_t {
            sliceId,
            disableDeblockingFilterIdc: pSlice.disableDeblockingFilterIdc,
            filterOffsetA: pSlice.sliceAlphaC0Offset,
            filterOffsetB: pSlice.sliceBetaOffset,
            chromaQpIndexOffset,
            ..*old(pMb)
        }),
{
    pMb.sliceId = sliceId;
    pMb.disableDeblockingFilterIdc = pSlice.disableDeblockingFilterIdc;
    pMb.filterOffsetA = pSlice.sliceAlphaC0Offset;
    pMb.filterOffsetB = pSlice.sliceBetaOffset;
    pMb.chromaQpIndexOffset = chromaQpIndexOffset;
}

/// Macroblock address `a` lies on the walk of a slice that starts at
/// `first`: at or after it, in the same slice group.
pub open spec fn on_walk(map: Seq<u32>, first: int, a: int) -> bool {
    first <= a && map[a] == map[first]
}

/// Every neighbour address of every macroblock names another macroblock
/// of the picture.
pub open spec fn nbrs_ready(mbs: Seq<mbStorage_t>) -> bool {
    forall|i: int| 0 <= i < mbs.len() ==> #[trigger] inter_nbrs_ok(mbs, i)
}

/// Changing one macroblock's state but not its neighbours keeps the
/// neighbour addresses valid.
proof fn lemma_nbrs_kept(a: Seq<mbStorage_t>, b: Seq<mbStorage_t>, c: int)
    requires
        nbrs_ready(a),
        a.len() == b.len(),
        0 <= c < a.len(),
        forall|j: int| 0 <= j < a.len() && j != c ==> b[j] == a[j],
        b[c].mbA == a[c].mbA && b[c].mbB == a[c].mbB && b[c].mbC == a[c].mbC && b[c].mbD == a[c].mbD,
    ensures
        nbrs_ready(b),
        neighbours_ok(b),
{
    assert forall|i: int| 0 <= i < b.len() implies #[trigger] inter_nbrs_ok(b, i) by {
        assert(inter_nbrs_ok(a, i));
    }
    assert forall|i: int| 0 <= i < b.len() implies ((#[trigger] b[i]).mbA matches Some(x) ==> x < b.len()) && (
    b[i].mbB matches Some(x) ==> x < b.len()) by {
        assert(inter_nbrs_ok(b, i));
    }
}

/// What a slice's macroblocks need to be decoded: a readable stream that
/// fits 32-bit bit positions, a picture of `picSize` macroblocks and its
/// state, a slice group map that covers it, a first macroblock inside it,
/// a start QP in [0, 51], a chroma QP offset in [-12, 12], and reference
/// pictures of the picture's size.
pub open spec fn slice_data_ready(
    s: &strmData_t,
    mbs: Seq<mbStorage_t>,
    map: Seq<u32>,
    picSize: u32,
    dpb: &dpbStorage_t,
    image: &image_t,
    first: u32,
    qp0: int,
    chromaQpIndexOffset: i32,
) -> bool {
    &&& s.wf()
    &&& 8 * s.size() <= 0x8000_0000
    &&& s.pos() <= s.len_bits()
    &&& mbs.len() == picSize
    &&& nbrs_ready(mbs)
    &&& forall|i: int| 0 <= i < mbs.len() ==> #[trigger] mbs[i].decoded < u32::MAX
    &&& map.len() >= picSize
    &&& first < picSize
    &&& 0 <= qp0 <= 51
    &&& -12 <= chromaQpIndexOffset <= 12
    &&& dpb.wf()
    &&& image.wf()
    &&& image.width * image.height == picSize
    &&& forall|k: int| 0 <= k < dpb.pictures.len() ==> #[trigger] dpb.pictures@[k]@.len() == image.data.len()
}

/// The macroblocks of one slice from `first` on: returns the status, the
/// number of macroblocks decoded for the first time and the last
/// macroblock address recorded for error handling (intra slices only).
#[verifier::rlimit(100)]
#[verifier::spinoff_prover]
fn decode_slice_mbs(
    pStrmData: &mut strmData_t,
    mbs: &mut Vec<mbStorage_t>,
    map: &Vec<u32>,
    picSize: u32,
    dpb: &dpbStorage_t,
    currImage: &mut image_t,
    pSliceHeader: &sliceHeader_t,
    sliceId: u32,
    qp0: i32,
    chromaQpIndexOffset: i32,
    constrainedIntraPredFlag: u32,
) -> (res: (u32, u32, u32))
    requires
        slice_data_ready(
            old(pStrmData),
            old(mbs)@,
            map@,
            picSize,
            dpb,
            old(currImage),
            pSliceHeader.firstMbInSlice,
            qp0 as int,
            chromaQpIndexOffset,
        ),
    ensures
        final(pStrmData).wf(),
        final(pStrmData).same_stream(old(pStrmData)),
        final(mbs)@.len() == old(mbs)@.len(),
        nbrs_ready(final(mbs)@),
        forall|j: int|
            0 <= j < old(mbs)@.len() && !on_walk(map@, pSliceHeader.firstMbInSlice as int, j) ==> #[trigger] final(mbs)@[j]
                == old(mbs)@[j],
        final(currImage).wf(),
        final(currImage).width == old(currImage).width,
        final(currImage).height == old(currImage).height,
        res.0 == HANTRO_OK || res.0 == HANTRO_NOK,
        res.1 <= picSize,
        res.2 < picSize,
{
    let ghost mbs0 = mbs@;
    let ghost first = pSliceHeader.firstMbInSlice as int;
    let ghost s0 = *pStrmData;
    let mut data: [u8; 384] = [0u8; 384];
    let mut layer = zero_layer();
    let mut currMbAddr = pSliceHeader.firstMbInSlice;
    let mut skipRun: u32 = 0;
    let mut prevSkipped = false;
    let mut lastMbAddr: u32 = 0;
    let mut mbCount: u32 = 0;
    let mut qpY: i32 = qp0;
    let mut more = true;
    let ghost mut hi: int = first;
    let isI = IS_I_SLICE(pSliceHeader.sliceType);
    while more
        invariant
            pStrmData.wf(),
            s0 == *old(pStrmData),
            mbs0 == old(mbs)@,
            pStrmData.same_stream(&s0),
            currImage.width == old(currImage).width,
            currImage.height == old(currImage).height,
            8 * pStrmData.size() <= 0x8000_0000,
            pStrmData.pos() <= pStrmData.len_bits(),
            mbs@.len() == picSize,
            mbs0.len() == picSize,
            map@.len() >= picSize,
            first == pSliceHeader.firstMbInSlice,
            first < picSize,
            nbrs_ready(mbs@),
            forall|j: int| 0 <= j < picSize && !(on_walk(map@, first, j) && j < hi) ==> #[trigger] mbs@[j] == mbs0[j],
            forall|i: int| 0 <= i < mbs0.len() ==> #[trigger] mbs0[i].decoded < u32::MAX,
            first <= hi <= picSize,
            more ==> currMbAddr < picSize && on_walk(map@, first, currMbAddr as int) && hi <= currMbAddr,
            mbCount <= hi - first,
            lastMbAddr < picSize,
            0 <= qpY <= 51,
            -12 <= chromaQpIndexOffset <= 12,
            skipRun > 0 ==> layer.mbType == P_Skip,
            isI == (pSliceHeader.sliceType == 2 || pSliceHeader.sliceType == 7),
            dpb.wf(),
            currImage.wf(),
            currImage.width * currImage.height == picSize,
            forall|k: int| 0 <= k < dpb.pictures.len() ==> #[trigger] dpb.pictures@[k]@.len() == currImage.data.len(),
        decreases (if more { picSize - currMbAddr + 1 } else { 0 }),
    {
        let cur = currMbAddr as usize;
        if pSliceHeader.redundantPicCnt == 0 && mbs[cur].decoded != 0 {
            return (HANTRO_NOK, mbCount, lastMbAddr);
        }
        let mut m = mbs[cur];
        SetMbParams(&mut m, pSliceHeader, sliceId, chromaQpIndexOffset);
        let ghost before = mbs@;
        mbs.set(cur, m);
        proof {
            lemma_nbrs_kept(before, mbs@, cur as int);
        }
        if !isI {
            if !prevSkipped {
                proof {
                    lemma_ue_next(pStrmData, pStrmData.pos());
                }
                let tmp = h264bsdDecodeExpGolombUnsigned(pStrmData, &mut skipRun);
                if tmp != HANTRO_OK {
                    return (tmp, mbCount, lastMbAddr);
                }
                if skipRun > picSize - currMbAddr {
                    return (HANTRO_NOK, mbCount, lastMbAddr);
                }
                if skipRun != 0 {
                    prevSkipped = true;
                    layer.mbPred = mbPred_t {
                        prevIntra4x4PredModeFlag: [0u32; 16],
                        remIntra4x4PredMode: [0u32; 16],
                        intraChromaPredMode: 0,
                        refIdxL0: [0u32; 4],
                        mvdL0: [mv_t { hor: 0, ver: 0 }; 4],
                    };
                    layer.mbType = P_Skip;
                }
            }
        }
        if skipRun != 0 {
            skipRun = skipRun - 1;
        } else {
            prevSkipped = false;
            let ghost sp = *pStrmData;
            let tmp = h264bsdDecodeMacroblockLayer(
                pStrmData,
                &mut layer,
                mbs,
                cur,
                pSliceHeader.sliceType,
                pSliceHeader.numRefIdxL0Active,
            );
            if tmp != HANTRO_OK {
                return (tmp, mbCount, lastMbAddr);
            }
            proof {
                lemma_mb_layer_ranges(
                    sp.data(),
                    sp.size(),
                    sp.pos(),
                    mbs@,
                    cur as int,
                    pSliceHeader.sliceType,
                    pSliceHeader.numRefIdxL0Active,
                );
                assert(layer.mbPred.model().rem == layer.mbPred.remIntra4x4PredMode@);
                assert(layer.subMbPred.model().subMbType == layer.subMbPred.subMbType@);
            }
            if pStrmData.strmBuffReadBits > 8 * pStrmData.strmBuffSize {
                return (HANTRO_NOK, mbCount, lastMbAddr);
            }
        }
        assert(inter_nbrs_ok(mbs@, cur as int));
        let ghost before2 = mbs@;
        let tmp = h264bsdDecodeMacroblock(
            mbs,
            cur,
            &mut layer,
            currImage,
            dpb,
            &mut qpY,
            currMbAddr,
            constrainedIntraPredFlag,
            &mut data,
        );
        proof {
            lemma_nbrs_kept(before2, mbs@, cur as int);
            hi = currMbAddr + 1;
        }
        if tmp != HANTRO_OK {
            return (tmp, mbCount, lastMbAddr);
        }
        if mbs[cur].decoded == 1 {
            mbCount = mbCount + 1;
        }
        more = h264bsdMoreRbspData(pStrmData) != 0 || skipRun != 0;
        if isI {
            lastMbAddr = currMbAddr;
        }
        currMbAddr = h264bsdNextMbAddress(map.as_slice(), picSize, currMbAddr);
        if more && currMbAddr == 0 {
            return (HANTRO_NOK, mbCount, lastMbAddr);
        }
    }
    (HANTRO_OK, mbCount, lastMbAddr)
}

/// The storage but its macroblock states and its slice bookkeeping.
pub open spec fn same_but_slice_state(a: &storage_t, b: &storage_t) -> bool {
    &&& a.oldSpsId == b.oldSpsId
    &&& a.activePpsId == b.activePpsId
    &&& a.activeSpsId == b.activeSpsId
    &&& a.sps@ == b.sps@
    &&& a.pps@ == b.pps@
    &&& a.sliceGroupMap@ == b.sliceGroupMap@
    &&& a.picSizeInMbs == b.picSizeInMbs
    &&& a.skipRedundantSlices == b.skipRedundantSlices
    &&& a.picStarted == b.picStarted
    &&& a.validSliceInAccessUnit == b.validSliceInAccessUnit
    &&& a.numConcealedMbs == b.numConcealedMbs
    &&& a.currentPicId == b.currentPicId
    &&& a.noReordering == b.noReordering
    &&& a.dpb == b.dpb
    &&& a.aub == b.aub
    &&& a.pendingActivation == b.pendingActivation
    &&& a.picWidthInMbs == b.picWidthInMbs
    &&& a.picHeightInMbs == b.picHeightInMbs
    &&& a.sliceHeader == b.sliceHeader
    &&& a.intraConcealmentFlag == b.intraConcealmentFlag
    &&& a.prevBufNotFinished == b.prevBufNotFinished
    &&& a.prevBytesConsumed == b.prevBytesConsumed
    &&& a.strm == b.strm
    &&& a.currImage == b.currImage
    &&& a.currPic == b.currPic
    &&& a.prevNalUnit == b.prevNalUnit
    &&& a.poc == b.poc
}

/// Decode the macroblocks of the slice with header `pSliceHeader` into
/// `currImage`: the slice gets the next slice id; from its first
/// macroblock on, in the order of its slice group
/// (`h264bsdNextMbAddress`), each macroblock is either skipped (a run
/// read in P slices) or parsed (`h264bsdDecodeMacroblockLayer`), then
/// reconstructed (`h264bsdDecodeMacroblock`) with the slice's QP
/// (`picInitQp + sliceQpDelta` at its start), while stream data or
/// skipped macroblocks are left. HANTRO_NOK when a macroblock of a
/// primary picture comes twice, a skip run passes the end of the picture,
/// a macroblock fails, data is left after the last macroblock of the
/// slice group, or the picture would count more decoded macroblocks than
/// it has. Macroblocks off the slice's walk keep their state.
pub fn h264bsdDecodeSliceData(
    pStrmData: &mut strmData_t,
    pStorage: &mut storage_t,
    currImage: &mut image_t,
    pSliceHeader: &sliceHeader_t,
) -> (r: u32)
    requires
        old(pStorage).wf(),
        old(pStorage).activePpsId < old(pStorage).pps.len(),
        old(pStorage).pps@[old(pStorage).activePpsId as int] is Some,
        old(pStorage).slice.sliceId < u32::MAX,
        ({
            let pps = old(pStorage).pps@[old(pStorage).activePpsId as int]->0;
            slice_data_ready(
                old(pStrmData),
                old(pStorage).mb@,
                old(pStorage).sliceGroupMap@,
                old(pStorage).picSizeInMbs,
                &old(pStorage).dpb,
                old(currImage),
                pSliceHeader.firstMbInSlice,
                pps.picInitQp + pSliceHeader.sliceQpDelta,
                pps.chromaQpIndexOffset,
            )
        }),
    ensures
        r == HANTRO_OK || r == HANTRO_NOK,
        final(pStorage).wf(),
        same_but_slice_state(final(pStorage), old(pStorage)),
        final(pStorage).slice.sliceId == old(pStorage).slice.sliceId + 1,
        final(pStorage).slice.lastMbAddr < old(pStorage).picSizeInMbs,
        r == HANTRO_OK ==> old(pStorage).slice.numDecodedMbs <= final(pStorage).slice.numDecodedMbs
            <= old(pStorage).picSizeInMbs,
        r != HANTRO_OK ==> final(pStorage).slice.numDecodedMbs == old(pStorage).slice.numDecodedMbs,
        final(pStorage).mb@.len() == old(pStorage).mb@.len(),
        nbrs_ready(final(pStorage).mb@),
        forall|j: int|
            0 <= j < old(pStorage).mb@.len() && !on_walk(
                old(pStorage).sliceGroupMap@,
                pSliceHeader.firstMbInSlice as int,
                j,
            ) ==> #[trigger] final(pStorage).mb@[j] == old(pStorage).mb@[j],
        final(pStrmData).wf(),
        final(pStrmData).same_stream(old(pStrmData)),
        final(currImage).wf(),
        final(currImage).width == old(currImage).width,
        final(currImage).height == old(currImage).height,
{
    let ppsId = pStorage.activePpsId as usize;
    let (qp0, cqo, cip) = match &pStorage.pps[ppsId] {
        Some(p) => (
            (p.picInitQp as i64 + pSliceHeader.sliceQpDelta as i64) as i32,
            p.chromaQpIndexOffset,
            p.constrainedIntraPredFlag,
        ),
        None => {
            return HANTRO_NOK;
        },
    };
    pStorage.slice.sliceId = pStorage.slice.sliceId + 1;
    pStorage.slice.lastMbAddr = 0;
    let sliceId = pStorage.slice.sliceId;
    let picSize = pStorage.picSizeInMbs;
    let mut mbs: Vec<mbStorage_t> = Vec::new();
    std::mem::swap(&mut mbs, &mut pStorage.mb);
    let (r, mbCount, lastMbAddr) = decode_slice_mbs(
        pStrmData,
        &mut mbs,
        &pStorage.sliceGroupMap,
        picSize,
        &pStorage.dpb,
        currImage,
        pSliceHeader,
        sliceId,
        qp0,
        cqo,
        cip,
    );
    std::mem::swap(&mut mbs, &mut pStorage.mb);
    pStorage.slice.lastMbAddr = lastMbAddr;
    if r != HANTRO_OK {
        return r;
    }
    if pStorage.slice.numDecodedMbs as u64 + mbCount as u64 > picSize as u64 {
        return HANTRO_NOK;
    }
    pStorage.slice.numDecodedMbs = pStorage.slice.numDecodedMbs + mbCount;
    HANTRO_OK
}

} // verus!

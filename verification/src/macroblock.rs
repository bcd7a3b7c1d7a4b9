//! Macroblock layer: data types and the macroblock type tables.
use vstd::prelude::*;
use crate::defs::{END_OF_STREAM, HANTRO_FALSE, HANTRO_NOK, HANTRO_OK, HANTRO_TRUE};
use crate::stream::{h264bsdFlushBits, show_bits_at, stream_bits, strmData_t};
use crate::syntax::{in_stream, step_done, u_ok_at};
use crate::vlc::{
    h264bsdDecodeExpGolombSigned, h264bsdDecodeExpGolombTruncated, h264bsdDecodeExpGolombUnsigned, lemma_ue_next,
    se_ok_at, se_value_at, ue_next, ue_next_at, ue_ok_at, ue_value_at,
};

verus! {

pub type mbType_e = u32;

pub const P_Skip: u32 = 0;
pub const P_L0_16x16: u32 = 1;
pub const P_L0_L0_16x8: u32 = 2;
pub const P_L0_L0_8x16: u32 = 3;
pub const P_8x8: u32 = 4;
pub const P_8x8ref0: u32 = 5;
pub const I_4x4: u32 = 6;
pub const I_16x16_0_0_0: u32 = 7;
pub const I_16x16_0_0_1: u32 = 19;
pub const I_PCM: u32 = 31;

pub type subMbType_e = u32;

pub const P_L0_8x8: u32 = 0;
pub const P_L0_8x4: u32 = 1;
pub const P_L0_4x8: u32 = 2;
pub const P_L0_4x4: u32 = 3;

pub type mbPartMode_e = u32;

pub const MB_P_16x16: u32 = 0;
pub const MB_P_16x8: u32 = 1;
pub const MB_P_8x16: u32 = 2;
pub const MB_P_8x8: u32 = 3;

pub type subMbPartMode_e = u32;

pub const MB_SP_8x8: u32 = 0;
pub const MB_SP_8x4: u32 = 1;
pub const MB_SP_4x8: u32 = 2;
pub const MB_SP_4x4: u32 = 3;

pub type mbPartPredMode_e = u32;

pub const PRED_MODE_INTRA4x4: u32 = 0;
pub const PRED_MODE_INTRA16x16: u32 = 1;
pub const PRED_MODE_INTER: u32 = 2;

/// Motion vector (quarter samples).
#[derive(Clone, Copy)]
pub struct mv_t {
    pub hor: i16,
    pub ver: i16,
}

/// Macroblock prediction syntax elements.
pub struct mbPred_t {
    pub prevIntra4x4PredModeFlag: [u32; 16],
    pub remIntra4x4PredMode: [u32; 16],
    pub intraChromaPredMode: u32,
    pub refIdxL0: [u32; 4],
    pub mvdL0: [mv_t; 4],
}

/// Sub-macroblock prediction syntax elements.
pub struct subMbPred_t {
    pub subMbType: [subMbType_e; 4],
    pub refIdxL0: [u32; 4],
    pub mvdL0: [[mv_t; 4]; 4],
}

/// Residual levels of the 26 blocks of a macroblock (16 luma, the luma DC,
/// 2 chroma DC and 8 chroma AC blocks) with their coefficient counts and
/// maps.
pub struct residual_t {
    pub totalCoeff: [i16; 27],
    pub level: [[i32; 16]; 26],
    pub coeffMap: [u32; 24],
}

/// Macroblock layer syntax elements.
pub struct macroblockLayer_t {
    pub mbType: mbType_e,
    pub codedBlockPattern: u32,
    pub mbQpDelta: i32,
    pub mbPred: mbPred_t,
    pub subMbPred: subMbPred_t,
    pub residual: residual_t,
}

/// Per-macroblock decoding state. The neighbours A (left), B (above),
/// C (above right) and D (above left) are addresses in the picture's
/// macroblock array, when they exist.
#[derive(Clone, Copy)]
pub struct mbStorage_t {
    pub mbType: mbType_e,
    pub sliceId: u32,
    pub disableDeblockingFilterIdc: u32,
    pub filterOffsetA: i32,
    pub filterOffsetB: i32,
    pub qpY: u32,
    pub chromaQpIndexOffset: i32,
    pub totalCoeff: [i16; 27],
    pub intra4x4PredMode: [u8; 16],
    pub refPic: [u32; 4],
    pub refAddr: [usize; 4],
    pub mv: [mv_t; 16],
    pub decoded: u32,
    pub mbA: Option<usize>,
    pub mbB: Option<usize>,
    pub mbC: Option<usize>,
    pub mbD: Option<usize>,
}

/// Is the macroblock intra coded (type above P_8x8ref0)?
pub fn IS_INTRA_MB(a: &mbStorage_t) -> (r: bool)
    ensures
        r == (a.mbType > P_8x8ref0),
{
    a.mbType > 5
}

/// Is the macroblock an I_PCM macroblock?
pub fn IS_I_PCM_MB(a: &mbStorage_t) -> (r: bool)
    ensures
        r == (a.mbType == I_PCM),
{
    a.mbType == 31
}

/// Prediction mode of a macroblock type: inter for the P types, intra 4x4
/// for I_4x4, intra 16x16 for everything above.
pub fn h264bsdMbPartPredMode(mbType: mbType_e) -> (r: mbPartPredMode_e)
    ensures
        r == (if mbType <= P_8x8ref0 {
            PRED_MODE_INTER
        } else if mbType == I_4x4 {
            PRED_MODE_INTRA4x4
        } else {
            PRED_MODE_INTRA16x16
        }),
{
    if mbType <= P_8x8ref0 {
        PRED_MODE_INTER
    } else if mbType == I_4x4 {
        PRED_MODE_INTRA4x4
    } else {
        PRED_MODE_INTRA16x16
    }
}

/// Number of macroblock partitions of an inter macroblock type.
pub fn h264bsdNumMbPart(mbType: mbType_e) -> (r: u32)
    ensures
        r == (if mbType == P_L0_16x16 || mbType == P_Skip {
            1u32
        } else if mbType == P_L0_L0_16x8 || mbType == P_L0_L0_8x16 {
            2
        } else {
            4
        }),
{
    match mbType {
        P_L0_16x16 | P_Skip => 1,
        P_L0_L0_16x8 | P_L0_L0_8x16 => 2,
        /* P_8x8 or P_8x8ref0 */
        _ => 4,
    }
}

/// Number of sub-partitions of a sub-macroblock type.
pub fn h264bsdNumSubMbPart(subMbType: subMbType_e) -> (r: u32)
    ensures
        r == (if subMbType == P_L0_8x8 {
            1u32
        } else if subMbType == P_L0_8x4 || subMbType == P_L0_4x8 {
            2
        } else {
            4
        }),
{
    match subMbType {
        P_L0_8x8 => 1,
        P_L0_8x4 | P_L0_4x8 => 2,
        /* P_L0_4x4 */
        _ => 4,
    }
}

/// Sub-partition mode of a sub-macroblock type (the same number).
pub fn h264bsdSubMbPartMode(subMbType: subMbType_e) -> (r: subMbPartMode_e)
    ensures
        r == subMbType,
{
    subMbType as subMbPartMode_e
}

/// Luma prediction mode (0..3) of an intra 16x16 macroblock type.
pub fn h264bsdPredModeIntra16x16(mbType: mbType_e) -> (r: u32)
    requires
        mbType >= I_16x16_0_0_0,
    ensures
        r == (mbType - I_16x16_0_0_0) % 4,
{
    /* tmp is 0 for I_16x16_0_0_0 mb type */
    let tmp = mbType - I_16x16_0_0_0;
    assert(tmp & 3u32 == tmp % 4) by (bit_vector);
    tmp & 0x3
}

/// Coded block pattern of an intra 16x16 macroblock type: the luma part
/// (0 or 15) and the chroma part (0, 1 or 2) in bits 4-5.
pub fn CbpIntra16x16(mbType: mbType_e) -> (cbp: u32)
    requires
        I_16x16_0_0_0 <= mbType < I_PCM,
    ensures
        cbp == (if mbType >= I_16x16_0_0_1 { 15u32 } else { 0u32 }) + 16 * (((mbType
            - I_16x16_0_0_0) / 4) % 3),
{
    let mut cbp: u32 = if mbType >= I_16x16_0_0_1 {
        15
    } else {
        0
    };
    /* tmp is 0 for I_16x16_0_0_0 mb type */
    let mut tmp = (mbType - I_16x16_0_0_0) >> 2;
    assert((mbType - 7) as u32 >> 2u32 == (mbType - 7) as u32 / 4) by (bit_vector);
    if tmp > 2 {
        tmp -= 3;
    }
    assert(tmp <= 2 ==> tmp << 4u32 == tmp * 16) by (bit_vector);
    cbp += tmp << 4;
    cbp
}

/// Model of the macroblock prediction syntax elements.
pub struct MbPredModel {
    pub prev: Seq<u32>,
    pub rem: Seq<u32>,
    pub chroma: u32,
    pub refIdx: Seq<u32>,
    pub mvd: Seq<mv_t>,
}

impl mbPred_t {
    pub open spec fn model(&self) -> MbPredModel {
        MbPredModel {
            prev: self.prevIntra4x4PredModeFlag@,
            rem: self.remIntra4x4PredMode@,
            chroma: self.intraChromaPredMode,
            refIdx: self.refIdxL0@,
            mvd: self.mvdL0@,
        }
    }
}

/// Model of the sub-macroblock prediction syntax elements.
pub struct SubMbPredModel {
    pub subMbType: Seq<u32>,
    pub refIdx: Seq<u32>,
    pub mvd: Seq<Seq<mv_t>>,
}

impl subMbPred_t {
    pub open spec fn model(&self) -> SubMbPredModel {
        SubMbPredModel {
            subMbType: self.subMbType@,
            refIdx: self.refIdxL0@,
            mvd: self.mvdL0@.map(|i: int, a: [mv_t; 4]| a@),
        }
    }
}

/// A truncated Exp-Golomb code word at `p` (range above one when `gt1`)
/// lies inside the stream.
pub open spec fn te_ok_at(d: Seq<u8>, sz: nat, p: int, gt1: bool) -> bool {
    if gt1 {
        ue_ok_at(d, sz, p)
    } else {
        u_ok_at(sz, p, 1)
    }
}

/// Value of the truncated Exp-Golomb code word at `p`.
pub open spec fn te_value_at(d: Seq<u8>, sz: nat, p: int, gt1: bool) -> int {
    if gt1 {
        ue_value_at(d, sz, p) as int
    } else {
        1 - stream_bits(d, sz, p, 1)
    }
}

/// Position after the truncated Exp-Golomb code word at `p`.
pub open spec fn te_next_at(d: Seq<u8>, sz: nat, p: int, gt1: bool) -> int {
    if gt1 {
        ue_next_at(d, sz, p)
    } else {
        p + 1
    }
}

/// Reference indices `j`..`n` from `p` on, each below `numRef`, written
/// over `refs`: (decoded, indices, end).
pub open spec fn ref_idx_list(d: Seq<u8>, sz: nat, p: int, j: nat, n: nat, numRef: u32, refs: Seq<u32>) -> (bool, Seq<u32>, int)
    decreases n - j,
{
    if j >= n {
        (true, refs, p)
    } else {
        let v = te_value_at(d, sz, p, numRef > 2);
        let q = te_next_at(d, sz, p, numRef > 2);
        if !te_ok_at(d, sz, p, numRef > 2) || v >= numRef {
            (false, refs, q)
        } else {
            ref_idx_list(d, sz, q, j + 1, n, numRef, refs.update(j as int, v as u32))
        }
    }
}

/// Motion vector differences `j`..`n` from `p` on (horizontal, then
/// vertical, each a signed Exp-Golomb code word kept in 16 bits), written
/// over `mvds`.
pub open spec fn mvd_list(d: Seq<u8>, sz: nat, p: int, j: nat, n: nat, mvds: Seq<mv_t>) -> (bool, Seq<mv_t>, int)
    decreases n - j,
{
    if j >= n {
        (true, mvds, p)
    } else {
        let q = ue_next_at(d, sz, p);
        let q2 = ue_next_at(d, sz, q);
        if !se_ok_at(d, sz, p) {
            (false, mvds, q)
        } else if !se_ok_at(d, sz, q) {
            (false, mvds, q2)
        } else {
            let mv = mv_t { hor: se_value_at(d, sz, p) as i16, ver: se_value_at(d, sz, q) as i16 };
            mvd_list(d, sz, q2, j + 1, n, mvds.update(j as int, mv))
        }
    }
}

/// The intra 4x4 prediction mode syntax of blocks `k`..15 from `q` on: a
/// flag bit, and where it is 0 three bits of the remaining mode (bits past
/// the end of the stream read as 0).
pub open spec fn intra_modes(d: Seq<u8>, sz: nat, q: int, k: nat, prev: Seq<u32>, rem: Seq<u32>) -> (Seq<u32>, Seq<u32>, int)
    decreases 16 - k,
{
    if k >= 16 {
        (prev, rem, q)
    } else if stream_bits(d, sz, q, 1) == 1 {
        intra_modes(d, sz, q + 1, k + 1, prev.update(k as int, HANTRO_TRUE), rem)
    } else {
        intra_modes(d, sz, q + 4, k + 1, prev.update(k as int, HANTRO_FALSE), rem.update(k as int, stream_bits(d, sz, q + 1, 3) as u32))
    }
}

/// Number of partitions of an inter macroblock type.
pub open spec fn num_mb_part(mbType: u32) -> nat {
    if mbType == P_L0_16x16 || mbType == P_Skip {
        1
    } else if mbType == P_L0_L0_16x8 || mbType == P_L0_L0_8x16 {
        2
    } else {
        4
    }
}

/// Number of sub-partitions of a sub-macroblock type.
pub open spec fn num_sub_mb_part(subMbType: u32) -> nat {
    if subMbType == P_L0_8x8 {
        1
    } else if subMbType == P_L0_8x4 || subMbType == P_L0_4x8 {
        2
    } else {
        4
    }
}

/// The mb_pred() syntax at `p` for a macroblock of type `mbType` with
/// `numRef` active reference pictures, written over `m`.
pub open spec fn mb_pred_syntax(d: Seq<u8>, sz: nat, p: int, m: MbPredModel, mbType: u32, numRef: u32) -> (bool, MbPredModel, int) {
    if mbType <= P_8x8ref0 {
        let n = num_mb_part(mbType);
        let r = if numRef > 1 {
            ref_idx_list(d, sz, p, 0, n, numRef, m.refIdx)
        } else {
            (true, m.refIdx, p)
        };
        let v = mvd_list(d, sz, r.2, 0, n, m.mvd);
        if !r.0 {
            (false, m, r.2)
        } else {
            (v.0, MbPredModel { refIdx: r.1, mvd: v.1, ..m }, v.2)
        }
    } else {
        let im = if mbType == I_4x4 {
            intra_modes(d, sz, p, 0, m.prev, m.rem)
        } else {
            (m.prev, m.rem, p)
        };
        let q = im.2;
        let c = ue_value_at(d, sz, q);
        if mbType == I_4x4 && q > 8 * sz {
            (false, m, q)
        } else if !ue_ok_at(d, sz, q) || c > 3 {
            (false, m, ue_next_at(d, sz, q))
        } else {
            (true, MbPredModel { prev: im.0, rem: im.1, chroma: c, ..m }, ue_next_at(d, sz, q))
        }
    }
}

/// Sub-macroblock types `i`..3 from `p` on, each at most 3.
pub open spec fn sub_types(d: Seq<u8>, sz: nat, p: int, i: nat, types: Seq<u32>) -> (bool, Seq<u32>, int)
    decreases 4 - i,
{
    if i >= 4 {
        (true, types, p)
    } else {
        let v = ue_value_at(d, sz, p);
        if !ue_ok_at(d, sz, p) || v > 3 {
            (false, types, ue_next_at(d, sz, p))
        } else {
            sub_types(d, sz, ue_next_at(d, sz, p), i + 1, types.update(i as int, v))
        }
    }
}

/// Motion vector differences of sub-macroblocks `i`..3 from `p` on.
pub open spec fn sub_mvds(d: Seq<u8>, sz: nat, p: int, i: nat, types: Seq<u32>, mvds: Seq<Seq<mv_t>>) -> (bool, Seq<Seq<mv_t>>, int)
    decreases 4 - i,
{
    if i >= 4 {
        (true, mvds, p)
    } else {
        let r = mvd_list(d, sz, p, 0, num_sub_mb_part(types[i as int]), mvds[i as int]);
        if !r.0 {
            (false, mvds, r.2)
        } else {
            sub_mvds(d, sz, r.2, i + 1, types, mvds.update(i as int, r.1))
        }
    }
}

/// The sub_mb_pred() syntax at `p`, written over `m`.
pub open spec fn sub_mb_pred_syntax(d: Seq<u8>, sz: nat, p: int, m: SubMbPredModel, mbType: u32, numRef: u32) -> (bool, SubMbPredModel, int) {
    let t = sub_types(d, sz, p, 0, m.subMbType);
    let r = if numRef > 1 && mbType != P_8x8ref0 {
        ref_idx_list(d, sz, t.2, 0, 4, numRef, m.refIdx)
    } else {
        (true, m.refIdx, t.2)
    };
    let v = sub_mvds(d, sz, r.2, 0, t.1, m.mvd);
    if !t.0 {
        (false, m, t.2)
    } else if !r.0 {
        (false, m, r.2)
    } else {
        (v.0, SubMbPredModel { subMbType: t.1, refIdx: r.1, mvd: v.1 }, v.2)
    }
}

/// Reference indices of `n` partitions into `refs`, each a truncated
/// Exp-Golomb code word below `numRef`.
fn decode_ref_idx(pStrmData: &mut strmData_t, refs: &mut [u32; 4], n: u32, numRef: u32) -> (r: u32)
    requires
        in_stream(old(pStrmData)),
        n <= 4,
    ensures
        final(pStrmData).wf(),
        final(pStrmData).same_stream(old(pStrmData)),
        step_done(
            r,
            ref_idx_list(old(pStrmData).data(), old(pStrmData).size(), old(pStrmData).pos(), 0, n as nat, numRef, old(refs)@),
            final(refs)@,
            final(pStrmData),
        ),
{
    let ghost s0 = *pStrmData;
    let ghost d = s0.data();
    let ghost sz = s0.size();
    let ghost l0 = ref_idx_list(d, sz, s0.pos(), 0, n as nat, numRef, refs@);
    let mut j: u32 = 0;
    while j < n
        invariant
            in_stream(pStrmData),
            pStrmData.same_stream(&s0),
            d == s0.data(),
            sz == s0.size(),
            j <= n <= 4,
            l0 == ref_idx_list(d, sz, pStrmData.pos(), j as nat, n as nat, numRef, refs@),
            s0 == *old(pStrmData),
            l0 == ref_idx_list(d, sz, s0.pos(), 0, n as nat, numRef, old(refs)@),
        decreases n - j,
    {
        let ghost q = pStrmData.pos();
        proof {
            lemma_ue_next(pStrmData, q);
        }
        let mut value: u32 = 0;
        let tmp = h264bsdDecodeExpGolombTruncated(pStrmData, &mut value, if numRef > 2 { 1 } else { 0 });
        if tmp != HANTRO_OK || value >= numRef {
            return HANTRO_NOK;
        }
        refs[j as usize] = value;
        j += 1;
    }
    HANTRO_OK
}

/// Motion vector differences of `n` partitions into `mvds`.
fn decode_mvds(pStrmData: &mut strmData_t, mvds: &mut [mv_t; 4], n: u32) -> (r: u32)
    requires
        in_stream(old(pStrmData)),
        n <= 4,
    ensures
        final(pStrmData).wf(),
        final(pStrmData).same_stream(old(pStrmData)),
        step_done(
            r,
            mvd_list(old(pStrmData).data(), old(pStrmData).size(), old(pStrmData).pos(), 0, n as nat, old(mvds)@),
            final(mvds)@,
            final(pStrmData),
        ),
{
    let ghost s0 = *pStrmData;
    let ghost d = s0.data();
    let ghost sz = s0.size();
    let ghost l0 = mvd_list(d, sz, s0.pos(), 0, n as nat, mvds@);
    let mut j: u32 = 0;
    while j < n
        invariant
            in_stream(pStrmData),
            pStrmData.same_stream(&s0),
            d == s0.data(),
            sz == s0.size(),
            j <= n <= 4,
            l0 == mvd_list(d, sz, pStrmData.pos(), j as nat, n as nat, mvds@),
            s0 == *old(pStrmData),
            l0 == mvd_list(d, sz, s0.pos(), 0, n as nat, old(mvds)@),
        decreases n - j,
    {
        let ghost q = pStrmData.pos();
        proof {
            lemma_ue_next(pStrmData, q);
        }
        let mut itmp: i32 = 0;
        let tmp = h264bsdDecodeExpGolombSigned(pStrmData, &mut itmp);
        if tmp != HANTRO_OK {
            return tmp;
        }
        let hor = itmp as i16;
        let ghost q1 = pStrmData.pos();
        proof {
            lemma_ue_next(pStrmData, q1);
        }
        let tmp = h264bsdDecodeExpGolombSigned(pStrmData, &mut itmp);
        if tmp != HANTRO_OK {
            return tmp;
        }
        mvds[j as usize] = mv_t { hor: hor, ver: itmp as i16 };
        j += 1;
    }
    HANTRO_OK
}

/// Position after `k`..15 intra modes lies at or after `q`.
proof fn lemma_intra_modes_mono(d: Seq<u8>, sz: nat, q: int, k: nat, prev: Seq<u32>, rem: Seq<u32>)
    requires
        k <= 16,
    ensures
        intra_modes(d, sz, q, k, prev, rem).2 >= q,
        intra_modes(d, sz, q, k, prev, rem).2 <= q + 4 * (16 - k),
    decreases 16 - k,
{
    if k < 16 {
        if stream_bits(d, sz, q, 1) == 1 {
            lemma_intra_modes_mono(d, sz, q + 1, k + 1, prev.update(k as int, HANTRO_TRUE), rem);
        } else {
            lemma_intra_modes_mono(
                d,
                sz,
                q + 4,
                k + 1,
                prev.update(k as int, HANTRO_FALSE),
                rem.update(k as int, stream_bits(d, sz, q + 1, 3) as u32),
            );
        }
    }
}

/// The intra 4x4 prediction modes of the 16 blocks, read in two groups of
/// eight from a 32-bit window each.
fn decode_intra4x4_modes(pStrmData: &mut strmData_t, prev: &mut [u32; 16], rem: &mut [u32; 16]) -> (r: u32)
    requires
        in_stream(old(pStrmData)),
    ensures
        final(pStrmData).wf(),
        final(pStrmData).same_stream(old(pStrmData)),
        ({
            let im = intra_modes(old(pStrmData).data(), old(pStrmData).size(), old(pStrmData).pos(), 0, old(prev)@, old(rem)@);
            &&& r == (if im.2 <= old(pStrmData).len_bits() { HANTRO_OK } else { HANTRO_NOK })
            &&& r == HANTRO_OK ==> {
                &&& final(prev)@ == im.0
                &&& final(rem)@ == im.1
                &&& final(pStrmData).pos() == im.2
                &&& in_stream(final(pStrmData))
            }
        }),
{
    let ghost s0 = *pStrmData;
    let ghost d = s0.data();
    let ghost sz = s0.size();
    let ghost im = intra_modes(d, sz, s0.pos(), 0, prev@, rem@);
    let mut i: usize = 0;
    let mut grp: u32 = 0;
    while grp < 2
        invariant
            in_stream(pStrmData),
            pStrmData.same_stream(&s0),
            d == s0.data(),
            sz == s0.size(),
            grp <= 2,
            i == 8 * grp,
            im == intra_modes(d, sz, pStrmData.pos(), i as nat, prev@, rem@),
            im == intra_modes(d, sz, s0.pos(), 0, old(prev)@, old(rem)@),
            s0 == *old(pStrmData),
        decreases 2 - grp,
    {
        let base = pStrmData.strmBuffReadBits;
        let mut off: u32 = 0;
        let mut tmp: u32 = 0;
        let mut j: u32 = 0;
        while j < 8
            invariant
                pStrmData.wf(),
                in_stream(pStrmData),
                pStrmData.same_stream(&s0),
                d == s0.data(),
                sz == s0.size(),
                base == pStrmData.pos(),
                grp < 2,
                j <= 8,
                i == 8 * grp + j,
                off == j + 3 * tmp,
                tmp <= j,
                im == intra_modes(d, sz, base + off, i as nat, prev@, rem@),
                im == intra_modes(d, sz, s0.pos(), 0, old(prev)@, old(rem)@),
                s0 == *old(pStrmData),
            decreases 8 - j,
        {
            let flag = show_bits_at(pStrmData, base + off, 1);
            off += 1;
            if flag == 1 {
                prev[i] = HANTRO_TRUE;
            } else {
                prev[i] = HANTRO_FALSE;
                rem[i] = show_bits_at(pStrmData, base + off, 3);
                off += 3;
                tmp += 1;
            }
            i += 1;
            j += 1;
        }
        proof {
            lemma_intra_modes_mono(d, sz, base + off, i as nat, prev@, rem@);
        }
        if h264bsdFlushBits(pStrmData, 8 + 3 * tmp) == END_OF_STREAM {
            return HANTRO_NOK;
        }
        grp += 1;
    }
    HANTRO_OK
}

/// Decode mb_pred() of a macroblock of type `mbType` with `numRefIdxActive`
/// active reference pictures into `pMbPred`.
pub fn DecodeMbPred(pStrmData: &mut strmData_t, pMbPred: &mut mbPred_t, mbType: mbType_e, numRefIdxActive: u32) -> (r: u32)
    requires
        in_stream(old(pStrmData)),
    ensures
        final(pStrmData).wf(),
        final(pStrmData).same_stream(old(pStrmData)),
        step_done(
            r,
            mb_pred_syntax(
                old(pStrmData).data(),
                old(pStrmData).size(),
                old(pStrmData).pos(),
                old(pMbPred).model(),
                mbType,
                numRefIdxActive,
            ),
            final(pMbPred).model(),
            final(pStrmData),
        ),
{
    let ghost s0 = *pStrmData;
    let ghost d = s0.data();
    let ghost sz = s0.size();
    let partMode = h264bsdMbPartPredMode(mbType);
    if partMode == PRED_MODE_INTER {
        let n = h264bsdNumMbPart(mbType);
        if numRefIdxActive > 1 {
            let tmp = decode_ref_idx(pStrmData, &mut pMbPred.refIdxL0, n, numRefIdxActive);
            if tmp != HANTRO_OK {
                return HANTRO_NOK;
            }
        }
        let tmp = decode_mvds(pStrmData, &mut pMbPred.mvdL0, n);
        if tmp != HANTRO_OK {
            return tmp;
        }
        HANTRO_OK
    } else {
        if partMode == PRED_MODE_INTRA4x4 {
            let tmp = decode_intra4x4_modes(pStrmData, &mut pMbPred.prevIntra4x4PredModeFlag, &mut pMbPred.remIntra4x4PredMode);
            if tmp != HANTRO_OK {
                return HANTRO_NOK;
            }
        }
        let ghost q = pStrmData.pos();
        proof {
            lemma_ue_next(pStrmData, q);
        }
        let mut value: u32 = 0;
        let tmp = h264bsdDecodeExpGolombUnsigned(pStrmData, &mut value);
        if tmp != HANTRO_OK || value > 3 {
            return HANTRO_NOK;
        }
        pMbPred.intraChromaPredMode = value;
        HANTRO_OK
    }
}

/// Decode sub_mb_pred() of a P_8x8 or P_8x8ref0 macroblock with
/// `numRefIdxActive` active reference pictures into `pSubMbPred`.
pub fn DecodeSubMbPred(pStrmData: &mut strmData_t, pSubMbPred: &mut subMbPred_t, mbType: mbType_e, numRefIdxActive: u32) -> (r: u32)
    requires
        in_stream(old(pStrmData)),
    ensures
        final(pStrmData).wf(),
        final(pStrmData).same_stream(old(pStrmData)),
        step_done(
            r,
            sub_mb_pred_syntax(
                old(pStrmData).data(),
                old(pStrmData).size(),
                old(pStrmData).pos(),
                old(pSubMbPred).model(),
                mbType,
                numRefIdxActive,
            ),
            final(pSubMbPred).model(),
            final(pStrmData),
        ),
{
    let ghost s0 = *pStrmData;
    let ghost d = s0.data();
    let ghost sz = s0.size();
    let ghost m0 = pSubMbPred.model();
    let ghost t0 = sub_types(d, sz, s0.pos(), 0, m0.subMbType);
    let mut i: u32 = 0;
    while i < 4
        invariant
            in_stream(pStrmData),
            pStrmData.same_stream(&s0),
            d == s0.data(),
            sz == s0.size(),
            i <= 4,
            t0 == sub_types(d, sz, pStrmData.pos(), i as nat, pSubMbPred.subMbType@),
            pSubMbPred.refIdxL0@ == m0.refIdx,
            pSubMbPred.mvdL0@ == old(pSubMbPred).mvdL0@,
            s0 == *old(pStrmData),
            m0 == old(pSubMbPred).model(),
            t0 == sub_types(d, sz, s0.pos(), 0, m0.subMbType),
        decreases 4 - i,
    {
        let ghost q = pStrmData.pos();
        proof {
            lemma_ue_next(pStrmData, q);
        }
        let mut value: u32 = 0;
        let tmp = h264bsdDecodeExpGolombUnsigned(pStrmData, &mut value);
        if tmp != HANTRO_OK || value > 3 {
            return HANTRO_NOK;
        }
        pSubMbPred.subMbType[i as usize] = value;
        i += 1;
    }
    let ghost types = pSubMbPred.subMbType@;
    let ghost p1 = pStrmData.pos();
    assert(t0 == (true, types, p1));
    if numRefIdxActive > 1 && mbType != P_8x8ref0 {
        let tmp = decode_ref_idx(pStrmData, &mut pSubMbPred.refIdxL0, 4, numRefIdxActive);
        if tmp != HANTRO_OK {
            return HANTRO_NOK;
        }
    }
    let ghost r0 = if numRefIdxActive > 1 && mbType != P_8x8ref0 {
        ref_idx_list(d, sz, p1, 0, 4, numRefIdxActive, m0.refIdx)
    } else {
        (true, m0.refIdx, p1)
    };
    assert(r0.0 && r0.1 == pSubMbPred.refIdxL0@ && r0.2 == pStrmData.pos());
    let ghost p2 = pStrmData.pos();
    let ghost v0 = sub_mvds(d, sz, p2, 0, types, m0.mvd);
    assert(pSubMbPred.model().mvd =~= m0.mvd);
    let mut i: u32 = 0;
    while i < 4
        invariant
            in_stream(pStrmData),
            pStrmData.same_stream(&s0),
            d == s0.data(),
            sz == s0.size(),
            i <= 4,
            pSubMbPred.subMbType@ == types,
            pSubMbPred.refIdxL0@ == r0.1,
            v0 == sub_mvds(d, sz, pStrmData.pos(), i as nat, types, pSubMbPred.model().mvd),
            s0 == *old(pStrmData),
            m0 == old(pSubMbPred).model(),
            t0 == sub_types(d, sz, s0.pos(), 0, m0.subMbType),
            t0 == (true, types, p1),
            r0 == (if numRefIdxActive > 1 && mbType != P_8x8ref0 {
                ref_idx_list(d, sz, p1, 0, 4, numRefIdxActive, m0.refIdx)
            } else {
                (true, m0.refIdx, p1)
            }),
            r0.0,
            r0.2 == p2,
            v0 == sub_mvds(d, sz, p2, 0, types, m0.mvd),
        decreases 4 - i,
    {
        let n = h264bsdNumSubMbPart(pSubMbPred.subMbType[i as usize]);
        let mut row = pSubMbPred.mvdL0[i as usize];
        let ghost mv0 = pSubMbPred.model().mvd;
        assert(mv0[i as int] == row@);
        assert(n == num_sub_mb_part(types[i as int]));
        let tmp = decode_mvds(pStrmData, &mut row, n);
        if tmp != HANTRO_OK {
            assert(!v0.0);
            return tmp;
        }
        pSubMbPred.mvdL0[i as usize] = row;
        proof {
            assert(pSubMbPred.model().mvd =~= mv0.update(i as int, row@));
        }
        i += 1;
    }
    assert(v0 == (true, pSubMbPred.model().mvd, pStrmData.pos()));
    assert(pSubMbPred.model() == (SubMbPredModel { subMbType: types, refIdx: r0.1, mvd: v0.1 }));
    HANTRO_OK
}

} // verus!

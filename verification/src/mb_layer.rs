//! The macroblock_layer() syntax: macroblock type, PCM samples or the
//! prediction syntax, coded block pattern, QP delta and residual.
use vstd::prelude::*;
use vstd::arithmetic::power2::*;
use crate::defs::{END_OF_STREAM, HANTRO_NOK, HANTRO_OK};
use crate::macroblock::{
    intra_modes, sub_types, P_8x8,
    h264bsdMbPartPredMode, h264bsdNumMbPart, macroblockLayer_t, mbPred_t, mbStorage_t, mv_t, num_mb_part,
    mb_pred_syntax, residual_t, sub_mb_pred_syntax, subMbPred_t, CbpIntra16x16, DecodeMbPred, DecodeSubMbPred,
    MbPredModel, SubMbPredModel, I_16x16_0_0_1, I_16x16_0_0_0, I_4x4, I_PCM, P_8x8ref0, PRED_MODE_INTER,
    PRED_MODE_INTRA16x16, PRED_MODE_INTRA4x4,
};
use crate::residual::{h264bsd_is16, neighbours_ok, res_run, res_state, DecodeResidual, ResState};
use crate::stream::{h264bsdGetBits, h264bsdIsByteAligned, lemma_stream_bits_bound, stream_bits, strmData_t};
use crate::vlc::{
    cbp_of, h264bsdDecodeExpGolombMapped, h264bsdDecodeExpGolombSigned, h264bsdDecodeExpGolombUnsigned,
    lemma_ue_next, se_ok_at, se_value_at, ue_next_at, ue_ok_at, ue_value_at,
};

verus! {

/// The macroblock layer as values: type, coded block pattern, QP delta,
/// prediction syntax (whole macroblock and sub-macroblock), and the
/// residual's coefficient counts, 26 level arrays and coefficient maps.
#[verifier::ext_equal]
pub struct MbLayerModel {
    pub mbType: u32,
    pub cbp: u32,
    pub qpDelta: i32,
    pub pred: MbPredModel,
    pub sub: SubMbPredModel,
    pub tc: Seq<i16>,
    pub level: Seq<Seq<i32>>,
    pub map: Seq<u32>,
}

impl macroblockLayer_t {
    pub open spec fn model(&self) -> MbLayerModel {
        MbLayerModel {
            mbType: self.mbType,
            cbp: self.codedBlockPattern,
            qpDelta: self.mbQpDelta,
            pred: self.mbPred.model(),
            sub: self.subMbPred.model(),
            tc: self.residual.totalCoeff@,
            level: Seq::new(26, |i: int| self.residual.level@[i]@),
            map: self.residual.coeffMap@,
        }
    }
}

/// The zero motion vector.
pub open spec fn mv0() -> mv_t {
    mv_t { hor: 0, ver: 0 }
}

/// A macroblock layer with every field zero.
pub open spec fn layer_zero() -> MbLayerModel {
    MbLayerModel {
        mbType: 0,
        cbp: 0,
        qpDelta: 0,
        pred: MbPredModel {
            prev: Seq::new(16, |i: int| 0u32),
            rem: Seq::new(16, |i: int| 0u32),
            chroma: 0,
            refIdx: Seq::new(4, |i: int| 0u32),
            mvd: Seq::new(4, |i: int| mv0()),
        },
        sub: SubMbPredModel {
            subMbType: Seq::new(4, |i: int| 0u32),
            refIdx: Seq::new(4, |i: int| 0u32),
            mvd: Seq::new(4, |i: int| Seq::new(4, |j: int| mv0())),
        },
        tc: Seq::new(27, |i: int| 0i16),
        level: Seq::new(26, |i: int| Seq::new(16, |j: int| 0i32)),
        map: Seq::new(24, |i: int| 0u32),
    }
}

/// A macroblock layer with every field zero.
pub fn zero_layer() -> (l: macroblockLayer_t)
    ensures
        l.model() == layer_zero(),
{
    let l = macroblockLayer_t {
        mbType: 0,
        codedBlockPattern: 0,
        mbQpDelta: 0,
        mbPred: mbPred_t {
            prevIntra4x4PredModeFlag: [0u32; 16],
            remIntra4x4PredMode: [0u32; 16],
            intraChromaPredMode: 0,
            refIdxL0: [0u32; 4],
            mvdL0: [mv_t { hor: 0, ver: 0 }; 4],
        },
        subMbPred: subMbPred_t {
            subMbType: [0u32; 4],
            refIdxL0: [0u32; 4],
            mvdL0: [[mv_t { hor: 0, ver: 0 }; 4]; 4],
        },
        residual: residual_t { totalCoeff: [0i16; 27], level: [[0i32; 16]; 26], coeffMap: [0u32; 24] },
    };
    proof {
        let z = layer_zero();
        assert(l.mbPred.model().prev =~= z.pred.prev);
        assert(l.mbPred.model().rem =~= z.pred.rem);
        assert(l.mbPred.model().refIdx =~= z.pred.refIdx);
        assert(l.mbPred.model().mvd =~= z.pred.mvd);
        assert(l.subMbPred.model().subMbType =~= z.sub.subMbType);
        assert(l.subMbPred.model().refIdx =~= z.sub.refIdx);
        assert forall|i: int| 0 <= i < 4 implies #[trigger] l.subMbPred.model().mvd[i] =~= z.sub.mvd[i] by {}
        assert(l.subMbPred.model().mvd =~= z.sub.mvd);
        assert(l.model().tc =~= z.tc);
        assert forall|i: int| 0 <= i < 26 implies #[trigger] l.model().level[i] =~= z.level[i] by {}
        assert(l.model().level =~= z.level);
        assert(l.model().map =~= z.map);
        assert(l.model() =~= z);
    }
    l
}

/// Clear the macroblock layer: every field zero. (`size` is the size of
/// the structure; the whole structure is cleared.)
pub fn h264bsdClearMbLayer(pMbLayer: &mut macroblockLayer_t, size: u32) -> (r: u32)
    ensures
        r == HANTRO_OK,
        final(pMbLayer).model() == layer_zero(),
{
    *pMbLayer = zero_layer();
    HANTRO_OK
}

/// Where the PCM samples start: the next byte boundary from `q`.
pub open spec fn pcm_start(q: int) -> int {
    if q % 8 == 0 {
        q
    } else {
        q - q % 8 + 8
    }
}

/// The PCM samples after the macroblock type, which ends at `q`: zero
/// alignment bits up to the byte boundary, then 384 bytes, the first 24
/// level arrays in order (the other two stay zero).
pub open spec fn pcm_syntax(d: Seq<u8>, sz: nat, q: int) -> (bool, Seq<Seq<i32>>, int) {
    let a = pcm_start(q);
    let level = Seq::new(
        26,
        |b: int| Seq::new(16, |j: int| if b < 24 { stream_bits(d, sz, a + 8 * (16 * b + j), 8) as i32 } else { 0i32 }),
    );
    if a > 8 * sz || exists|i: int| q <= i < a && #[trigger] stream_bits(d, sz, i, 1) != 0 {
        (false, level, a)
    } else if a + 3072 > 8 * sz {
        (false, level, a + 3072)
    } else {
        (true, level, a + 3072)
    }
}

/// The prediction mode of a macroblock type: inter for the P types, intra
/// 4x4 for I_4x4, intra 16x16 otherwise.
pub open spec fn pred_mode(t: u32) -> u32 {
    if t <= P_8x8ref0 {
        PRED_MODE_INTER
    } else if t == I_4x4 {
        PRED_MODE_INTRA4x4
    } else {
        PRED_MODE_INTRA16x16
    }
}

/// Coded block pattern of an intra 16x16 macroblock type.
pub open spec fn cbp16(t: u32) -> u32 {
    ((if t >= I_16x16_0_0_1 { 15int } else { 0int }) + 16 * (((t - I_16x16_0_0_0) / 4) % 3)) as u32
}

/// The macroblock_layer() syntax at `p` of macroblock `cur` in a slice of
/// type `sliceType` with `numRef` active reference pictures, written over
/// a cleared layer: (decoded, layer, end). mb_type (offset by 6 in I
/// slices) must be at most I_PCM; an I_PCM macroblock carries its samples;
/// any other carries mb_pred() or, for the 8x8 inter types,
/// sub_mb_pred(), then coded_block_pattern (implied by the type for intra
/// 16x16) and, when a block is coded or the type is intra 16x16,
/// mb_qp_delta in [-26, 25] and the residual.
pub open spec fn mb_layer_syntax(
    d: Seq<u8>,
    sz: nat,
    p: int,
    mbs: Seq<mbStorage_t>,
    cur: int,
    sliceType: u32,
    numRef: u32,
) -> (bool, MbLayerModel, int) {
    let z = layer_zero();
    let v = ue_value_at(d, sz, p);
    let q = ue_next_at(d, sz, p);
    let ti = if sliceType == 2 || sliceType == 7 { v + 6 } else { v + 1 };
    let t = ti as u32;
    let m1 = MbLayerModel { mbType: t, ..z };
    let mode = pred_mode(t);
    let sub = mode == PRED_MODE_INTER && num_mb_part(t) == 4;
    let ps = sub_mb_pred_syntax(d, sz, q, z.sub, t, numRef);
    let pm = mb_pred_syntax(d, sz, q, z.pred, t, numRef);
    let ok1 = if sub { ps.0 } else { pm.0 };
    let q2 = if sub { ps.2 } else { pm.2 };
    let m2 = if sub { MbLayerModel { sub: ps.1, ..m1 } } else { MbLayerModel { pred: pm.1, ..m1 } };
    let cv = ue_value_at(d, sz, q2);
    let cbp = if mode != PRED_MODE_INTRA16x16 {
        cbp_of(cv, if mode == PRED_MODE_INTRA4x4 { 1u32 } else { 0u32 })
    } else {
        cbp16(t)
    };
    let q3 = if mode != PRED_MODE_INTRA16x16 { ue_next_at(d, sz, q2) } else { q2 };
    let m3 = MbLayerModel { cbp, ..m2 };
    let dq = se_value_at(d, sz, q3);
    let q4 = ue_next_at(d, sz, q3);
    let rs = res_run(
        d,
        sz,
        mbs,
        cur,
        h264bsd_is16(t),
        cbp,
        ResState { ok: true, pos: q4, tc: z.tc, level: z.level, map: z.map },
        27,
    );
    let pc = pcm_syntax(d, sz, q);
    if !ue_ok_at(d, sz, p) || ti > 31 {
        (false, z, q)
    } else if t == I_PCM {
        (pc.0, MbLayerModel { level: pc.1, ..m1 }, pc.2)
    } else if !ok1 {
        (false, m2, q2)
    } else if mode != PRED_MODE_INTRA16x16 && !(ue_ok_at(d, sz, q2) && cv <= 47) {
        (false, m2, q3)
    } else if !(cbp != 0 || mode == PRED_MODE_INTRA16x16) {
        (true, m3, q3)
    } else if !se_ok_at(d, sz, q3) || dq < -26 || dq > 25 {
        (false, m3, q4)
    } else {
        (rs.ok, MbLayerModel { qpDelta: dq, tc: rs.tc, level: rs.level, map: rs.map, ..m3 }, rs.pos)
    }
}

/// Read the PCM samples of an I_PCM macroblock into the level arrays of a
/// cleared residual (`pcm_syntax`).
#[verifier::rlimit(100)]
#[verifier::spinoff_prover]
fn decode_pcm(s: &mut strmData_t, res: &mut residual_t) -> (r: u32)
    requires
        old(s).wf(),
        8 * old(s).size() <= 0x8000_0000,
        old(s).pos() <= old(s).len_bits(),
        Seq::new(26, |i: int| old(res).level@[i]@) == layer_zero().level,
    ensures
        final(s).wf(),
        final(s).same_stream(old(s)),
        ({
            let pc = pcm_syntax(old(s).data(), old(s).size(), old(s).pos());
            &&& r == if pc.0 { HANTRO_OK } else { HANTRO_NOK }
            &&& pc.0 ==> Seq::new(26, |i: int| final(res).level@[i]@) == pc.1
            &&& pc.0 ==> final(s).pos() == pc.2
            &&& final(res).totalCoeff == old(res).totalCoeff
            &&& final(res).coeffMap == old(res).coeffMap
        }),
{
    let ghost d = s.data();
    let ghost sz = s.size();
    let ghost q = s.pos();
    let ghost a = pcm_start(q);
    let ghost pc = pcm_syntax(d, sz, q);
    let ghost lv0 = Seq::new(26, |i: int| res.level@[i]@);
    while h264bsdIsByteAligned(s) == 0
        invariant
            s.wf(),
            s.data() == d,
            s.size() == sz,
            s.same_stream(old(s)),
            8 * sz <= 0x8000_0000,
            q <= s.pos() <= a,
            s.pos() <= s.len_bits(),
            a == pcm_start(q),
            pc == pcm_syntax(d, sz, q),
            d == old(s).data(),
            sz == old(s).size(),
            q == old(s).pos(),
            forall|i: int| q <= i < s.pos() ==> #[trigger] stream_bits(d, sz, i, 1) == 0,
            *res == *old(res),
        decreases a - s.pos(),
    {
        let ghost p0 = s.pos();
        proof {
            assert(p0 % 8 != 0);
            assert(a % 8 == 0);
            assert(q <= p0 < a);
        }
        let b = h264bsdGetBits(s, 1);
        if b != 0 {
            proof {
                if p0 + 1 <= 8 * sz {
                    assert(stream_bits(d, sz, p0, 1) != 0);
                    assert(exists|i: int| q <= i < a && #[trigger] stream_bits(d, sz, i, 1) != 0);
                }
                assert(!pc.0);
            }
            return HANTRO_NOK;
        }
        proof {
            if p0 + 1 > 8 * sz {
                assert(b == END_OF_STREAM);
            }
        }
    }
    assert(s.pos() == a);
    let mut blk: usize = 0;
    while blk < 24
        invariant
            blk <= 24,
            s.wf(),
            s.data() == d,
            s.size() == sz,
            s.same_stream(old(s)),
            8 * sz <= 0x8000_0000,
            a == pcm_start(q),
            pc == pcm_syntax(d, sz, q),
            d == old(s).data(),
            sz == old(s).size(),
            q == old(s).pos(),
            s.pos() == a + 128 * blk,
            s.pos() <= s.len_bits(),
            a <= 8 * sz,
            forall|i: int| q <= i < a ==> #[trigger] stream_bits(d, sz, i, 1) == 0,
            forall|b: int| 0 <= b < blk ==> #[trigger] res.level@[b]@ == pc.1[b],
            forall|b: int| blk <= b < 26 ==> #[trigger] res.level@[b]@ == lv0[b],
            lv0 == layer_zero().level,
            res.totalCoeff == old(res).totalCoeff,
            res.coeffMap == old(res).coeffMap,
        decreases 24 - blk,
    {
        let mut row = [0i32; 16];
        let mut j: usize = 0;
        while j < 16
            invariant
                j <= 16,
                blk < 24,
                s.wf(),
                s.data() == d,
                s.size() == sz,
                s.same_stream(old(s)),
                8 * sz <= 0x8000_0000,
                s.pos() == a + 128 * blk + 8 * j,
                s.pos() <= s.len_bits(),
                pc == pcm_syntax(d, sz, q),
                d == old(s).data(),
                sz == old(s).size(),
                q == old(s).pos(),
            d == old(s).data(),
            sz == old(s).size(),
            q == old(s).pos(),
                a == pcm_start(q),
                a <= 8 * sz,
                forall|i: int| q <= i < a ==> #[trigger] stream_bits(d, sz, i, 1) == 0,
                forall|k: int| 0 <= k < j ==> #[trigger] row@[k] == pc.1[blk as int][k],
                forall|b: int| 0 <= b < blk ==> #[trigger] res.level@[b]@ == pc.1[b],
                forall|b: int| blk <= b < 26 ==> #[trigger] res.level@[b]@ == lv0[b],
                lv0 == layer_zero().level,
                res.totalCoeff == old(res).totalCoeff,
                res.coeffMap == old(res).coeffMap,
            decreases 16 - j,
        {
            let ghost p0 = s.pos();
            let v = h264bsdGetBits(s, 8);
            if v == END_OF_STREAM {
                proof {
                    if p0 + 8 <= 8 * sz {
                        lemma2_to64();
                        assert(v < 256);
                    }
                    assert(!pc.0);
                }
                return HANTRO_NOK;
            }
            proof {
                lemma2_to64();
                assert(p0 + 8 <= 8 * sz);
                assert(v as int == stream_bits(d, sz, a + 8 * (16 * blk + j), 8));
            }
            row[j] = v as i32;
            j += 1;
        }
        res.level[blk] = row;
        proof {
            assert(res.level@[blk as int]@ =~= pc.1[blk as int]);
        }
        blk += 1;
    }
    proof {
        assert(pc.0);
        assert forall|b: int| 24 <= b < 26 implies #[trigger] res.level@[b]@ =~= pc.1[b] by {
            assert(res.level@[b]@ == lv0[b]);
        }
        assert(Seq::new(26, |i: int| res.level@[i]@) =~= pc.1);
    }
    HANTRO_OK
}

/// Decode the macroblock layer of macroblock `cur` (its neighbours give
/// the residual's nC) in a slice of type `sliceType` with
/// `numRefIdxActive` active reference pictures (`mb_layer_syntax`):
/// HANTRO_OK with the layer and the stream after it when it decodes, else
/// HANTRO_NOK.
pub fn h264bsdDecodeMacroblockLayer(
    pStrmData: &mut strmData_t,
    pMbLayer: &mut macroblockLayer_t,
    mbs: &Vec<mbStorage_t>,
    cur: usize,
    sliceType: u32,
    numRefIdxActive: u32,
) -> (r: u32)
    requires
        old(pStrmData).wf(),
        8 * old(pStrmData).size() <= 0x8000_0000,
        old(pStrmData).pos() <= old(pStrmData).len_bits(),
        cur < mbs.len(),
        neighbours_ok(mbs@),
    ensures
        final(pStrmData).wf(),
        final(pStrmData).same_stream(old(pStrmData)),
        ({
            let st = mb_layer_syntax(
                old(pStrmData).data(),
                old(pStrmData).size(),
                old(pStrmData).pos(),
                mbs@,
                cur as int,
                sliceType,
                numRefIdxActive,
            );
            &&& r == if st.0 { HANTRO_OK } else { HANTRO_NOK }
            &&& st.0 ==> final(pMbLayer).model() == st.1 && final(pStrmData).pos() == st.2
        }),
{
    let ghost s0 = *pStrmData;
    let ghost d = s0.data();
    let ghost sz = s0.size();
    let ghost p = s0.pos();
    let ghost st = mb_layer_syntax(d, sz, p, mbs@, cur as int, sliceType, numRefIdxActive);
    *pMbLayer = zero_layer();
    let mut value: u32 = 0;
    proof {
        lemma_ue_next(&s0, p);
    }
    let tmp = h264bsdDecodeExpGolombUnsigned(pStrmData, &mut value);
    if tmp != HANTRO_OK {
        return HANTRO_NOK;
    }
    let mbType: u32;
    if sliceType == 2 || sliceType == 7 {
        if value > 25 {
            return HANTRO_NOK;
        }
        mbType = value + 6;
    } else {
        if value > 30 {
            return HANTRO_NOK;
        }
        mbType = value + 1;
    }
    pMbLayer.mbType = mbType;
    if mbType == I_PCM {
        proof {
            assert(Seq::new(26, |i: int| pMbLayer.residual.level@[i]@) == layer_zero().level);
        }
        let r = decode_pcm(pStrmData, &mut pMbLayer.residual);
        proof {
            if r == HANTRO_OK {
                assert(pMbLayer.model() =~= st.1);
            }
        }
        return r;
    }
    let partMode = h264bsdMbPartPredMode(mbType);
    let ghost q = pStrmData.pos();
    let tmp = if partMode == PRED_MODE_INTER && h264bsdNumMbPart(mbType) == 4 {
        DecodeSubMbPred(pStrmData, &mut pMbLayer.subMbPred, mbType, numRefIdxActive)
    } else {
        DecodeMbPred(pStrmData, &mut pMbLayer.mbPred, mbType, numRefIdxActive)
    };
    if tmp != HANTRO_OK {
        return tmp;
    }
    let ghost q2 = pStrmData.pos();
    let cbp: u32;
    if partMode != PRED_MODE_INTRA16x16 {
        let mut v: u32 = 0;
        let isIntra: u32 = if partMode == PRED_MODE_INTRA4x4 { 1 } else { 0 };
        let tmp = h264bsdDecodeExpGolombMapped(pStrmData, &mut v, isIntra);
        if tmp != HANTRO_OK {
            return tmp;
        }
        proof {
            lemma_ue_next(&*pStrmData, q2);
        }
        cbp = v;
    } else {
        cbp = CbpIntra16x16(mbType);
    }
    pMbLayer.codedBlockPattern = cbp;
    if cbp != 0 || partMode == PRED_MODE_INTRA16x16 {
        let ghost q3 = pStrmData.pos();
        proof {
            lemma_ue_next(&*pStrmData, q3);
        }
        let mut itmp: i32 = 0;
        let tmp = h264bsdDecodeExpGolombSigned(pStrmData, &mut itmp);
        if tmp != HANTRO_OK || itmp < -26 || itmp > 25 {
            return HANTRO_NOK;
        }
        pMbLayer.mbQpDelta = itmp;
        proof {
            let z = layer_zero();
            assert(res_state(&pMbLayer.residual, pStrmData.pos()) =~= (ResState {
                ok: true,
                pos: pStrmData.pos(),
                tc: z.tc,
                level: z.level,
                map: z.map,
            }));
        }
        let tmp = DecodeResidual(pStrmData, &mut pMbLayer.residual, mbs, cur, mbType, cbp);
        if tmp != HANTRO_OK {
            return tmp;
        }
    }
    proof {
        assert(pMbLayer.model() =~= st.1);
    }
    HANTRO_OK
}

/// Remaining intra 4x4 modes read from the stream are three-bit values.
proof fn lemma_intra_modes_small(d: Seq<u8>, sz: nat, q: int, k: nat, prev: Seq<u32>, rem: Seq<u32>)
    requires
        rem.len() == 16,
        forall|j: int| 0 <= j < 16 ==> #[trigger] rem[j] < 8,
    ensures
        intra_modes(d, sz, q, k, prev, rem).1.len() == 16,
        forall|j: int| 0 <= j < 16 ==> #[trigger] intra_modes(d, sz, q, k, prev, rem).1[j] < 8,
    decreases 16 - k,
{
    if k < 16 {
        if stream_bits(d, sz, q, 1) == 1 {
            lemma_intra_modes_small(d, sz, q + 1, k + 1, prev.update(k as int, 1u32), rem);
        } else {
            lemma_stream_bits_bound(d, sz, q + 1, 3);
            lemma2_to64();
            lemma_intra_modes_small(
                d,
                sz,
                q + 4,
                k + 1,
                prev.update(k as int, 0u32),
                rem.update(k as int, stream_bits(d, sz, q + 1, 3) as u32),
            );
        }
    }
}

/// Sub-macroblock types read from the stream are at most 3.
proof fn lemma_sub_types_small(d: Seq<u8>, sz: nat, p: int, i: nat, types: Seq<u32>)
    requires
        types.len() == 4,
        forall|j: int| 0 <= j < 4 ==> #[trigger] types[j] < 4,
    ensures
        sub_types(d, sz, p, i, types).1.len() == 4,
        forall|j: int| 0 <= j < 4 ==> #[trigger] sub_types(d, sz, p, i, types).1[j] < 4,
    decreases 4 - i,
{
    if i < 4 {
        let v = ue_value_at(d, sz, p);
        if ue_ok_at(d, sz, p) && v <= 3 {
            lemma_sub_types_small(d, sz, ue_next_at(d, sz, p), i + 1, types.update(i as int, v));
        }
    }
}

/// What a decoded macroblock layer holds in any case: a type from P_L0_16x16
/// to I_PCM, a QP delta in [-26, 25], three-bit remaining intra modes and,
/// for the 8x8 inter types, sub-macroblock types of at most 3.
pub proof fn lemma_mb_layer_ranges(
    d: Seq<u8>,
    sz: nat,
    p: int,
    mbs: Seq<mbStorage_t>,
    cur: int,
    sliceType: u32,
    numRef: u32,
)
    requires
        mb_layer_syntax(d, sz, p, mbs, cur, sliceType, numRef).0,
    ensures
        ({
            let l = mb_layer_syntax(d, sz, p, mbs, cur, sliceType, numRef).1;
            &&& 1 <= l.mbType <= I_PCM
            &&& -26 <= l.qpDelta <= 25
            &&& l.pred.rem.len() == 16
            &&& forall|j: int| 0 <= j < 16 ==> #[trigger] l.pred.rem[j] < 8
            &&& P_8x8 <= l.mbType <= P_8x8ref0 ==> l.sub.subMbType.len() == 4 && forall|j: int|
                0 <= j < 4 ==> #[trigger] l.sub.subMbType[j] < 4
        }),
{
    let z = layer_zero();
    let v = ue_value_at(d, sz, p);
    let q = ue_next_at(d, sz, p);
    lemma_intra_modes_small(d, sz, q, 0, z.pred.prev, z.pred.rem);
    lemma_sub_types_small(d, sz, q, 0, z.sub.subMbType);
}

} // verus!

//! The residual() syntax of a macroblock: its CAVLC coded blocks in
//! decoding order, each decoded with the nC of its neighbour blocks.
use vstd::prelude::*;
use crate::cavlc::{cavlc_block, coeff_map, h264bsdDecodeResidualBlockCavlc, placed, CavlcBlock};
use crate::defs::{HANTRO_NOK, HANTRO_OK};
use crate::macroblock::{h264bsdMbPartPredMode, mbStorage_t, residual_t, PRED_MODE_INTRA16x16};
use crate::neighbour::{above_of, h264bsdNeighbour4x4BlockA, h264bsdNeighbour4x4BlockB, left_of, MB_CURR};
use crate::stream::strmData_t;
use crate::util::lemma_shr_i32;

verus! {

/// The left and above neighbours of every macroblock lie inside the array.
pub open spec fn neighbours_ok(mbs: Seq<mbStorage_t>) -> bool {
    forall|i: int|
        0 <= i < mbs.len() ==> ((#[trigger] mbs[i]).mbA matches Some(a) ==> a < mbs.len()) && (mbs[i].mbB matches Some(
            a,
        ) ==> a < mbs.len())
}

/// Is neighbour `n` of macroblock `m` available: present and in the same
/// slice?
pub open spec fn available(mbs: Seq<mbStorage_t>, m: mbStorage_t, n: Option<usize>) -> bool {
    n matches Some(a) && mbs[a as int].sliceId == m.sliceId
}

/// The rounded mean of two coefficient counts.
pub open spec fn mean2(a: int, b: int) -> i32 {
    ((a + b + 1) as i32) >> 1
}

/// nC of block `b` of macroblock `cur`: from the coefficient counts of the
/// block left of it (A) and the block above it (B), taken from `tc` (the
/// counts decoded so far) inside the macroblock and from the neighbour
/// macroblocks' stored counts outside it when those are available; the
/// rounded mean when both are there, the one that is, else 0.
pub open spec fn nc_of(mbs: Seq<mbStorage_t>, cur: int, b: int, tc: Seq<i16>) -> i32 {
    let m = mbs[cur];
    let am = left_of(b).0;
    let ai = left_of(b).1;
    let bm = above_of(b).0;
    let bi = above_of(b).1;
    let avA = available(mbs, m, m.mbA);
    let avB = available(mbs, m, m.mbB);
    let nA = mbs[m.mbA->0 as int].totalCoeff@[ai] as int;
    let nB = mbs[m.mbB->0 as int].totalCoeff@[bi] as int;
    if am == MB_CURR && bm == MB_CURR {
        mean2(tc[ai] as int, tc[bi] as int)
    } else if am == MB_CURR {
        if avB { mean2(tc[ai] as int, nB) } else { tc[ai] as i32 }
    } else if bm == MB_CURR {
        if avA { mean2(tc[bi] as int, nA) } else { tc[bi] as i32 }
    } else if avA && avB {
        mean2(nA, nB)
    } else if avA {
        nA as i32
    } else if avB {
        nB as i32
    } else {
        0
    }
}

/// The blocks left of and above a block of the macroblock are blocks of a
/// macroblock.
proof fn lemma_neighbour_index(b: int)
    requires
        0 <= b < 24,
    ensures
        0 <= left_of(b).1 < 24,
        0 <= above_of(b).1 < 24,
{
    assert(b == 0 || b == 1 || b == 2 || b == 3 || b == 4 || b == 5 || b == 6 || b == 7 || b == 8 || b == 9 || b == 10
        || b == 11 || b == 12 || b == 13 || b == 14 || b == 15 || b == 16 || b == 17 || b == 18 || b == 19 || b == 20
        || b == 21 || b == 22 || b == 23);
}

/// nC of block `blockIndex` of macroblock `cur` (`nc_of`).
fn DetermineNc(mbs: &Vec<mbStorage_t>, cur: usize, blockIndex: u32, pTotalCoeff: &[i16; 27]) -> (r: i32)
    requires
        cur < mbs.len(),
        neighbours_ok(mbs@),
        blockIndex < 24,
    ensures
        r == nc_of(mbs@, cur as int, blockIndex as int, pTotalCoeff@),
{
    proof {
        lemma_neighbour_index(blockIndex as int);
    }
    let m = &mbs[cur];
    let neighbourA = h264bsdNeighbour4x4BlockA(blockIndex);
    let neighbourB = h264bsdNeighbour4x4BlockB(blockIndex);
    let ai = neighbourA.index as usize;
    let bi = neighbourB.index as usize;
    let avA = match m.mbA {
        Some(a) => mbs[a].sliceId == m.sliceId,
        None => false,
    };
    let avB = match m.mbB {
        Some(a) => mbs[a].sliceId == m.sliceId,
        None => false,
    };
    if neighbourA.mb == MB_CURR && neighbourB.mb == MB_CURR {
        (pTotalCoeff[ai] as i32 + pTotalCoeff[bi] as i32 + 1) >> 1
    } else if neighbourA.mb == MB_CURR {
        let n = pTotalCoeff[ai] as i32;
        if avB {
            let nb = mbs[m.mbB.unwrap()].totalCoeff[bi] as i32;
            (n + nb + 1) >> 1
        } else {
            n
        }
    } else if neighbourB.mb == MB_CURR {
        let n = pTotalCoeff[bi] as i32;
        if avA {
            let na = mbs[m.mbA.unwrap()].totalCoeff[ai] as i32;
            (n + na + 1) >> 1
        } else {
            n
        }
    } else {
        let mut n: i32 = 0;
        let mut tmp = false;
        if avA {
            n = mbs[m.mbA.unwrap()].totalCoeff[ai] as i32;
            tmp = true;
        }
        if avB {
            let nb = mbs[m.mbB.unwrap()].totalCoeff[bi] as i32;
            if tmp {
                n = (n + nb + 1) >> 1;
            } else {
                n = nb;
            }
        }
        n
    }
}

/// What decoding a residual has produced: whether every block so far
/// decoded, the read position, the coefficient counts, the 26 level
/// arrays and the coefficient maps.
#[verifier::ext_equal]
pub struct ResState {
    pub ok: bool,
    pub pos: int,
    pub tc: Seq<i16>,
    pub level: Seq<Seq<i32>>,
    pub map: Seq<u32>,
}

/// The residual `r` at read position `pos`, as a state.
pub open spec fn res_state(r: &residual_t, pos: int) -> ResState {
    ResState { ok: true, pos, tc: r.totalCoeff@, level: Seq::new(26, |i: int| r.level@[i]@), map: r.coeffMap@ }
}

/// `lv` with the coefficients of block `blk` placed in its `len` entries
/// from `off` on.
pub open spec fn put_block(lv: Seq<i32>, off: int, len: int, blk: CavlcBlock) -> Seq<i32> {
    lv.take(off) + placed(lv.subrange(off, off + len), blk, 0) + lv.skip(off + len)
}

/// One coded block at the position of `s`, decoded with nC `nc` into
/// level array `slot` from `off` on (`len` coefficients at most): its
/// coefficient count goes to `tci` and, when `mi` is not negative, its
/// coefficient map (shifted up by one for blocks of 15) to `mi`.
pub open spec fn res_block(
    d: Seq<u8>,
    sz: nat,
    s: ResState,
    slot: int,
    off: int,
    len: int,
    nc: i32,
    tci: int,
    mi: int,
) -> ResState {
    let blk = cavlc_block(d, sz, s.pos, nc as u32, len as nat);
    if !(blk.ok && blk.end <= 8 * sz) {
        ResState { ok: false, ..s }
    } else {
        ResState {
            ok: true,
            pos: blk.end,
            tc: s.tc.update(tci, blk.totalCoeff as i16),
            level: s.level.update(slot, put_block(s.level[slot], off, len, blk)),
            map: if mi >= 0 {
                s.map.update(mi, (if len == 15 { 2 * coeff_map(blk, 0) } else { coeff_map(blk, 0) }) as u32)
            } else {
                s.map
            },
        }
    }
}

/// Step `t` of the residual of macroblock `cur`: 0 the luma DC block of
/// an intra 16x16 macroblock (level array 24); 1 to 16 the luma blocks of
/// the 8x8 groups that `cbp` marks coded (their AC coefficients only for
/// intra 16x16); 17 and 18 the two chroma DC blocks (level array 25) when
/// `cbp` codes chroma; 19 to 26 the chroma AC blocks when it codes them.
/// Nothing is decoded after a block fails.
#[verifier::opaque]
pub open spec fn res_step(
    d: Seq<u8>,
    sz: nat,
    mbs: Seq<mbStorage_t>,
    cur: int,
    is16: bool,
    cbp: u32,
    s: ResState,
    t: int,
) -> ResState {
    if !s.ok {
        s
    } else if t == 0 {
        if is16 { res_block(d, sz, s, 24, 0, 16, nc_of(mbs, cur, 0, s.tc), 24, -1) } else { s }
    } else if t <= 16 {
        let b = t - 1;
        if (cbp >> ((b / 4) as u32)) & 1 != 0 {
            res_block(d, sz, s, b, if is16 { 1 } else { 0 }, if is16 { 15 } else { 16 }, nc_of(mbs, cur, b, s.tc), b, b)
        } else {
            s
        }
    } else if t <= 18 {
        if (cbp >> 4u32) & 3 != 0 { res_block(d, sz, s, 25, (t - 17) * 4, 4, -1i32, t + 8, -1) } else { s }
    } else if t <= 26 {
        let b = t - 3;
        if (cbp >> 4u32) & 2 != 0 { res_block(d, sz, s, b, 1, 15, nc_of(mbs, cur, b, s.tc), b, b) } else { s }
    } else {
        s
    }
}

/// The first `n` steps of the residual from state `s0`.
pub open spec fn res_run(
    d: Seq<u8>,
    sz: nat,
    mbs: Seq<mbStorage_t>,
    cur: int,
    is16: bool,
    cbp: u32,
    s0: ResState,
    n: nat,
) -> ResState
    decreases n,
{
    if n == 0 {
        s0
    } else {
        res_step(d, sz, mbs, cur, is16, cbp, res_run(d, sz, mbs, cur, is16, cbp, s0, (n - 1) as nat), n - 1)
    }
}

/// Once a block failed, nothing more decodes.
proof fn lemma_res_fail(
    d: Seq<u8>,
    sz: nat,
    mbs: Seq<mbStorage_t>,
    cur: int,
    is16: bool,
    cbp: u32,
    s0: ResState,
    n: nat,
    m: nat,
)
    requires
        n <= m,
        !res_run(d, sz, mbs, cur, is16, cbp, s0, n).ok,
    ensures
        !res_run(d, sz, mbs, cur, is16, cbp, s0, m).ok,
    decreases m - n,
{
    reveal(res_step);
    if n < m {
        lemma_res_fail(d, sz, mbs, cur, is16, cbp, s0, (n + 1) as nat, m);
    }
}

/// What the block decoder returns for `t` coefficients with map `c`.
proof fn lemma_block_code(x: u32, t: u32, c: u32)
    by (bit_vector)
    requires
        t <= 16,
        c < 0x1_0000,
        x == 16 * t + 0x1_0000 * c,
    ensures
        x & 0xF == 0,
        (x >> 4u32) & 0xFF == t,
        x >> 16u32 == c,
        x >> 15u32 == 2 * c,
{
}

/// Decode one coded block as `res_block` describes.
fn decode_block(
    strm: &mut strmData_t,
    res: &mut residual_t,
    slot: usize,
    off: usize,
    len: usize,
    nc: i32,
    tci: usize,
    mi: Option<usize>,
) -> (r: u32)
    requires
        old(strm).wf(),
        8 * old(strm).size() <= 0x8000_0000,
        old(strm).pos() <= old(strm).len_bits(),
        slot < 26,
        off + len <= 16,
        len == 4 || len == 15 || len == 16,
        tci < 27,
        mi matches Some(m) ==> m < 24,
    ensures
        final(strm).wf(),
        final(strm).same_stream(old(strm)),
        ({
            let n = res_block(
                old(strm).data(),
                old(strm).size(),
                res_state(old(res), old(strm).pos()),
                slot as int,
                off as int,
                len as int,
                nc,
                tci as int,
                match mi {
                    Some(m) => m as int,
                    None => -1,
                },
            );
            &&& r == if n.ok { HANTRO_OK } else { HANTRO_NOK }
            &&& n.ok ==> res_state(final(res), final(strm).pos()) == n
            &&& n.ok ==> final(strm).pos() <= final(strm).len_bits()
        }),
{
    let ghost s0 = res_state(res, strm.pos());
    let ghost blk = cavlc_block(strm.data(), strm.size(), strm.pos(), nc as u32, len as nat);
    let mut row = res.level[slot];
    let mut buf: Vec<i32> = Vec::new();
    let mut k: usize = 0;
    while k < len
        invariant
            k <= len,
            off + len <= 16,
            buf@ == row@.subrange(off as int, (off + k) as int),
        decreases len - k,
    {
        buf.push(row[off + k]);
        k += 1;
    }
    let tmp = h264bsdDecodeResidualBlockCavlc(strm, buf.as_mut_slice(), nc, len as u32);
    if (tmp & 0xF) != HANTRO_OK {
        proof {
            if blk.ok && blk.end <= old(strm).len_bits() {
                lemma_block_code(tmp, blk.totalCoeff as u32, coeff_map(blk, 0) as u32);
            }
        }
        return HANTRO_NOK;
    }
    proof {
        assert(1u32 & 0xFu32 == 1u32) by (bit_vector);
        assert(blk.ok && blk.end <= old(strm).len_bits());
        lemma_block_code(tmp, blk.totalCoeff as u32, coeff_map(blk, 0) as u32);
    }
    let ghost newbuf = buf@;
    let mut k: usize = 0;
    while k < len
        invariant
            k <= len,
            off + len <= 16,
            buf@ == newbuf,
            newbuf.len() == len,
            forall|q: int| 0 <= q < off ==> #[trigger] row@[q] == res.level@[slot as int]@[q],
            forall|q: int| off + len <= q < 16 ==> #[trigger] row@[q] == res.level@[slot as int]@[q],
            forall|q: int| off <= q < off + k ==> #[trigger] row@[q] == newbuf[q - off],
        decreases len - k,
    {
        row[off + k] = buf[k];
        k += 1;
    }
    res.level[slot] = row;
    res.totalCoeff[tci] = ((tmp >> 4) & 0xFF) as i16;
    match mi {
        Some(m) => {
            res.coeffMap[m] = if len == 15 { tmp >> 15 } else { tmp >> 16 };
        },
        None => {},
    }
    proof {
        let n = res_block(
            old(strm).data(),
            old(strm).size(),
            s0,
            slot as int,
            off as int,
            len as int,
            nc,
            tci as int,
            match mi {
                Some(m) => m as int,
                None => -1,
            },
        );
        assert(row@ =~= put_block(s0.level[slot as int], off as int, len as int, blk));
        assert(res_state(res, strm.pos()).level =~= n.level);
        assert(res_state(res, strm.pos()).tc =~= n.tc);
        assert(res_state(res, strm.pos()).map =~= n.map);
    }
    HANTRO_OK
}

/// Step `t` of the residual (`res_step`), on a residual that decoded so far.
fn residual_step(
    pStrmData: &mut strmData_t,
    pResidual: &mut residual_t,
    mbs: &Vec<mbStorage_t>,
    cur: usize,
    is16: bool,
    cbp: u32,
    t: usize,
) -> (r: u32)
    requires
        old(pStrmData).wf(),
        8 * old(pStrmData).size() <= 0x8000_0000,
        old(pStrmData).pos() <= old(pStrmData).len_bits(),
        cur < mbs.len(),
        neighbours_ok(mbs@),
        t < 27,
    ensures
        final(pStrmData).wf(),
        final(pStrmData).same_stream(old(pStrmData)),
        ({
            let n = res_step(
                old(pStrmData).data(),
                old(pStrmData).size(),
                mbs@,
                cur as int,
                is16,
                cbp,
                res_state(old(pResidual), old(pStrmData).pos()),
                t as int,
            );
            &&& r == if n.ok { HANTRO_OK } else { HANTRO_NOK }
            &&& n.ok ==> res_state(final(pResidual), final(pStrmData).pos()) == n
            &&& n.ok ==> final(pStrmData).pos() <= final(pStrmData).len_bits()
        }),
{
    reveal(res_step);
    if t == 0 {
        if is16 {
            let nc = DetermineNc(mbs, cur, 0, &pResidual.totalCoeff);
            decode_block(pStrmData, pResidual, 24, 0, 16, nc, 24, None)
        } else {
            HANTRO_OK
        }
    } else if t <= 16 {
        let b = t - 1;
        if (cbp >> ((b / 4) as u32)) & 1 != 0 {
            let nc = DetermineNc(mbs, cur, b as u32, &pResidual.totalCoeff);
            if is16 {
                decode_block(pStrmData, pResidual, b, 1, 15, nc, b, Some(b))
            } else {
                decode_block(pStrmData, pResidual, b, 0, 16, nc, b, Some(b))
            }
        } else {
            HANTRO_OK
        }
    } else if t <= 18 {
        if (cbp >> 4u32) & 3 != 0 {
            decode_block(pStrmData, pResidual, 25, (t - 17) * 4, 4, -1, t + 8, None)
        } else {
            HANTRO_OK
        }
    } else {
        let b = t - 3;
        if (cbp >> 4u32) & 2 != 0 {
            let nc = DetermineNc(mbs, cur, b as u32, &pResidual.totalCoeff);
            decode_block(pStrmData, pResidual, b, 1, 15, nc, b, Some(b))
        } else {
            HANTRO_OK
        }
    }
}

/// Decode the residual of macroblock `cur` of type `mbType` with coded
/// block pattern `codedBlockPattern` into `pResidual` (`res_run` over the
/// 27 steps): HANTRO_OK with the decoded residual and the stream after it
/// when every coded block decodes, else HANTRO_NOK.
pub fn DecodeResidual(
    pStrmData: &mut strmData_t,
    pResidual: &mut residual_t,
    mbs: &Vec<mbStorage_t>,
    cur: usize,
    mbType: u32,
    codedBlockPattern: u32,
) -> (r: u32)
    requires
        old(pStrmData).wf(),
        8 * old(pStrmData).size() <= 0x8000_0000,
        old(pStrmData).pos() <= old(pStrmData).len_bits(),
        cur < mbs.len(),
        neighbours_ok(mbs@),
    ensures
        final(pStrmData).wf(),
        final(pStrmData).same_stream(old(pStrmData)),
        ({
            let st = res_run(
                old(pStrmData).data(),
                old(pStrmData).size(),
                mbs@,
                cur as int,
                h264bsd_is16(mbType),
                codedBlockPattern,
                res_state(old(pResidual), old(pStrmData).pos()),
                27,
            );
            &&& r == if st.ok { HANTRO_OK } else { HANTRO_NOK }
            &&& st.ok ==> res_state(final(pResidual), final(pStrmData).pos()) == st
        }),
{
    let ghost d = pStrmData.data();
    let ghost sz = pStrmData.size();
    let ghost s0 = res_state(pResidual, pStrmData.pos());
    let is16 = h264bsdMbPartPredMode(mbType) == PRED_MODE_INTRA16x16;
    let cbp = codedBlockPattern;
    let mut t: usize = 0;
    while t < 27
        invariant
            t <= 27,
            pStrmData.wf(),
            pStrmData.data() == d,
            pStrmData.size() == sz,
            pStrmData.same_stream(old(pStrmData)),
            8 * sz <= 0x8000_0000,
            pStrmData.pos() <= pStrmData.len_bits(),
            cur < mbs.len(),
            neighbours_ok(mbs@),
            is16 == h264bsd_is16(mbType),
            cbp == codedBlockPattern,
            d == old(pStrmData).data(),
            sz == old(pStrmData).size(),
            s0 == res_state(old(pResidual), old(pStrmData).pos()),
            res_run(d, sz, mbs@, cur as int, is16, cbp, s0, t as nat) == res_state(pResidual, pStrmData.pos()),
        decreases 27 - t,
    {
        let ghost before = res_state(pResidual, pStrmData.pos());
        let r = residual_step(pStrmData, pResidual, mbs, cur, is16, cbp, t);
        assert(res_run(d, sz, mbs@, cur as int, is16, cbp, s0, (t + 1) as nat) == res_step(
            d,
            sz,
            mbs@,
            cur as int,
            is16,
            cbp,
            before,
            t as int,
        ));
        if r != HANTRO_OK {
            proof {
                lemma_res_fail(d, sz, mbs@, cur as int, is16, cbp, s0, (t + 1) as nat, 27);
            }
            return r;
        }
        t += 1;
    }
    HANTRO_OK
}

/// Is `mbType` an intra 16x16 macroblock type?
pub open spec fn h264bsd_is16(mbType: u32) -> bool {
    !(mbType <= crate::macroblock::P_8x8ref0) && mbType != crate::macroblock::I_4x4
}


/// nC of a block (H.264 9.2.1): with nA and nB the coefficient counts of
/// the block left of it and the block above it (taken from `tc` inside
/// the macroblock, from the neighbour macroblock outside it), nC is the
/// rounded-up mean (nA + nB + 1) >> 1 when both blocks are available, the
/// count of the one that is, and 0 when neither is; a block inside the
/// macroblock is always available.
pub proof fn lemma_nc_rule(mbs: Seq<mbStorage_t>, cur: int, b: int, tc: Seq<i16>)
    requires
        0 <= cur < mbs.len(),
        0 <= b < 24,
    ensures
        ({
            let m = mbs[cur];
            let inA = left_of(b).0 == MB_CURR;
            let inB = above_of(b).0 == MB_CURR;
            let hasA = inA || available(mbs, m, m.mbA);
            let hasB = inB || available(mbs, m, m.mbB);
            let nA: int = if inA { tc[left_of(b).1] as int } else { mbs[m.mbA->0 as int].totalCoeff@[left_of(b).1] as int };
            let nB: int = if inB { tc[above_of(b).1] as int } else { mbs[m.mbB->0 as int].totalCoeff@[above_of(b).1] as int };
            nc_of(mbs, cur, b, tc) as int == if hasA && hasB {
                (nA + nB + 1) / 2
            } else if hasA {
                nA
            } else if hasB {
                nB
            } else {
                0
            }
        }),
{
    let m = mbs[cur];
    let ai = left_of(b).1;
    let bi = above_of(b).1;
    assert forall|x: int, y: int| i16::MIN <= x <= i16::MAX && i16::MIN <= y <= i16::MAX implies #[trigger] mean2(x, y)
        as int == (x + y + 1) / 2 by {
        lemma_shr_i32((x + y + 1) as i32, 1);
        vstd::arithmetic::power2::lemma2_to64();
    }
    let nA = mbs[m.mbA->0 as int].totalCoeff@[ai] as int;
    let nB = mbs[m.mbB->0 as int].totalCoeff@[bi] as int;
    assert(mean2(tc[ai] as int, tc[bi] as int) as int == (tc[ai] as int + tc[bi] as int + 1) / 2);
    assert(mean2(tc[ai] as int, nB) as int == (tc[ai] as int + nB + 1) / 2);
    assert(mean2(tc[bi] as int, nA) as int == (tc[bi] as int + nA + 1) / 2);
    assert(mean2(nA, nB) as int == (nA + nB + 1) / 2);
}

} // verus!

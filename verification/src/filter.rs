//! Deblocking filter: the filtering of the samples across the block edges
//! of a macroblock, with the thresholds derived from the quantizers.
use vstd::prelude::*;
use crate::deblock::{
    any_nonzero_bs, bS_t, filtering_flags, left_bs, top_bs, GetBoundaryStrengths, GetMbFilteringFlags, FILTER_LEFT_EDGE,
    FILTER_TOP_EDGE, INNER, LEFT, TOP,
};
use crate::image::image_t;
use crate::macroblock::mbStorage_t;
use crate::neighbour::mb_neighbours;
use crate::reconstruct::clip1;

verus! {

/// Thresholds of an edge: alpha and beta, and the tc0 values for
/// boundary strengths 1, 2 and 3.
#[derive(Clone, Copy)]
pub struct edgeThreshold_t {
    pub tc0: [u8; 3],
    pub alpha: u32,
    pub beta: u32,
}

/// |x|.
pub open spec fn iabs(x: int) -> int {
    if x < 0 {
        -x
    } else {
        x
    }
}

/// x clipped to lo..hi.
pub open spec fn clip3(lo: int, hi: int, x: int) -> int {
    if x < lo {
        lo
    } else if x > hi {
        hi
    } else {
        x
    }
}

/// The samples of a line across an edge are filtered: the step at the
/// edge is below alpha and the steps beside it below beta.
pub open spec fn edge_active(p1: int, p0: int, q0: int, q1: int, th: edgeThreshold_t) -> bool {
    iabs(p0 - q0) < th.alpha && iabs(p1 - p0) < th.beta && iabs(q1 - q0) < th.beta
}

/// The normal filter (strengths 1 to 3, tc0 `tc`) of a line of luma
/// samples [p3, p2, p1, p0, q0, q1, q2, q3].
pub open spec fn luma_normal(tc: int, th: edgeThreshold_t, s: Seq<int>) -> Seq<int> {
    let p3 = s[0];
    let p2 = s[1];
    let p1 = s[2];
    let p0 = s[3];
    let q0 = s[4];
    let q1 = s[5];
    let q2 = s[6];
    let q3 = s[7];
    let ap = iabs(p2 - p0) < th.beta;
    let aq = iabs(q2 - q0) < th.beta;
    let tcc = tc + (if ap { 1int } else { 0 }) + (if aq { 1int } else { 0 });
    let avg = (p0 + q0 + 1) / 2;
    let p1n = if ap { p1 + clip3(-tc, tc, (p2 + avg - 2 * p1) / 2) } else { p1 };
    let q1n = if aq { q1 + clip3(-tc, tc, (q2 + avg - 2 * q1) / 2) } else { q1 };
    let delta = clip3(-tcc, tcc, (4 * (q0 - p0) + (p1 - q1) + 4) / 8);
    seq![p3, p2, p1n, clip1(p0 + delta), clip1(q0 - delta), q1n, q2, q3]
}

/// The strong filter (strength 4) of a line of luma samples.
pub open spec fn luma_strong(th: edgeThreshold_t, s: Seq<int>) -> Seq<int> {
    let p3 = s[0];
    let p2 = s[1];
    let p1 = s[2];
    let p0 = s[3];
    let q0 = s[4];
    let q1 = s[5];
    let q2 = s[6];
    let q3 = s[7];
    let small = iabs(p0 - q0) < th.alpha / 4 + 2;
    let sp = small && iabs(p2 - p0) < th.beta;
    let sq = small && iabs(q2 - q0) < th.beta;
    seq![
        p3,
        if sp { (2 * p3 + 3 * p2 + p1 + p0 + q0 + 4) / 8 } else { p2 },
        if sp { (p2 + p1 + p0 + q0 + 2) / 4 } else { p1 },
        if sp { (p2 + 2 * (p1 + p0 + q0) + q1 + 4) / 8 } else { (2 * p1 + p0 + q1 + 2) / 4 },
        if sq { (p1 + 2 * (p0 + q0 + q1) + q2 + 4) / 8 } else { (2 * q1 + q0 + p1 + 2) / 4 },
        if sq { (p0 + q0 + q1 + q2 + 2) / 4 } else { q1 },
        if sq { (2 * q3 + 3 * q2 + p0 + q0 + q1 + 4) / 8 } else { q2 },
        q3,
    ]
}

/// One line of luma samples [p3, p2, p1, p0, q0, q1, q2, q3] across an
/// edge of strength `bS` (1 to 3 normal, 4 strong), filtered when the
/// edge is active.
pub open spec fn luma_line(bS: u32, th: edgeThreshold_t, s: Seq<int>) -> Seq<int> {
    if !edge_active(s[2], s[3], s[4], s[5], th) {
        s
    } else if bS < 4 {
        luma_normal(th.tc0@[bS - 1] as int, th, s)
    } else {
        luma_strong(th, s)
    }
}

/// One line of chroma samples [p1, p0, q0, q1] across an edge of
/// strength `bS`, filtered.
pub open spec fn chroma_line(bS: u32, th: edgeThreshold_t, s: Seq<int>) -> Seq<int> {
    let p1 = s[0];
    let p0 = s[1];
    let q0 = s[2];
    let q1 = s[3];
    if !edge_active(p1, p0, q0, q1, th) {
        s
    } else if bS < 4 {
        let tc = th.tc0@[bS - 1] as int + 1;
        let delta = clip3(-tc, tc, (4 * (q0 - p0) + (p1 - q1) + 4) / 8);
        seq![p1, clip1(p0 + delta), clip1(q0 - delta), q1]
    } else {
        seq![p1, (2 * p1 + p0 + q1 + 2) / 4, (2 * q1 + q0 + p1 + 2) / 4, q1]
    }
}

/// Bytes as integers.
pub open spec fn ints8(s: Seq<u8>) -> Seq<int> {
    Seq::new(s.len(), |i: int| s[i] as int)
}

/// |a - b|.
fn abs_diff(a: i32, b: i32) -> (r: u32)
    requires
        -1000 <= a <= 1000,
        -1000 <= b <= 1000,
    ensures
        r == iabs(a - b),
{
    if a < b {
        (b - a) as u32
    } else {
        (a - b) as u32
    }
}

/// Clip to lo..hi.
fn clip3_i32(lo: i32, hi: i32, x: i32) -> (r: i32)
    ensures
        r == clip3(lo as int, hi as int, x as int),
{
    if x < lo {
        lo
    } else if x > hi {
        hi
    } else {
        x
    }
}

/// Clip to 0..255.
fn clip_u8(v: i32) -> (r: u8)
    ensures
        r as int == clip1(v as int),
{
    if v < 0 {
        0
    } else if v > 255 {
        255
    } else {
        v as u8
    }
}

/// `x >> k` of a signed value is its division by 2^k rounded down.
fn shr(x: i32, k: u32) -> (r: i32)
    requires
        1 <= k <= 3,
    ensures
        r as int == x as int / (if k == 1 { 2int } else if k == 2 { 4int } else { 8int }),
{
    proof {
        crate::util::lemma_shr_i32(x, k);
        vstd::arithmetic::power2::lemma2_to64();
    }
    x >> k
}

/// The normal luma filter of a line.
#[verifier::spinoff_prover]
#[verifier::rlimit(80)]
fn luma_filter_normal(s: [u8; 8], tc: i32, th: &edgeThreshold_t) -> (r: [u8; 8])
    requires
        0 <= tc <= 255,
    ensures
        ints8(r@) == luma_normal(tc as int, *th, ints8(s@)),
{
    let p2 = s[1] as i32;
    let p1 = s[2] as i32;
    let p0 = s[3] as i32;
    let q0 = s[4] as i32;
    let q1 = s[5] as i32;
    let q2 = s[6] as i32;
    let ghost si = ints8(s@);
    let mut r = s;
    let ap = abs_diff(p2, p0) < th.beta;
    let aq = abs_diff(q2, q0) < th.beta;
    let mut tmp = tc;
    let avg = shr(p0 + q0 + 1, 1);
    if ap {
        let val = shr(p2 + avg - 2 * p1, 1);
        let c = clip3_i32(-tc, tc, val);
        proof {
            assert(0 <= p1 + c <= 255) by {
                assert(0 <= p1 + val <= 255);
            }
        }
        r[2] = (p1 + c) as u8;
        tmp += 1;
    }
    if aq {
        let val = shr(q2 + avg - 2 * q1, 1);
        let c = clip3_i32(-tc, tc, val);
        proof {
            assert(0 <= q1 + c <= 255) by {
                assert(0 <= q1 + val <= 255);
            }
        }
        r[5] = (q1 + c) as u8;
        tmp += 1;
    }
    let val = shr(4 * (q0 - p0) + (p1 - q1) + 4, 3);
    let delta = clip3_i32(-tmp, tmp, val);
    r[3] = clip_u8(p0 + delta);
    r[4] = clip_u8(q0 - delta);
    assert(ints8(r@) =~= luma_normal(tc as int, *th, si));
    r
}

/// The strong luma filter of a line.
#[verifier::spinoff_prover]
#[verifier::rlimit(80)]
fn luma_filter_strong(s: [u8; 8], th: &edgeThreshold_t) -> (r: [u8; 8])
    ensures
        ints8(r@) == luma_strong(*th, ints8(s@)),
{
    let p3 = s[0] as i32;
    let p2 = s[1] as i32;
    let p1 = s[2] as i32;
    let p0 = s[3] as i32;
    let q0 = s[4] as i32;
    let q1 = s[5] as i32;
    let q2 = s[6] as i32;
    let q3 = s[7] as i32;
    let ghost si = ints8(s@);
    let mut r = s;
    proof {
        vstd::bits::lemma_u32_shr_is_div(th.alpha, 2);
        vstd::arithmetic::power2::lemma2_to64();
    }
    let small = abs_diff(p0, q0) < (th.alpha >> 2) + 2;
    if small && abs_diff(p2, p0) < th.beta {
        let t = p1 + p0 + q0;
        r[3] = shr(p2 + 2 * t + q1 + 4, 3) as u8;
        r[2] = shr(p2 + t + 2, 2) as u8;
        r[1] = shr(2 * p3 + 3 * p2 + t + 4, 3) as u8;
    } else {
        r[3] = shr(2 * p1 + p0 + q1 + 2, 2) as u8;
    }
    if small && abs_diff(q2, q0) < th.beta {
        let t = p0 + q0 + q1;
        r[4] = shr(p1 + 2 * t + q2 + 4, 3) as u8;
        r[5] = shr(t + q2 + 2, 2) as u8;
        r[6] = shr(2 * q3 + 3 * q2 + t + 4, 3) as u8;
    } else {
        r[4] = shr(2 * q1 + q0 + p1 + 2, 2) as u8;
    }
    assert(ints8(r@) =~= luma_strong(*th, si));
    r
}

/// Filter one line of luma samples [p3, p2, p1, p0, q0, q1, q2, q3]
/// across an edge of strength `bS` (1 to 4).
fn luma_filter_line(s: [u8; 8], bS: u32, th: &edgeThreshold_t) -> (r: [u8; 8])
    requires
        1 <= bS <= 4,
    ensures
        ints8(r@) == luma_line(bS, *th, ints8(s@)),
{
    let p1 = s[2] as i32;
    let p0 = s[3] as i32;
    let q0 = s[4] as i32;
    let q1 = s[5] as i32;
    let ghost si = ints8(s@);
    if !(abs_diff(p0, q0) < th.alpha && abs_diff(p1, p0) < th.beta && abs_diff(q1, q0) < th.beta) {
        assert(ints8(s@) =~= luma_line(bS, *th, si));
        return s;
    }
    if bS < 4 {
        luma_filter_normal(s, th.tc0[(bS - 1) as usize] as i32, th)
    } else {
        luma_filter_strong(s, th)
    }
}

/// Filter one line of chroma samples [p1, p0, q0, q1] across an edge of
/// strength `bS` (1 to 4).
fn chroma_filter_line(s: [u8; 4], bS: u32, th: &edgeThreshold_t) -> (r: [u8; 4])
    requires
        1 <= bS <= 4,
    ensures
        ints8(r@) == chroma_line(bS, *th, ints8(s@)),
{
    let p1 = s[0] as i32;
    let p0 = s[1] as i32;
    let q0 = s[2] as i32;
    let q1 = s[3] as i32;
    let ghost si = ints8(s@);
    let mut r = s;
    if abs_diff(p0, q0) < th.alpha && abs_diff(p1, p0) < th.beta && abs_diff(q1, q0) < th.beta {
        if bS < 4 {
            let tc = th.tc0[(bS - 1) as usize] as i32 + 1;
            let delta = clip3_i32(-tc, tc, shr(4 * (q0 - p0) + (p1 - q1) + 4, 3));
            r[1] = clip_u8(p0 + delta);
            r[2] = clip_u8(q0 - delta);
        } else {
            r[1] = shr(2 * p1 + p0 + q1 + 2, 2) as u8;
            r[2] = shr(2 * q1 + q0 + p1 + 2, 2) as u8;
        }
    }
    assert(ints8(r@) =~= chroma_line(bS, *th, si));
    r
}


/// The `len` samples of a line across an edge at `c` of `d`, `step`
/// apart, from `half` samples before the edge on.
pub open spec fn line_at(d: Seq<u8>, c: int, step: int, half: int, len: nat) -> Seq<int> {
    Seq::new(len, |i: int| d[c + (i - half) * step] as int)
}

/// `d` with the first `m` samples of the line at `c` set to `v`, in order.
pub open spec fn put_line(d: Seq<u8>, c: int, step: int, half: int, v: Seq<int>, m: nat) -> Seq<u8>
    decreases m,
{
    if m == 0 {
        d
    } else {
        put_line(d, c, step, half, v, (m - 1) as nat).update(c + (m - 1 - half) * step, v[m - 1] as u8)
    }
}

/// `d` after the luma filter of strength `bS` across the first `n` lines
/// of an edge: line j crosses it at `pos + j * along`, its samples `across`
/// apart (1 for a vertical edge, the row length for a horizontal one).
pub open spec fn luma_edge(d: Seq<u8>, pos: int, across: int, along: int, bS: u32, th: edgeThreshold_t, n: nat) -> Seq<u8>
    decreases n,
{
    if n == 0 {
        d
    } else {
        let d1 = luma_edge(d, pos, across, along, bS, th, (n - 1) as nat);
        let c = pos + (n - 1) * along;
        put_line(d1, c, across, 4, luma_line(bS, th, line_at(d1, c, across, 4, 8)), 8)
    }
}

/// `d` after the chroma filter of strength `bS` across the first `n`
/// lines of an edge.
pub open spec fn chroma_edge(d: Seq<u8>, pos: int, across: int, along: int, bS: u32, th: edgeThreshold_t, n: nat) -> Seq<u8>
    decreases n,
{
    if n == 0 {
        d
    } else {
        let d1 = chroma_edge(d, pos, across, along, bS, th, (n - 1) as nat);
        let c = pos + (n - 1) * along;
        put_line(d1, c, across, 2, chroma_line(bS, th, line_at(d1, c, across, 2, 4)), 4)
    }
}

/// Filter the luma line crossing an edge at `c`, samples `step` apart.
fn filter_luma_line(data: &mut Vec<u8>, c: usize, step: usize, bS: u32, th: &edgeThreshold_t)
    requires
        1 <= bS <= 4,
        c >= 4 * step,
        c + 3 * step < old(data).len(),
    ensures
        final(data)@ == put_line(
            old(data)@,
            c as int,
            step as int,
            4,
            luma_line(bS, *th, line_at(old(data)@, c as int, step as int, 4, 8)),
            8,
        ),
        final(data).len() == old(data).len(),
{
    let ghost d0 = data@;
    let mut s: [u8; 8] = [0; 8];
    let mut i: usize = 0;
    while i < 8
        invariant
            i <= 8,
            c >= 4 * step,
            c + 3 * step < data.len(),
            data@ == d0,
            forall|j: int| 0 <= j < i ==> s@[j] == d0[c + (j - 4) * step],
        decreases 8 - i,
    {
        proof {
            assert(c - 4 * step + i * step <= c + 3 * step) by (nonlinear_arith)
                requires
                    i < 8,
            ;
            assert(c - 4 * step + i * step == c + (i - 4) * step) by (nonlinear_arith);
        }
        s[i] = data[c - 4 * step + i * step];
        i += 1;
    }
    assert(ints8(s@) =~= line_at(d0, c as int, step as int, 4, 8));
    let r = luma_filter_line(s, bS, th);
    let ghost v = luma_line(bS, *th, line_at(d0, c as int, step as int, 4, 8));
    let mut i: usize = 0;
    while i < 8
        invariant
            i <= 8,
            c >= 4 * step,
            c + 3 * step < data.len(),
            ints8(r@) == v,
            data.len() == d0.len(),
            data@ == put_line(d0, c as int, step as int, 4, v, i as nat),
        decreases 8 - i,
    {
        proof {
            assert(c - 4 * step + i * step <= c + 3 * step) by (nonlinear_arith)
                requires
                    i < 8,
            ;
            assert(c - 4 * step + i * step == c + (i - 4) * step) by (nonlinear_arith);
            assert(v[i as int] as u8 == r@[i as int]);
        }
        data.set(c - 4 * step + i * step, r[i]);
        i += 1;
    }
}

/// Filter the chroma line crossing an edge at `c`, samples `step` apart.
fn filter_chroma_line(data: &mut Vec<u8>, c: usize, step: usize, bS: u32, th: &edgeThreshold_t)
    requires
        1 <= bS <= 4,
        c >= 2 * step,
        c + step < old(data).len(),
    ensures
        final(data)@ == put_line(
            old(data)@,
            c as int,
            step as int,
            2,
            chroma_line(bS, *th, line_at(old(data)@, c as int, step as int, 2, 4)),
            4,
        ),
        final(data).len() == old(data).len(),
{
    let ghost d0 = data@;
    let mut s: [u8; 4] = [0; 4];
    let mut i: usize = 0;
    while i < 4
        invariant
            i <= 4,
            c >= 2 * step,
            c + step < data.len(),
            data@ == d0,
            forall|j: int| 0 <= j < i ==> s@[j] == d0[c + (j - 2) * step],
        decreases 4 - i,
    {
        proof {
            assert(c - 2 * step + i * step <= c + step) by (nonlinear_arith)
                requires
                    i < 4,
            ;
            assert(c - 2 * step + i * step == c + (i - 2) * step) by (nonlinear_arith);
        }
        s[i] = data[c - 2 * step + i * step];
        i += 1;
    }
    assert(ints8(s@) =~= line_at(d0, c as int, step as int, 2, 4));
    let r = chroma_filter_line(s, bS, th);
    let ghost v = chroma_line(bS, *th, line_at(d0, c as int, step as int, 2, 4));
    let mut i: usize = 0;
    while i < 4
        invariant
            i <= 4,
            c >= 2 * step,
            c + step < data.len(),
            ints8(r@) == v,
            data.len() == d0.len(),
            data@ == put_line(d0, c as int, step as int, 2, v, i as nat),
        decreases 4 - i,
    {
        proof {
            assert(c - 2 * step + i * step <= c + step) by (nonlinear_arith)
                requires
                    i < 4,
            ;
            assert(c - 2 * step + i * step == c + (i - 2) * step) by (nonlinear_arith);
            assert(v[i as int] as u8 == r@[i as int]);
        }
        data.set(c - 2 * step + i * step, r[i]);
        i += 1;
    }
}

/// Filter `n` luma lines across an edge, line j crossing it at
/// `pos + j * along`.
fn filter_luma_lines(data: &mut Vec<u8>, pos: usize, across: usize, along: usize, n: usize, bS: u32, th: &edgeThreshold_t)
    requires
        1 <= bS <= 4,
        1 <= n,
        pos >= 4 * across,
        pos + (n - 1) * along + 3 * across < old(data).len(),
    ensures
        final(data)@ == luma_edge(old(data)@, pos as int, across as int, along as int, bS, *th, n as nat),
        final(data).len() == old(data).len(),
{
    let ghost d0 = data@;
    let mut j: usize = 0;
    while j < n
        invariant
            j <= n,
            1 <= bS <= 4,
            pos >= 4 * across,
            pos + (n - 1) * along + 3 * across < data.len(),
            data.len() == d0.len(),
            data@ == luma_edge(d0, pos as int, across as int, along as int, bS, *th, j as nat),
        decreases n - j,
    {
        proof {
            assert(j * along <= (n - 1) * along) by (nonlinear_arith)
                requires
                    j < n,
            ;
        }
        filter_luma_line(data, pos + j * along, across, bS, th);
        j += 1;
    }
}

/// Filter `n` chroma lines across an edge.
fn filter_chroma_lines(data: &mut Vec<u8>, pos: usize, across: usize, along: usize, n: usize, bS: u32, th: &edgeThreshold_t)
    requires
        1 <= bS <= 4,
        1 <= n,
        pos >= 2 * across,
        pos + (n - 1) * along + across < old(data).len(),
    ensures
        final(data)@ == chroma_edge(old(data)@, pos as int, across as int, along as int, bS, *th, n as nat),
        final(data).len() == old(data).len(),
{
    let ghost d0 = data@;
    let mut j: usize = 0;
    while j < n
        invariant
            j <= n,
            1 <= bS <= 4,
            pos >= 2 * across,
            pos + (n - 1) * along + across < data.len(),
            data.len() == d0.len(),
            data@ == chroma_edge(d0, pos as int, across as int, along as int, bS, *th, j as nat),
        decreases n - j,
    {
        proof {
            assert(j * along <= (n - 1) * along) by (nonlinear_arith)
                requires
                    j < n,
            ;
        }
        filter_chroma_line(data, pos + j * along, across, bS, th);
        j += 1;
    }
}

/// Filter one vertical luma edge of four rows at `pos` (its first sample
/// right of the edge) in a plane of rows of `imageWidth` samples.
fn FilterVerLumaEdge(data: &mut Vec<u8>, pos: usize, bS: u32, thresholds: &edgeThreshold_t, imageWidth: u32)
    requires
        1 <= bS <= 4,
        pos >= 4,
        pos + 3 * imageWidth + 3 < old(data).len(),
    ensures
        final(data)@ == luma_edge(old(data)@, pos as int, 1, imageWidth as int, bS, *thresholds, 4),
        final(data).len() == old(data).len(),
{
    filter_luma_lines(data, pos, 1, imageWidth as usize, 4, bS, thresholds);
}

/// Filter one horizontal luma edge of four columns at `pos` (its first
/// sample below the edge), strength 1 to 3.
fn FilterHorLumaEdge(data: &mut Vec<u8>, pos: usize, bS: u32, thresholds: &edgeThreshold_t, imageWidth: u32)
    requires
        1 <= bS < 4,
        pos >= 4 * imageWidth,
        pos + 3 + 3 * imageWidth < old(data).len(),
    ensures
        final(data)@ == luma_edge(old(data)@, pos as int, imageWidth as int, 1, bS, *thresholds, 4),
        final(data).len() == old(data).len(),
{
    filter_luma_lines(data, pos, imageWidth as usize, 1, 4, bS, thresholds);
}

/// Filter a horizontal luma edge of sixteen columns at `pos`, all of
/// strength `bS`.
fn FilterHorLuma(data: &mut Vec<u8>, pos: usize, bS: u32, thresholds: &edgeThreshold_t, imageWidth: u32)
    requires
        1 <= bS <= 4,
        pos >= 4 * imageWidth,
        pos + 15 + 3 * imageWidth < old(data).len(),
    ensures
        final(data)@ == luma_edge(old(data)@, pos as int, imageWidth as int, 1, bS, *thresholds, 16),
        final(data).len() == old(data).len(),
{
    filter_luma_lines(data, pos, imageWidth as usize, 1, 16, bS, thresholds);
}

/// Filter one vertical chroma edge of two rows at `pos`.
fn FilterVerChromaEdge(data: &mut Vec<u8>, pos: usize, bS: u32, thresholds: &edgeThreshold_t, width: u32)
    requires
        1 <= bS <= 4,
        pos >= 2,
        pos + width + 1 < old(data).len(),
    ensures
        final(data)@ == chroma_edge(old(data)@, pos as int, 1, width as int, bS, *thresholds, 2),
        final(data).len() == old(data).len(),
{
    filter_chroma_lines(data, pos, 1, width as usize, 2, bS, thresholds);
}

/// Filter one horizontal chroma edge of two columns at `pos`, strength 1
/// to 3.
fn FilterHorChromaEdge(data: &mut Vec<u8>, pos: usize, bS: u32, thresholds: &edgeThreshold_t, width: u32)
    requires
        1 <= bS < 4,
        pos >= 2 * width,
        pos + 1 + width < old(data).len(),
    ensures
        final(data)@ == chroma_edge(old(data)@, pos as int, width as int, 1, bS, *thresholds, 2),
        final(data).len() == old(data).len(),
{
    filter_chroma_lines(data, pos, width as usize, 1, 2, bS, thresholds);
}

/// Filter a horizontal chroma edge of eight columns at `pos`, all of
/// strength `bS`.
fn FilterHorChroma(data: &mut Vec<u8>, pos: usize, bS: u32, thresholds: &edgeThreshold_t, width: u32)
    requires
        1 <= bS <= 4,
        pos >= 2 * width,
        pos + 7 + width < old(data).len(),
    ensures
        final(data)@ == chroma_edge(old(data)@, pos as int, width as int, 1, bS, *thresholds, 8),
        final(data).len() == old(data).len(),
{
    filter_chroma_lines(data, pos, width as usize, 1, 8, bS, thresholds);
}


/// `d` after a vertical luma edge of four rows at `pos` when `b` is not 0.
pub open spec fn vedge_l(d: Seq<u8>, pos: int, b: u32, th: edgeThreshold_t, w: int) -> Seq<u8> {
    if b != 0 {
        luma_edge(d, pos, 1, w, b, th, 4)
    } else {
        d
    }
}

/// `d` after a horizontal luma edge of four columns at `pos` when `b` is
/// not 0.
pub open spec fn hedge_l(d: Seq<u8>, pos: int, b: u32, th: edgeThreshold_t, w: int) -> Seq<u8> {
    if b != 0 {
        luma_edge(d, pos, w, 1, b, th, 4)
    } else {
        d
    }
}

/// The four top strengths of row `v` of 4x4 blocks are equal.
pub open spec fn tops_equal(bS: Seq<bS_t>, v: int) -> bool {
    bS[4 * v].top == bS[4 * v + 1].top && bS[4 * v + 1].top == bS[4 * v + 2].top && bS[4 * v + 2].top == bS[4 * v
        + 3].top
}

/// `d` after the luma edges of row `v` of 4x4 blocks of the macroblock at
/// `pos`: its four vertical edges left to right, then its top edges.
pub open spec fn luma_row(d: Seq<u8>, pos: int, bS: Seq<bS_t>, th: Seq<edgeThreshold_t>, w: int, v: int) -> Seq<u8> {
    let rp = pos + 4 * v * w;
    let d1 = vedge_l(d, rp, bS[4 * v].left, th[LEFT as int], w);
    let d2 = vedge_l(d1, rp + 4, bS[4 * v + 1].left, th[INNER as int], w);
    let d3 = vedge_l(d2, rp + 8, bS[4 * v + 2].left, th[INNER as int], w);
    let d4 = vedge_l(d3, rp + 12, bS[4 * v + 3].left, th[INNER as int], w);
    let t = if v == 0 { th[TOP as int] } else { th[INNER as int] };
    if tops_equal(bS, v) {
        if bS[4 * v].top != 0 {
            luma_edge(d4, rp, w, 1, bS[4 * v].top, t, 16)
        } else {
            d4
        }
    } else {
        let e1 = hedge_l(d4, rp, bS[4 * v].top, t, w);
        let e2 = hedge_l(e1, rp + 4, bS[4 * v + 1].top, t, w);
        let e3 = hedge_l(e2, rp + 8, bS[4 * v + 2].top, t, w);
        hedge_l(e3, rp + 12, bS[4 * v + 3].top, t, w)
    }
}

/// `d` after the luma edges of the first `n` rows of 4x4 blocks.
pub open spec fn luma_mb(d: Seq<u8>, pos: int, bS: Seq<bS_t>, th: Seq<edgeThreshold_t>, w: int, n: nat) -> Seq<u8>
    decreases n,
{
    if n == 0 {
        d
    } else {
        luma_row(luma_mb(d, pos, bS, th, w, (n - 1) as nat), pos, bS, th, w, n - 1)
    }
}

/// The boundary strengths are at most 4, and a row whose top strengths
/// differ has none of 4.
pub open spec fn bs_ok(bS: Seq<bS_t>) -> bool {
    &&& forall|i: int| 0 <= i < 16 ==> (#[trigger] bS[i]).top <= 4 && bS[i].left <= 4
    &&& forall|v: int|
        0 <= v < 4 && !#[trigger] tops_equal(bS, v) ==> bS[4 * v].top < 4 && bS[4 * v + 1].top < 4 && bS[4 * v + 2].top < 4
            && bS[4 * v + 3].top < 4
}

/// The luma edges of a macroblock at `pos` lie inside the plane: its
/// left edge is filtered only right of the first column, its top edge
/// only below the fourth row.
pub open spec fn luma_edges_fit(len: int, pos: int, bS: Seq<bS_t>, w: int) -> bool {
    &&& w >= 16
    &&& pos + 15 * w + 15 < len
    &&& (exists|v: int| 0 <= v < 4 && #[trigger] bS[4 * v].left != 0) ==> pos >= 4
    &&& (exists|j: int| 0 <= j < 4 && #[trigger] bS[j].top != 0) ==> pos >= 4 * w
}

/// Filter the luma edges of one row of 4x4 blocks.
#[verifier::rlimit(40)]
fn filter_luma_row(data: &mut Vec<u8>, pos: usize, bS: &[bS_t; 16], thresholds: &[edgeThreshold_t; 3], width: u32, v: usize)
    requires
        v < 4,
        bs_ok(bS@),
        luma_edges_fit(old(data).len() as int, pos as int, bS@, width as int),
    ensures
        final(data)@ == luma_row(old(data)@, pos as int, bS@, thresholds@, width as int, v as int),
        final(data).len() == old(data).len(),
{
    let ghost d0 = data@;
    let w = width as usize;
    proof {
        assert(4 * v * w <= 12 * w) by (nonlinear_arith)
            requires
                v < 4,
        ;
        assert(bS@[4 * v as int].top <= 4 && bS@[4 * v as int].left <= 4);
        assert(bS@[4 * v + 1].top <= 4 && bS@[4 * v + 1].left <= 4);
        assert(bS@[4 * v + 2].top <= 4 && bS@[4 * v + 2].left <= 4);
        assert(bS@[4 * v + 3].top <= 4 && bS@[4 * v + 3].left <= 4);
        if bS@[4 * v as int].left != 0 {
            assert(pos >= 4);
        }
        if !tops_equal(bS@, v as int) {
            assert(bS@[4 * v as int].top < 4);
        }
        if v == 0 && (bS@[0].top != 0 || bS@[1].top != 0 || bS@[2].top != 0 || bS@[3].top != 0) {
            assert(pos >= 4 * w);
        }
        if v > 0 {
            assert(4 * v * w >= 4 * w) by (nonlinear_arith)
                requires
                    v >= 1,
            ;
        }
    }
    let rp = pos + 4 * v * w;
    let b = bS[4 * v].left;
    if b != 0 {
        FilterVerLumaEdge(data, rp, b, &thresholds[LEFT as usize], width);
    }
    let b = bS[4 * v + 1].left;
    if b != 0 {
        FilterVerLumaEdge(data, rp + 4, b, &thresholds[INNER as usize], width);
    }
    let b = bS[4 * v + 2].left;
    if b != 0 {
        FilterVerLumaEdge(data, rp + 8, b, &thresholds[INNER as usize], width);
    }
    let b = bS[4 * v + 3].left;
    if b != 0 {
        FilterVerLumaEdge(data, rp + 12, b, &thresholds[INNER as usize], width);
    }
    let offset: usize = if v == 0 {
        TOP as usize
    } else {
        INNER as usize
    };
    let b0 = bS[4 * v].top;
    let b1 = bS[4 * v + 1].top;
    let b2 = bS[4 * v + 2].top;
    let b3 = bS[4 * v + 3].top;
    if b0 == b1 && b1 == b2 && b2 == b3 {
        if b0 != 0 {
            FilterHorLuma(data, rp, b0, &thresholds[offset], width);
        }
    } else {
        if b0 != 0 {
            FilterHorLumaEdge(data, rp, b0, &thresholds[offset], width);
        }
        if b1 != 0 {
            FilterHorLumaEdge(data, rp + 4, b1, &thresholds[offset], width);
        }
        if b2 != 0 {
            FilterHorLumaEdge(data, rp + 8, b2, &thresholds[offset], width);
        }
        if b3 != 0 {
            FilterHorLumaEdge(data, rp + 12, b3, &thresholds[offset], width);
        }
    }
}

/// Filter all luma edges of the macroblock at `pos` of a plane of rows of
/// `width` samples: row by row of 4x4 blocks, the vertical edges left to
/// right, then the horizontal ones; an edge of strength 0 is left.
fn FilterLuma(data: &mut Vec<u8>, pos: usize, bS: &[bS_t; 16], thresholds: &[edgeThreshold_t; 3], width: u32)
    requires
        bs_ok(bS@),
        luma_edges_fit(old(data).len() as int, pos as int, bS@, width as int),
    ensures
        final(data)@ == luma_mb(old(data)@, pos as int, bS@, thresholds@, width as int, 4),
        final(data).len() == old(data).len(),
{
    let ghost d0 = data@;
    let mut v: usize = 0;
    while v < 4
        invariant
            v <= 4,
            bs_ok(bS@),
            luma_edges_fit(data.len() as int, pos as int, bS@, width as int),
            data.len() == d0.len(),
            data@ == luma_mb(d0, pos as int, bS@, thresholds@, width as int, v as nat),
        decreases 4 - v,
    {
        filter_luma_row(data, pos, bS, thresholds, width, v);
        v += 1;
    }
}


/// `d` after a vertical chroma edge of two rows at `pos` when `b` is not 0.
pub open spec fn vedge_c(d: Seq<u8>, pos: int, b: u32, th: edgeThreshold_t, w: int) -> Seq<u8> {
    if b != 0 {
        chroma_edge(d, pos, 1, w, b, th, 2)
    } else {
        d
    }
}

/// `d` after a horizontal chroma edge of `n` columns at `pos` when `b` is
/// not 0.
pub open spec fn hedge_c(d: Seq<u8>, pos: int, b: u32, th: edgeThreshold_t, w: int, n: nat) -> Seq<u8> {
    if b != 0 {
        chroma_edge(d, pos, w, 1, b, th, n)
    } else {
        d
    }
}

/// `d` after the chroma edges of row `v` (0 or 1) of 4x4 chroma blocks of
/// the macroblock whose Cb and Cr blocks are at `cb` and `cr`: each
/// vertical edge in Cb then in Cr (left edge upper and lower half, inner
/// edge upper and lower half), then the top edges.
pub open spec fn chroma_row(d: Seq<u8>, cb: int, cr: int, bS: Seq<bS_t>, th: Seq<edgeThreshold_t>, w: int, v: int) -> Seq<u8> {
    let b = 8 * v;
    let pb = cb + 4 * v * w;
    let pr = cr + 4 * v * w;
    let d1 = vedge_c(vedge_c(d, pb, bS[b].left, th[LEFT as int], w), pr, bS[b].left, th[LEFT as int], w);
    let d2 = vedge_c(vedge_c(d1, pb + 2 * w, bS[b + 4].left, th[LEFT as int], w), pr + 2 * w, bS[b + 4].left, th[LEFT as int], w);
    let d3 = vedge_c(vedge_c(d2, pb + 4, bS[b + 2].left, th[INNER as int], w), pr + 4, bS[b + 2].left, th[INNER as int], w);
    let d4 = vedge_c(
        vedge_c(d3, pb + 2 * w + 4, bS[b + 6].left, th[INNER as int], w),
        pr + 2 * w + 4,
        bS[b + 6].left,
        th[INNER as int],
        w,
    );
    let t = if v == 0 { th[TOP as int] } else { th[INNER as int] };
    if tops_equal(bS, 2 * v) {
        hedge_c(hedge_c(d4, pb, bS[b].top, t, w, 8), pr, bS[b].top, t, w, 8)
    } else {
        let e1 = hedge_c(hedge_c(d4, pb, bS[b].top, t, w, 2), pr, bS[b].top, t, w, 2);
        let e2 = hedge_c(hedge_c(e1, pb + 2, bS[b + 1].top, t, w, 2), pr + 2, bS[b + 1].top, t, w, 2);
        let e3 = hedge_c(hedge_c(e2, pb + 4, bS[b + 2].top, t, w, 2), pr + 4, bS[b + 2].top, t, w, 2);
        hedge_c(hedge_c(e3, pb + 6, bS[b + 3].top, t, w, 2), pr + 6, bS[b + 3].top, t, w, 2)
    }
}

/// `d` after the chroma edges of the first `n` rows of 4x4 chroma blocks.
pub open spec fn chroma_mb(d: Seq<u8>, cb: int, cr: int, bS: Seq<bS_t>, th: Seq<edgeThreshold_t>, w: int, n: nat) -> Seq<u8>
    decreases n,
{
    if n == 0 {
        d
    } else {
        chroma_row(chroma_mb(d, cb, cr, bS, th, w, (n - 1) as nat), cb, cr, bS, th, w, n - 1)
    }
}

/// The chroma edges of a macroblock whose blocks are at `cb` and `cr` lie
/// inside the planes.
pub open spec fn chroma_edges_fit(len: int, cb: int, cr: int, bS: Seq<bS_t>, w: int) -> bool {
    &&& w >= 8
    &&& cb + 7 * w + 7 < len
    &&& cr + 7 * w + 7 < len
    &&& (bS[0].left != 0 || bS[4].left != 0 || bS[8].left != 0 || bS[12].left != 0) ==> cb >= 2 && cr >= 2
    &&& (bS[0].top != 0 || bS[1].top != 0 || bS[2].top != 0 || bS[3].top != 0) ==> cb >= 2 * w && cr >= 2 * w
}

/// Filter a vertical chroma edge in Cb and in Cr.
fn ver_chroma_pair(data: &mut Vec<u8>, pb: usize, pr: usize, b: u32, th: &edgeThreshold_t, width: u32)
    requires
        b <= 4,
        b != 0 ==> pb >= 2 && pr >= 2,
        pb + width + 1 < old(data).len(),
        pr + width + 1 < old(data).len(),
    ensures
        final(data)@ == vedge_c(vedge_c(old(data)@, pb as int, b, *th, width as int), pr as int, b, *th, width as int),
        final(data).len() == old(data).len(),
{
    if b != 0 {
        FilterVerChromaEdge(data, pb, b, th, width);
        FilterVerChromaEdge(data, pr, b, th, width);
    }
}

/// Filter a horizontal chroma edge of two columns in Cb and in Cr.
fn hor_chroma_pair(data: &mut Vec<u8>, pb: usize, pr: usize, b: u32, th: &edgeThreshold_t, width: u32)
    requires
        b < 4,
        b != 0 ==> pb >= 2 * width && pr >= 2 * width,
        pb + 1 + width < old(data).len(),
        pr + 1 + width < old(data).len(),
    ensures
        final(data)@ == hedge_c(hedge_c(old(data)@, pb as int, b, *th, width as int, 2), pr as int, b, *th, width as int, 2),
        final(data).len() == old(data).len(),
{
    if b != 0 {
        FilterHorChromaEdge(data, pb, b, th, width);
        FilterHorChromaEdge(data, pr, b, th, width);
    }
}

/// Filter the chroma edges of one row of 4x4 chroma blocks.
#[verifier::rlimit(40)]
fn filter_chroma_row(
    data: &mut Vec<u8>,
    cb: usize,
    cr: usize,
    bS: &[bS_t; 16],
    thresholds: &[edgeThreshold_t; 3],
    width: u32,
    v: usize,
)
    requires
        v < 2,
        bs_ok(bS@),
        chroma_edges_fit(old(data).len() as int, cb as int, cr as int, bS@, width as int),
    ensures
        final(data)@ == chroma_row(old(data)@, cb as int, cr as int, bS@, thresholds@, width as int, v as int),
        final(data).len() == old(data).len(),
{
    let w = width as usize;
    let b = 8 * v;
    proof {
        assert(bS@[b as int].top <= 4 && bS@[b as int].left <= 4);
        assert(bS@[b + 1].top <= 4 && bS@[b + 2].left <= 4 && bS@[b + 4].left <= 4 && bS@[b + 6].left <= 4);
        assert(bS@[b + 2].top <= 4 && bS@[b + 3].top <= 4);
        if !tops_equal(bS@, 2 * v as int) {
            assert(bS@[4 * (2 * v) as int].top < 4);
        }
        assert(4 * v * w <= 4 * w) by (nonlinear_arith)
            requires
                v < 2,
        ;
    }
    let pb = cb + 4 * v * w;
    let pr = cr + 4 * v * w;
    ver_chroma_pair(data, pb, pr, bS[b].left, &thresholds[LEFT as usize], width);
    ver_chroma_pair(data, pb + 2 * w, pr + 2 * w, bS[b + 4].left, &thresholds[LEFT as usize], width);
    ver_chroma_pair(data, pb + 4, pr + 4, bS[b + 2].left, &thresholds[INNER as usize], width);
    ver_chroma_pair(data, pb + 2 * w + 4, pr + 2 * w + 4, bS[b + 6].left, &thresholds[INNER as usize], width);
    let offset: usize = if v == 0 {
        TOP as usize
    } else {
        INNER as usize
    };
    let b0 = bS[b].top;
    let b1 = bS[b + 1].top;
    let b2 = bS[b + 2].top;
    let b3 = bS[b + 3].top;
    if b0 == b1 && b1 == b2 && b2 == b3 {
        if b0 != 0 {
            FilterHorChroma(data, pb, b0, &thresholds[offset], width);
            FilterHorChroma(data, pr, b0, &thresholds[offset], width);
        }
    } else {
        hor_chroma_pair(data, pb, pr, b0, &thresholds[offset], width);
        hor_chroma_pair(data, pb + 2, pr + 2, b1, &thresholds[offset], width);
        hor_chroma_pair(data, pb + 4, pr + 4, b2, &thresholds[offset], width);
        hor_chroma_pair(data, pb + 6, pr + 6, b3, &thresholds[offset], width);
    }
}

/// Filter all chroma edges of the macroblock whose Cb and Cr blocks are at
/// `dataCb` and `dataCr` of planes with rows of `width` samples, with the
/// strengths of the luma edges they lie on.
fn FilterChroma(data: &mut Vec<u8>, dataCb: usize, dataCr: usize, bS: &[bS_t; 16], thresholds: &[edgeThreshold_t; 3], width: u32)
    requires
        bs_ok(bS@),
        chroma_edges_fit(old(data).len() as int, dataCb as int, dataCr as int, bS@, width as int),
    ensures
        final(data)@ == chroma_mb(old(data)@, dataCb as int, dataCr as int, bS@, thresholds@, width as int, 2),
        final(data).len() == old(data).len(),
{
    let ghost d0 = data@;
    let mut v: usize = 0;
    while v < 2
        invariant
            v <= 2,
            bs_ok(bS@),
            chroma_edges_fit(data.len() as int, dataCb as int, dataCr as int, bS@, width as int),
            data.len() == d0.len(),
            data@ == chroma_mb(d0, dataCb as int, dataCr as int, bS@, thresholds@, width as int, v as nat),
        decreases 2 - v,
    {
        filter_chroma_row(data, dataCb, dataCr, bS, thresholds, width, v);
        v += 1;
    }
}


/// alpha of each indexA.
pub const alphas: [u8; 52] = [
    0, 0, 0, 0, 0, 0, 0, 0, 0, 0, 0, 0, 0, 0, 0, 0, 4, 4, 5, 6, 7, 8, 9, 10, 12, 13, 15, 17, 20, 22, 25, 28, 32, 36, 40,
    45, 50, 56, 63, 71, 80, 90, 101, 113, 127, 144, 162, 182, 203, 226, 255, 255,
];

/// beta of each indexB.
pub const betas: [u8; 52] = [
    0, 0, 0, 0, 0, 0, 0, 0, 0, 0, 0, 0, 0, 0, 0, 0, 2, 2, 2, 3, 3, 3, 3, 4, 4, 4, 6, 6, 7, 7, 8, 8, 9, 9, 10, 10, 11,
    11, 12, 12, 13, 13, 14, 14, 15, 15, 16, 16, 17, 17, 18, 18,
];

/// tc0 of each indexA for the strengths 1, 2 and 3.
pub const tc0: [[u8; 3]; 52] = [
    [0, 0, 0],
    [0, 0, 0],
    [0, 0, 0],
    [0, 0, 0],
    [0, 0, 0],
    [0, 0, 0],
    [0, 0, 0],
    [0, 0, 0],
    [0, 0, 0],
    [0, 0, 0],
    [0, 0, 0],
    [0, 0, 0],
    [0, 0, 0],
    [0, 0, 0],
    [0, 0, 0],
    [0, 0, 0],
    [0, 0, 0],
    [0, 0, 1],
    [0, 0, 1],
    [0, 0, 1],
    [0, 0, 1],
    [0, 1, 1],
    [0, 1, 1],
    [1, 1, 1],
    [1, 1, 1],
    [1, 1, 1],
    [1, 1, 1],
    [1, 1, 2],
    [1, 1, 2],
    [1, 1, 2],
    [1, 1, 2],
    [1, 2, 3],
    [1, 2, 3],
    [2, 2, 3],
    [2, 2, 4],
    [2, 3, 4],
    [2, 3, 4],
    [3, 3, 5],
    [3, 4, 6],
    [3, 4, 6],
    [4, 5, 7],
    [4, 5, 8],
    [4, 6, 9],
    [5, 7, 10],
    [6, 8, 11],
    [6, 8, 13],
    [7, 10, 14],
    [8, 11, 16],
    [9, 12, 18],
    [10, 13, 20],
    [11, 15, 23],
    [13, 17, 25],
];

/// Chroma quantizer of each clipped luma quantizer plus offset.
pub const h264bsdQpC: [u32; 52] = [
    0, 1, 2, 3, 4, 5, 6, 7, 8, 9, 10, 11, 12, 13, 14, 15, 16, 17, 18, 19, 20, 21, 22, 23, 24, 25, 26, 27, 28, 29, 29, 30,
    31, 32, 32, 33, 34, 34, 35, 35, 36, 36, 37, 37, 37, 38, 38, 38, 39, 39, 39, 39,
];

/// The thresholds of an edge with (average) quantizer `qp` and the filter
/// offsets of the macroblock.
pub open spec fn thr(qp: int, offA: i32, offB: i32) -> edgeThreshold_t {
    let ia = clip3(0, 51, qp + offA);
    let ib = clip3(0, 51, qp + offB);
    edgeThreshold_t { tc0: tc0@[ia], alpha: alphas@[ia] as u32, beta: betas@[ib] as u32 }
}

/// The chroma quantizer of luma quantizer `qp`.
pub open spec fn qpc(qp: int, off: i32) -> int {
    h264bsdQpC@[clip3(0, 51, qp + off)] as int
}

/// The quantizer and filter parameters of the macroblocks are in range.
pub open spec fn mb_params_ok(m: mbStorage_t) -> bool {
    &&& m.qpY <= 51
    &&& -51 <= m.filterOffsetA <= 51
    &&& -51 <= m.filterOffsetB <= 51
    &&& -51 <= m.chromaQpIndexOffset <= 51
}

/// The thresholds of quantizer `qp` and offsets of `m`.
fn threshold(qp: u32, m: &mbStorage_t) -> (r: edgeThreshold_t)
    requires
        qp <= 51,
        mb_params_ok(*m),
    ensures
        r == thr(qp as int, m.filterOffsetA, m.filterOffsetB),
{
    let ia = clip3_i32(0, 51, qp as i32 + m.filterOffsetA) as usize;
    let ib = clip3_i32(0, 51, qp as i32 + m.filterOffsetB) as usize;
    edgeThreshold_t { tc0: tc0[ia], alpha: alphas[ia] as u32, beta: betas[ib] as u32 }
}

/// Compute the luma thresholds of macroblock `cur`: the inner edges from
/// its quantizer, the top (left) edge, when `filteringFlags` filter it,
/// from the average of its and the upper (left) neighbour's quantizer.
fn GetLumaEdgeThresholds(thresholds: &mut [edgeThreshold_t; 3], mbs: &[mbStorage_t], cur: usize, filteringFlags: u32)
    requires
        cur < mbs.len(),
        mb_params_ok(mbs@[cur as int]),
        filteringFlags & FILTER_TOP_EDGE != 0 ==> (mbs@[cur as int].mbB matches Some(b) && b < mbs.len() && mbs@[b as int].qpY <= 51),
        filteringFlags & FILTER_LEFT_EDGE != 0 ==> (mbs@[cur as int].mbA matches Some(a) && a < mbs.len() && mbs@[a as int].qpY
            <= 51),
    ensures
        ({
            let m = mbs@[cur as int];
            &&& final(thresholds)@[INNER as int] == thr(m.qpY as int, m.filterOffsetA, m.filterOffsetB)
            &&& final(thresholds)@[TOP as int] == if filteringFlags & FILTER_TOP_EDGE != 0 {
                thr((m.qpY + mbs@[m.mbB.unwrap() as int].qpY + 1) / 2, m.filterOffsetA, m.filterOffsetB)
            } else {
                old(thresholds)@[TOP as int]
            }
            &&& final(thresholds)@[LEFT as int] == if filteringFlags & FILTER_LEFT_EDGE != 0 {
                thr((m.qpY + mbs@[m.mbA.unwrap() as int].qpY + 1) / 2, m.filterOffsetA, m.filterOffsetB)
            } else {
                old(thresholds)@[LEFT as int]
            }
        }),
{
    let m = &mbs[cur];
    let qp = m.qpY;
    thresholds[INNER as usize] = threshold(qp, m);
    if filteringFlags & FILTER_TOP_EDGE != 0 {
        let qpTmp = mbs[m.mbB.unwrap()].qpY;
        if qpTmp != qp {
            thresholds[TOP as usize] = threshold((qp + qpTmp + 1) / 2, m);
        } else {
            thresholds[TOP as usize] = thresholds[INNER as usize];
        }
    }
    if filteringFlags & FILTER_LEFT_EDGE != 0 {
        let qpTmp = mbs[m.mbA.unwrap()].qpY;
        if qpTmp != qp {
            thresholds[LEFT as usize] = threshold((qp + qpTmp + 1) / 2, m);
        } else {
            thresholds[LEFT as usize] = thresholds[INNER as usize];
        }
    }
}

/// The chroma quantizer of luma quantizer `qp`.
pub(crate) fn chroma_qp(qp: u32, off: i32) -> (r: u32)
    requires
        qp <= 51,
        -51 <= off <= 51,
    ensures
        r == qpc(qp as int, off),
        r <= 39,
{
    let i = clip3_i32(0, 51, qp as i32 + off) as usize;
    proof {
        assert(forall|k: int| 0 <= k < 52 ==> #[trigger] h264bsdQpC@[k] <= 39);
    }
    h264bsdQpC[i]
}

/// Compute the chroma thresholds of macroblock `cur` as
/// GetLumaEdgeThresholds does, from the chroma quantizers.
fn GetChromaEdgeThresholds(
    thresholds: &mut [edgeThreshold_t; 3],
    mbs: &[mbStorage_t],
    cur: usize,
    filteringFlags: u32,
    chromaQpIndexOffset: i32,
)
    requires
        cur < mbs.len(),
        mb_params_ok(mbs@[cur as int]),
        -51 <= chromaQpIndexOffset <= 51,
        filteringFlags & FILTER_TOP_EDGE != 0 ==> (mbs@[cur as int].mbB matches Some(b) && b < mbs.len() && mbs@[b as int].qpY <= 51),
        filteringFlags & FILTER_LEFT_EDGE != 0 ==> (mbs@[cur as int].mbA matches Some(a) && a < mbs.len() && mbs@[a as int].qpY
            <= 51),
    ensures
        ({
            let m = mbs@[cur as int];
            let c = qpc(m.qpY as int, chromaQpIndexOffset);
            &&& final(thresholds)@[INNER as int] == thr(c, m.filterOffsetA, m.filterOffsetB)
            &&& final(thresholds)@[TOP as int] == if filteringFlags & FILTER_TOP_EDGE != 0 {
                thr(
                    (c + qpc(mbs@[m.mbB.unwrap() as int].qpY as int, chromaQpIndexOffset) + 1) / 2,
                    m.filterOffsetA,
                    m.filterOffsetB,
                )
            } else {
                old(thresholds)@[TOP as int]
            }
            &&& final(thresholds)@[LEFT as int] == if filteringFlags & FILTER_LEFT_EDGE != 0 {
                thr(
                    (c + qpc(mbs@[m.mbA.unwrap() as int].qpY as int, chromaQpIndexOffset) + 1) / 2,
                    m.filterOffsetA,
                    m.filterOffsetB,
                )
            } else {
                old(thresholds)@[LEFT as int]
            }
        }),
{
    let m = &mbs[cur];
    let qp = chroma_qp(m.qpY, chromaQpIndexOffset);
    thresholds[INNER as usize] = threshold(qp, m);
    if filteringFlags & FILTER_TOP_EDGE != 0 {
        let qpTmp = mbs[m.mbB.unwrap()].qpY;
        if qpTmp != m.qpY {
            let q2 = chroma_qp(qpTmp, chromaQpIndexOffset);
            thresholds[TOP as usize] = threshold((qp + q2 + 1) / 2, m);
        } else {
            thresholds[TOP as usize] = thresholds[INNER as usize];
        }
    }
    if filteringFlags & FILTER_LEFT_EDGE != 0 {
        let qpTmp = mbs[m.mbA.unwrap()].qpY;
        if qpTmp != m.qpY {
            let q2 = chroma_qp(qpTmp, chromaQpIndexOffset);
            thresholds[LEFT as usize] = threshold((qp + q2 + 1) / 2, m);
        } else {
            thresholds[LEFT as usize] = thresholds[INNER as usize];
        }
    }
}


/// The boundary strengths of macroblock `cur` filtered with `flags`, by
/// raster position of the 4x4 blocks.
pub open spec fn mb_bs(mbs: Seq<mbStorage_t>, cur: int, flags: u32) -> Seq<bS_t> {
    Seq::new(16, |r: int| bS_t { top: top_bs(mbs, cur, flags, r), left: left_bs(mbs, cur, flags, r) })
}

/// The luma thresholds of macroblock `cur` (top, left, inner; an edge not
/// filtered takes the inner ones).
pub open spec fn luma_ths(mbs: Seq<mbStorage_t>, cur: int, flags: u32) -> Seq<edgeThreshold_t> {
    let m = mbs[cur];
    let inner = thr(m.qpY as int, m.filterOffsetA, m.filterOffsetB);
    seq![
        if flags & FILTER_TOP_EDGE != 0 {
            thr((m.qpY + mbs[m.mbB.unwrap() as int].qpY + 1) / 2, m.filterOffsetA, m.filterOffsetB)
        } else {
            inner
        },
        if flags & FILTER_LEFT_EDGE != 0 {
            thr((m.qpY + mbs[m.mbA.unwrap() as int].qpY + 1) / 2, m.filterOffsetA, m.filterOffsetB)
        } else {
            inner
        },
        inner,
    ]
}

/// The chroma thresholds of macroblock `cur`.
pub open spec fn chroma_ths(mbs: Seq<mbStorage_t>, cur: int, flags: u32) -> Seq<edgeThreshold_t> {
    let m = mbs[cur];
    let o = m.chromaQpIndexOffset;
    let c = qpc(m.qpY as int, o);
    let inner = thr(c, m.filterOffsetA, m.filterOffsetB);
    seq![
        if flags & FILTER_TOP_EDGE != 0 {
            thr((c + qpc(mbs[m.mbB.unwrap() as int].qpY as int, o) + 1) / 2, m.filterOffsetA, m.filterOffsetB)
        } else {
            inner
        },
        if flags & FILTER_LEFT_EDGE != 0 {
            thr((c + qpc(mbs[m.mbA.unwrap() as int].qpY as int, o) + 1) / 2, m.filterOffsetA, m.filterOffsetB)
        } else {
            inner
        },
        inner,
    ]
}

/// The samples `d` of a picture `w` x `h` macroblocks after the
/// deblocking filter of macroblock `cur`: nothing when none of its edges
/// is filtered or all their strengths are 0; else its luma edges, then its
/// chroma edges.
pub open spec fn filter_mb(d: Seq<u8>, mbs: Seq<mbStorage_t>, cur: int, w: int, h: int) -> Seq<u8> {
    let flags = filtering_flags(mbs, cur);
    if flags == 0 || !any_nonzero_bs(mbs, cur, flags) {
        d
    } else {
        let bS = mb_bs(mbs, cur, flags);
        let row = cur / w;
        let col = cur % w;
        let d1 = luma_mb(d, row * (256 * w) + col * 16, bS, luma_ths(mbs, cur, flags), 16 * w, 4);
        let cb = 256 * w * h + row * (64 * w) + col * 8;
        chroma_mb(d1, cb, cb + 64 * w * h, bS, chroma_ths(mbs, cur, flags), 8 * w, 2)
    }
}

/// The picture after the deblocking filter of its first `n` macroblocks,
/// in raster order.
pub open spec fn filter_picture(d: Seq<u8>, mbs: Seq<mbStorage_t>, w: int, h: int, n: nat) -> Seq<u8>
    decreases n,
{
    if n == 0 {
        d
    } else {
        filter_mb(filter_picture(d, mbs, w, h, (n - 1) as nat), mbs, n - 1, w, h)
    }
}

/// The luma filtering does not read the thresholds of a macroblock edge
/// whose strengths are all 0.
proof fn lemma_luma_ths(d: Seq<u8>, pos: int, bS: Seq<bS_t>, t1: Seq<edgeThreshold_t>, t2: Seq<edgeThreshold_t>, w: int, n: nat)
    requires
        n <= 4,
        t1[INNER as int] == t2[INNER as int],
        t1[TOP as int] == t2[TOP as int] || (bS[0].top == 0 && bS[1].top == 0 && bS[2].top == 0 && bS[3].top == 0),
        t1[LEFT as int] == t2[LEFT as int] || (bS[0].left == 0 && bS[4].left == 0 && bS[8].left == 0 && bS[12].left == 0),
    ensures
        luma_mb(d, pos, bS, t1, w, n) == luma_mb(d, pos, bS, t2, w, n),
    decreases n,
{
    if n > 0 {
        lemma_luma_ths(d, pos, bS, t1, t2, w, (n - 1) as nat);
    }
}

/// The chroma filtering does not read the thresholds of a macroblock edge
/// whose strengths are all 0.
proof fn lemma_chroma_ths(
    d: Seq<u8>,
    cb: int,
    cr: int,
    bS: Seq<bS_t>,
    t1: Seq<edgeThreshold_t>,
    t2: Seq<edgeThreshold_t>,
    w: int,
    n: nat,
)
    requires
        n <= 2,
        t1[INNER as int] == t2[INNER as int],
        t1[TOP as int] == t2[TOP as int] || (bS[0].top == 0 && bS[1].top == 0 && bS[2].top == 0 && bS[3].top == 0),
        t1[LEFT as int] == t2[LEFT as int] || (bS[0].left == 0 && bS[4].left == 0 && bS[8].left == 0 && bS[12].left == 0),
    ensures
        chroma_mb(d, cb, cr, bS, t1, w, n) == chroma_mb(d, cb, cr, bS, t2, w, n),
    decreases n,
{
    if n > 0 {
        lemma_chroma_ths(d, cb, cr, bS, t1, t2, w, (n - 1) as nat);
    }
}

/// The strengths computed for a macroblock are at most 4, and a row of
/// them with differing top strengths has none of 4.
proof fn lemma_mb_bs_ok(mbs: Seq<mbStorage_t>, cur: int, flags: u32)
    ensures
        bs_ok(mb_bs(mbs, cur, flags)),
{
    let bS = mb_bs(mbs, cur, flags);
    crate::deblock::lemma_blk_range();
    assert forall|i: int| 0 <= i < 16 implies (#[trigger] bS[i]).top <= 4 && bS[i].left <= 4 by {}
    assert forall|v: int| 0 <= v < 4 && !#[trigger] tops_equal(bS, v) implies bS[4 * v].top < 4 && bS[4 * v + 1].top < 4
        && bS[4 * v + 2].top < 4 && bS[4 * v + 3].top < 4 by {}
}

/// The macroblock neighbours are those of their places in a picture `w`
/// wide and the macroblock parameters are in range.
pub open spec fn picture_mbs_ok(mbs: Seq<mbStorage_t>, w: int, h: int) -> bool {
    &&& mbs.len() == w * h
    &&& forall|i: int|
        0 <= i < mbs.len() ==> (#[trigger] mbs[i]).mbA == mb_neighbours(i, w).0 && mbs[i].mbB == mb_neighbours(i, w).1
    &&& forall|i: int| 0 <= i < mbs.len() ==> mb_params_ok(#[trigger] mbs[i])
}


/// Filter the edges of macroblock `i` at (row, col) of the picture.
#[verifier::rlimit(60)]
fn filter_macroblock(
    data: &mut Vec<u8>,
    mbs: &[mbStorage_t],
    i: usize,
    row: usize,
    col: usize,
    w: usize,
    h: usize,
    bS: &mut [bS_t; 16],
    thresholds: &mut [edgeThreshold_t; 3],
)
    requires
        1 <= w <= 4096,
        1 <= h <= 4096,
        old(data).len() == 384 * w * h,
        picture_mbs_ok(mbs@, w as int, h as int),
        row < h,
        col < w,
        i == row * w + col,
    ensures
        final(data)@ == filter_mb(old(data)@, mbs@, i as int, w as int, h as int),
        final(data).len() == old(data).len(),
{
    let ghost d0 = data@;
    let ghost m = mbs@;
    proof {
        assert(i < w * h) by (nonlinear_arith)
            requires
                i == row * w + col,
                row < h,
                col < w,
        ;
        assert((i as int) / (w as int) == row && (i as int) % (w as int) == col) by {
            vstd::arithmetic::div_mod::lemma_fundamental_div_mod_converse(i as int, w as int, row as int, col as int);
        }
        assert(row >= 1 ==> i >= w) by (nonlinear_arith)
            requires
                i == row * w + col,
        ;
        let mi = m[i as int];
        assert(mi.mbA == mb_neighbours(i as int, w as int).0 && mi.mbB == mb_neighbours(i as int, w as int).1);
    }
    let flags = GetMbFilteringFlags(mbs, i);
    if flags == 0 {
        return;
    }
    let nonzero = GetBoundaryStrengths(mbs, i, bS, flags);
    if nonzero == 0 {
        return;
    }
    proof {
        assert(bS@ =~= mb_bs(m, i as int, flags));
        lemma_mb_bs_ok(m, i as int, flags);
        assert(w * h <= 4096 * 4096) by (nonlinear_arith)
            requires
                w <= 4096,
                h <= 4096,
        ;
        assert(row * (256 * w) + col * 16 + 15 * (16 * w) + 15 < 256 * w * h) by (nonlinear_arith)
            requires
                row < h,
                col < w,
        ;
        assert(256 * w * h + row * (64 * w) + col * 8 + 64 * w * h + 7 * (8 * w) + 7 < 384 * w * h) by (nonlinear_arith)
            requires
                row < h,
                col < w,
        ;
        assert(row >= 1 ==> row * (256 * w) + col * 16 >= 4 * (16 * w)) by (nonlinear_arith)
            requires
                w >= 1,
        ;
        let mi = m[i as int];
        if flags & FILTER_TOP_EDGE != 0 {
            assert(mi.mbA == mb_neighbours(i as int, w as int).0);
            assert(row >= 1);
            let b = mi.mbB.unwrap() as int;
            assert(mb_params_ok(m[b]));
        }
        if flags & FILTER_LEFT_EDGE != 0 {
            assert(col >= 1);
            let a = mi.mbA.unwrap() as int;
            assert(mb_params_ok(m[a]));
        }
        assert(mb_params_ok(mi));
    }
    let ww = w as u32;
    let lumaPos = row * (256 * w) + col * 16;
    proof {
        let bs = bS@;
        if exists|v: int| 0 <= v < 4 && #[trigger] bs[4 * v].left != 0 {
            let v = choose|v: int| 0 <= v < 4 && #[trigger] bs[4 * v].left != 0;
            assert(left_bs(m, i as int, flags, 4 * v) != 0);
            assert((4 * v) % 4 == 0);
            assert(flags & FILTER_LEFT_EDGE != 0);
        }
        if exists|j: int| 0 <= j < 4 && #[trigger] bs[j].top != 0 {
            let j = choose|j: int| 0 <= j < 4 && #[trigger] bs[j].top != 0;
            assert(top_bs(m, i as int, flags, j) != 0);
            assert(flags & FILTER_TOP_EDGE != 0);
        }
        assert(luma_edges_fit(data.len() as int, lumaPos as int, bs, 16 * w));
    }
    GetLumaEdgeThresholds(thresholds, mbs, i, flags);
    let ghost d1 = data@;
    FilterLuma(data, lumaPos, bS, thresholds, 16 * ww);
    proof {
        lemma_luma_ths(d1, lumaPos as int, bS@, thresholds@, luma_ths(m, i as int, flags), 16 * w, 4);
    }
    let ghost d2 = data@;
    GetChromaEdgeThresholds(thresholds, mbs, i, flags, mbs[i].chromaQpIndexOffset);
    let cb = 256 * w * h + row * (64 * w) + col * 8;
    let cr = cb + 64 * w * h;
    proof {
        let bs = bS@;
        if bs[0].left != 0 || bs[4].left != 0 || bs[8].left != 0 || bs[12].left != 0 {
            assert(left_bs(m, i as int, flags, 0) != 0 || left_bs(m, i as int, flags, 4) != 0 || left_bs(m, i as int, flags, 8)
                != 0 || left_bs(m, i as int, flags, 12) != 0);
            assert(flags & FILTER_LEFT_EDGE != 0);
        }
        if bs[0].top != 0 || bs[1].top != 0 || bs[2].top != 0 || bs[3].top != 0 {
            assert(flags & FILTER_TOP_EDGE != 0);
            assert(row * (64 * w) >= 2 * (8 * w)) by (nonlinear_arith)
                requires
                    row >= 1,
                    w >= 1,
            ;
        }
        assert(256 * w * h >= 2 * (8 * w)) by (nonlinear_arith)
            requires
                w >= 1,
                h >= 1,
        ;
    }
    FilterChroma(data, cb, cr, bS, thresholds, 8 * ww);
    proof {
        lemma_chroma_ths(d2, cb as int, cr as int, bS@, thresholds@, chroma_ths(m, i as int, flags), 8 * w, 2);
    }
}

/// Apply the deblocking filter to the picture `image`, whose macroblocks
/// are `mbs`: macroblock by macroblock in raster order, the luma edges
/// then the chroma edges that its flags select, with their strengths and
/// thresholds.
pub fn h264bsdFilterPicture(image: &mut image_t, mbs: &[mbStorage_t])
    requires
        old(image).wf(),
        picture_mbs_ok(mbs@, old(image).width as int, old(image).height as int),
    ensures
        final(image).width == old(image).width,
        final(image).height == old(image).height,
        final(image).luma == old(image).luma,
        final(image).cb == old(image).cb,
        final(image).cr == old(image).cr,
        final(image).data@ == filter_picture(
            old(image).data@,
            mbs@,
            old(image).width as int,
            old(image).height as int,
            (old(image).width * old(image).height) as nat,
        ),
{
    let ghost d0 = image.data@;
    let w = image.width as usize;
    let h = image.height as usize;
    proof {
        assert(w * h <= 4096 * 4096) by (nonlinear_arith)
            requires
                w <= 4096,
                h <= 4096,
        ;
    }
    let picSize = w * h;
    let mut bS = [bS_t { top: 0, left: 0 }; 16];
    let mut thresholds = [edgeThreshold_t { tc0: [0; 3], alpha: 0, beta: 0 }; 3];
    let mut row: usize = 0;
    let mut col: usize = 0;
    let mut i: usize = 0;
    while i < picSize
        invariant
            1 <= w <= 4096,
            1 <= h <= 4096,
            w == image.width,
            h == image.height,
            image.luma == old(image).luma,
            image.cb == old(image).cb,
            image.cr == old(image).cr,
            d0 == old(image).data@,
            picSize == w * h,
            image.data.len() == 384 * w * h,
            picture_mbs_ok(mbs@, w as int, h as int),
            i <= picSize,
            col < w,
            i == row * w + col,
            i < picSize ==> row < h,
            image.data@ == filter_picture(d0, mbs@, w as int, h as int, i as nat),
        decreases picSize - i,
    {
        proof {
            assert(row < h);
        }
        filter_macroblock(&mut image.data, mbs, i, row, col, w, h, &mut bS, &mut thresholds);
        col += 1;
        if col == w {
            col = 0;
            row += 1;
            proof {
                assert(i + 1 == row * w) by (nonlinear_arith)
                    requires
                        i + 1 == (row - 1) * w + w,
                ;
            }
        }
        i += 1;
        proof {
            if i < picSize {
                assert(row < h) by (nonlinear_arith)
                    requires
                        i == row * w + col,
                        i < w * h,
                        col >= 0,
                        w >= 1,
                ;
            }
        }
    }
}


/// The normal filter of a luma edge of strength bS in 1..3 clips with
/// the tc0 of that strength, tc0 = tc0table[indexA][bS - 1] held in the
/// edge's thresholds (H.264 8.7.2.3): p1 and q1, where their side is
/// smooth (|p2 - p0| < beta, |q2 - q0| < beta), move by their correction
/// ((p2 + ((p0 + q0 + 1) >> 1) - 2 p1) >> 1 and likewise for q1) when it
/// lies within [-tc0, tc0] and by exactly tc0 towards it when it does
/// not; p0 and q0 move by the delta clipped to tc = tc0 plus one for each
/// smooth side; the outer samples stay.
pub proof fn lemma_luma_normal_clips(bS: u32, th: edgeThreshold_t, s: Seq<int>)
    requires
        1 <= bS <= 3,
        s.len() == 8,
        edge_active(s[2], s[3], s[4], s[5], th),
    ensures
        ({
            let c = th.tc0@[bS - 1] as int;
            let ap = iabs(s[1] - s[3]) < th.beta;
            let aq = iabs(s[6] - s[4]) < th.beta;
            let avg = (s[3] + s[4] + 1) / 2;
            let dp = (s[1] + avg - 2 * s[2]) / 2;
            let dq = (s[6] + avg - 2 * s[5]) / 2;
            let tc = c + (if ap { 1int } else { 0 }) + (if aq { 1int } else { 0 });
            let delta = clip3(-tc, tc, (4 * (s[4] - s[3]) + (s[2] - s[5]) + 4) / 8);
            let r = luma_line(bS, th, s);
            &&& r[0] == s[0] && r[1] == s[1] && r[6] == s[6] && r[7] == s[7]
            &&& !ap ==> r[2] == s[2]
            &&& ap && -c <= dp <= c ==> r[2] == s[2] + dp
            &&& ap && dp > c ==> r[2] == s[2] + c
            &&& ap && dp < -c ==> r[2] == s[2] - c
            &&& !aq ==> r[5] == s[5]
            &&& aq && -c <= dq <= c ==> r[5] == s[5] + dq
            &&& aq && dq > c ==> r[5] == s[5] + c
            &&& aq && dq < -c ==> r[5] == s[5] - c
            &&& r[3] == clip1(s[3] + delta)
            &&& r[4] == clip1(s[4] - delta)
        }),
{
}


/// The normal filter of a chroma edge of strength bS in 1..3 (H.264
/// 8.7.2.3): p0 and q0 move by the delta (4 (q0 - p0) + (p1 - q1) + 4) >> 3
/// when it lies within [-tc, tc], tc = tc0table[indexA][bS - 1] + 1, and
/// by exactly tc towards it when it does not (before clipping to 0..255);
/// p1 and q1 stay.
pub proof fn lemma_chroma_normal_clips(bS: u32, th: edgeThreshold_t, s: Seq<int>)
    requires
        1 <= bS <= 3,
        s.len() == 4,
        edge_active(s[0], s[1], s[2], s[3], th),
    ensures
        ({
            let tc = th.tc0@[bS - 1] as int + 1;
            let d = (4 * (s[2] - s[1]) + (s[0] - s[3]) + 4) / 8;
            let r = chroma_line(bS, th, s);
            &&& r[0] == s[0] && r[3] == s[3]
            &&& -tc <= d <= tc ==> r[1] == clip1(s[1] + d) && r[2] == clip1(s[2] - d)
            &&& d > tc ==> r[1] == clip1(s[1] + tc) && r[2] == clip1(s[2] - tc)
            &&& d < -tc ==> r[1] == clip1(s[1] - tc) && r[2] == clip1(s[2] + tc)
        }),
{
}


/// The chroma quantizer (H.264 table 8-15) of qPI = qp + offset clipped to
/// [0, 51]: qPI itself below 30, from 30 on between 29 and 39 and below
/// qPI, 39 at 51, and never decreasing as qPI grows.
pub proof fn lemma_chroma_qp(qp1: int, off1: i32, qp2: int, off2: i32)
    ensures
        ({
            let q1 = clip3(0, 51, qp1 + off1);
            let q2 = clip3(0, 51, qp2 + off2);
            &&& q1 < 30 ==> qpc(qp1, off1) == q1
            &&& q1 >= 30 ==> 29 <= qpc(qp1, off1) <= 39 && qpc(qp1, off1) < q1
            &&& q1 == 51 ==> qpc(qp1, off1) == 39
            &&& q1 <= q2 ==> qpc(qp1, off1) <= qpc(qp2, off2)
        }),
{
    let q1 = clip3(0, 51, qp1 + off1);
    let q2 = clip3(0, 51, qp2 + off2);
    assert forall|a: int, b: int| 0 <= a <= b < 52 implies #[trigger] h264bsdQpC@[a] <= #[trigger] h264bsdQpC@[b] by {
        assert forall|i: int| 0 <= i < 51 implies #[trigger] h264bsdQpC@[i] <= h264bsdQpC@[i + 1] by {
            assert(i == 0 || i == 1 || i == 2 || i == 3 || i == 4 || i == 5 || i == 6 || i == 7 || i == 8 || i == 9 || i == 10
                || i == 11 || i == 12 || i == 13 || i == 14 || i == 15 || i == 16 || i == 17 || i == 18 || i == 19 || i == 20
                || i == 21 || i == 22 || i == 23 || i == 24 || i == 25 || i == 26 || i == 27 || i == 28 || i == 29 || i == 30
                || i == 31 || i == 32 || i == 33 || i == 34 || i == 35 || i == 36 || i == 37 || i == 38 || i == 39 || i == 40
                || i == 41 || i == 42 || i == 43 || i == 44 || i == 45 || i == 46 || i == 47 || i == 48 || i == 49 || i == 50);
        }
        lemma_qpc_mono(a, b);
    }
    assert(0 <= q1 < 52);
    assert(q1 == 0 || q1 == 1 || q1 == 2 || q1 == 3 || q1 == 4 || q1 == 5 || q1 == 6 || q1 == 7 || q1 == 8 || q1 == 9 || q1 == 10
        || q1 == 11 || q1 == 12 || q1 == 13 || q1 == 14 || q1 == 15 || q1 == 16 || q1 == 17 || q1 == 18 || q1 == 19 || q1 == 20
        || q1 == 21 || q1 == 22 || q1 == 23 || q1 == 24 || q1 == 25 || q1 == 26 || q1 == 27 || q1 == 28 || q1 == 29 || q1 == 30
        || q1 == 31 || q1 == 32 || q1 == 33 || q1 == 34 || q1 == 35 || q1 == 36 || q1 == 37 || q1 == 38 || q1 == 39 || q1 == 40
        || q1 == 41 || q1 == 42 || q1 == 43 || q1 == 44 || q1 == 45 || q1 == 46 || q1 == 47 || q1 == 48 || q1 == 49 || q1 == 50
        || q1 == 51);
}

/// The table of chroma quantizers never decreases, from steps of one.
proof fn lemma_qpc_mono(a: int, b: int)
    requires
        0 <= a <= b < 52,
        forall|i: int| 0 <= i < 51 ==> #[trigger] h264bsdQpC@[i] <= h264bsdQpC@[i + 1],
    ensures
        h264bsdQpC@[a] <= h264bsdQpC@[b],
    decreases b - a,
{
    if a < b {
        lemma_qpc_mono(a, b - 1);
        assert(h264bsdQpC@[b - 1] <= h264bsdQpC@[b]);
    }
}

} // verus!

//! Error concealment of a macroblock that could not be decoded: in a P
//! slice with a reference picture, the co-located macroblock of the
//! reference; otherwise a smooth block estimated from the sample rows and
//! columns bordering the decoded neighbours.
use vstd::prelude::*;
use vstd::arithmetic::power2::*;
use crate::defs::{HANTRO_OK, IS_I_SLICE};
use crate::image::{h264bsdSetCurrImageMbPointers, h264bsdWriteMacroblock, image_t, lemma_mb_blocks};
use crate::macroblock::{mbStorage_t, mv_t, I_4x4};
use crate::reconstruct::{
    at8, block_fits, chroma_pred, clip1, in_block, lemma_block_index, luma_pred, mb_at, plane_fn, predict_samples_in,
    sample,
};
use crate::util::lemma_shr_i32;

verus! {

/// Sum of `n` samples of `p` from `pos` on, `step` apart.
pub open spec fn sum_at(p: Seq<u8>, pos: int, step: int, n: nat) -> int
    decreases n,
{
    if n == 0 {
        0
    } else {
        sum_at(p, pos, step, (n - 1) as nat) + p[pos + (n - 1) * step] as int
    }
}

/// `x / 2^k`, rounded down.
pub open spec fn div2(x: int, k: nat) -> int {
    x / (pow2(k) as int)
}

/// s[0] + s[1] + s[2] + s[3].
pub open spec fn sum4(s: Seq<int>) -> int {
    s[0] + s[1] + s[2] + s[3]
}

/// s[0] + s[1] - s[2] - s[3].
pub open spec fn diff4(s: Seq<int>) -> int {
    s[0] + s[1] - s[2] - s[3]
}

/// The four sums of `g` samples of the row just above the `n` x `n` block
/// at `o` (row length `st`).
pub open spec fn above_sums(p: Seq<u8>, o: int, st: int, g: nat) -> Seq<int> {
    Seq::new(4, |k: int| sum_at(p, o - st + k * g, 1, g))
}

/// The four sums of the row just below the block.
pub open spec fn below_sums(p: Seq<u8>, o: int, st: int, n: int, g: nat) -> Seq<int> {
    Seq::new(4, |k: int| sum_at(p, o + n * st + k * g, 1, g))
}

/// The four sums of the column just left of the block.
pub open spec fn left_sums(p: Seq<u8>, o: int, st: int, g: nat) -> Seq<int> {
    Seq::new(4, |k: int| sum_at(p, o - 1 + k * (g * st), st, g))
}

/// The four sums of the column just right of the block.
pub open spec fn right_sums(p: Seq<u8>, o: int, st: int, n: int, g: nat) -> Seq<int> {
    Seq::new(4, |k: int| sum_at(p, o + n + k * (g * st), st, g))
}

/// The DC, horizontal and vertical coefficients estimated from the sums
/// of the neighbours that are there (above `A`, below `B`, left `L`,
/// right `R`); `luma` selects the scaling of a 16 x 16 block, else of an
/// 8 x 8 one.
pub open spec fn conceal_phase(
    A: bool,
    B: bool,
    L: bool,
    R: bool,
    a: Seq<int>,
    b: Seq<int>,
    l: Seq<int>,
    r: Seq<int>,
    luma: bool,
) -> (int, int, int) {
    let hor: nat = (if A { 1nat } else { 0nat }) + (if B { 1nat } else { 0nat });
    let ver: nat = (if L { 1nat } else { 0nat }) + (if R { 1nat } else { 0nat });
    let sb: nat = if luma { 3 } else { 2 };
    let dc0 = (if A { sum4(a) } else { 0 }) + (if B { sum4(b) } else { 0 }) + (if L { sum4(l) } else { 0 }) + (if R {
        sum4(r)
    } else {
        0
    });
    let h0 = (if A { diff4(a) } else { 0 }) + (if B { diff4(b) } else { 0 });
    let v0 = (if L { diff4(l) } else { 0 }) + (if R { diff4(r) } else { 0 });
    let h1 = if hor == 0 && L && R {
        div2(sum4(l) - sum4(r), sb + 2)
    } else if hor != 0 {
        div2(h0, sb + hor)
    } else {
        h0
    };
    let v1 = if ver == 0 && A && B {
        div2(sum4(a) - sum4(b), sb + 2)
    } else if ver != 0 {
        div2(v0, sb + ver)
    } else {
        v0
    };
    let j = hor + ver;
    let dc = if j == 1 {
        div2(dc0, sb + 1)
    } else if j == 2 {
        div2(dc0, sb + 2)
    } else if j == 3 {
        div2(21 * dc0, sb + 7)
    } else {
        div2(dc0, sb + 3)
    };
    (dc, h1, v1)
}

/// The simplified inverse transform of a block whose only coefficients
/// are the DC `d0`, the first horizontal `d1` and the first vertical `d4`.
pub open spec fn conceal_transform(d0: int, d1: int, d4: int) -> Seq<int> {
    if d1 == 0 && d4 == 0 {
        Seq::new(16, |i: int| d0)
    } else {
        Seq::new(
            16,
            |i: int|
                {
                    let c = i % 4;
                    let y = i / 4;
                    let t0 = if c == 0 {
                        d0 + d1
                    } else if c == 1 {
                        d0 + div2(d1, 1)
                    } else if c == 2 {
                        d0 - div2(d1, 1)
                    } else {
                        d0 - d1
                    };
                    if y == 0 {
                        t0 + d4
                    } else if y == 1 {
                        t0 + div2(d4, 1)
                    } else if y == 2 {
                        t0 - div2(d4, 1)
                    } else {
                        t0 - d4
                    }
                },
        )
    }
}

/// The concealed samples of an `n` x `n` block at `o` of a plane with rows
/// of `st` samples: each `g` x `g` square takes one value of the
/// transformed estimate, clipped.
pub open spec fn concealed_block(
    p: Seq<u8>,
    o: int,
    st: int,
    n: int,
    g: nat,
    A: bool,
    B: bool,
    L: bool,
    R: bool,
    luma: bool,
) -> Seq<int> {
    let ph = conceal_phase(
        A,
        B,
        L,
        R,
        above_sums(p, o, st, g),
        below_sums(p, o, st, n, g),
        left_sums(p, o, st, g),
        right_sums(p, o, st, n, g),
        luma,
    );
    let t = conceal_transform(ph.0, ph.1, ph.2);
    Seq::new((n * n) as nat, |i: int| clip1(t[4 * ((i / n) / (g as int)) + (i % n) / (g as int)]))
}

/// Which neighbours of macroblock (row, col) have been decoded: above,
/// below, left, right.
pub open spec fn decoded_neighbours(mbs: Seq<mbStorage_t>, w: int, h: int, row: int, col: int) -> (bool, bool, bool, bool) {
    let n = row * w + col;
    (
        row != 0 && mbs[n - w].decoded != 0,
        row != h - 1 && mbs[n + w].decoded != 0,
        col != 0 && mbs[n - 1].decoded != 0,
        col != w - 1 && mbs[n + 1].decoded != 0,
    )
}

/// Halving by a power of two does not grow the magnitude.
proof fn lemma_div2_bound(x: int, k: nat, m: int)
    requires
        -m <= x <= m,
    ensures
        -m <= div2(x, k) <= m,
{
    lemma_pow2_pos(k);
    let d = pow2(k) as int;
    assert(-m <= x / d <= m) by (nonlinear_arith)
        requires
            -m <= x <= m,
            d >= 1,
    ;
}

/// x >> k, the division by 2^k rounded down.
fn shr(x: i32, k: u32) -> (r: i32)
    requires
        k < 31,
    ensures
        r == div2(x as int, k as nat),
{
    proof {
        lemma_shr_i32(x, k);
    }
    x >> k
}

/// Simplified inverse transform of the estimate: only the DC (`data[0]`),
/// the first horizontal (`data[1]`) and the first vertical (`data[4]`)
/// coefficient may be non-zero.
fn Transform(data: &mut [i32; 16])
    requires
        -0x100000 <= old(data)@[0] <= 0x100000,
        -0x100000 <= old(data)@[1] <= 0x100000,
        -0x100000 <= old(data)@[4] <= 0x100000,
    ensures
        forall|i: int| 0 <= i < 16 ==> final(data)@[i] as int == #[trigger] conceal_transform(
            old(data)@[0] as int,
            old(data)@[1] as int,
            old(data)@[4] as int,
        )[i],
{
    let d0 = data[0];
    let d1 = data[1];
    let d4 = data[4];
    let ghost t = conceal_transform(d0 as int, d1 as int, d4 as int);
    if d1 == 0 && d4 == 0 {
        let mut i: usize = 0;
        while i < 16
            invariant
                i <= 16,
                t == conceal_transform(d0 as int, d1 as int, d4 as int),
                d1 == 0 && d4 == 0,
                forall|k: int| 0 <= k < i ==> data@[k] as int == #[trigger] t[k],
            decreases 16 - i,
        {
            data[i] = d0;
            i += 1;
        }
        return;
    }
    let h = shr(d1, 1);
    let v = shr(d4, 1);
    proof {
        lemma2_to64();
        assert(-0x80000 <= h <= 0x80000 && -0x80000 <= v <= 0x80000);
    }
    let row0 = [d0 + d1, d0 + h, d0 - h, d0 - d1];
    let mut c: usize = 0;
    while c < 4
        invariant
            c <= 4,
            t == conceal_transform(d0 as int, d1 as int, d4 as int),
            !(d1 == 0 && d4 == 0),
            h == div2(d1 as int, 1),
            v == div2(d4 as int, 1),
            -0x80000 <= h <= 0x80000,
            -0x80000 <= v <= 0x80000,
            -0x100000 <= d0 <= 0x100000,
            -0x100000 <= d1 <= 0x100000,
            -0x100000 <= d4 <= 0x100000,
            row0@[0] == d0 + d1,
            row0@[1] == d0 + h,
            row0@[2] == d0 - h,
            row0@[3] == d0 - d1,
            forall|k: int| 0 <= k < 16 && k % 4 < c ==> data@[k] as int == #[trigger] t[k],
        decreases 4 - c,
    {
        let t0 = row0[c];
        data[c] = t0 + d4;
        data[4 + c] = t0 + v;
        data[8 + c] = t0 - v;
        data[12 + c] = t0 - d4;
        proof {
            assert forall|k: int| 0 <= k < 16 && k % 4 < c + 1 implies data@[k] as int == #[trigger] t[k] by {
                if k % 4 == c as int {
                    assert(k == c || k == 4 + c || k == 8 + c || k == 12 + c);
                }
            }
        }
        c += 1;
    }
}

/// Sum of `n` samples of `p` from `pos` on, `step` apart.
fn sum_samples(p: &Vec<u8>, pos: usize, step: usize, n: usize) -> (r: i32)
    requires
        1 <= n <= 4,
        pos + (n - 1) * step < p.len(),
    ensures
        r == sum_at(p@, pos as int, step as int, n as nat),
        0 <= r <= 255 * n,
{
    let mut r: i32 = 0;
    let mut k: usize = 0;
    while k < n
        invariant
            k <= n <= 4,
            pos + (n - 1) * step < p.len(),
            r == sum_at(p@, pos as int, step as int, k as nat),
            0 <= r <= 255 * k,
        decreases n - k,
    {
        proof {
            assert(pos + k * step <= pos + (n - 1) * step) by (nonlinear_arith)
                requires
                    k <= n - 1,
            ;
        }
        r = r + p[pos + k * step] as i32;
        proof {
            assert(((k + 1) as nat - 1) as nat == k as nat);
        }
        k += 1;
    }
    r
}

/// The four sums of `g` samples from `s0 + k * gs` on, `step` apart.
fn group_sums(p: &Vec<u8>, s0: usize, gs: usize, step: usize, g: usize) -> (r: [i32; 4])
    requires
        1 <= g <= 4,
        s0 + 3 * gs + (g - 1) * step < p.len(),
    ensures
        forall|k: int| 0 <= k < 4 ==> #[trigger] r@[k] == sum_at(p@, s0 + k * gs, step as int, g as nat),
        forall|k: int| 0 <= k < 4 ==> 0 <= #[trigger] r@[k] <= 1020,
{
    let mut r: [i32; 4] = [0; 4];
    let mut k: usize = 0;
    while k < 4
        invariant
            k <= 4,
            1 <= g <= 4,
            s0 + 3 * gs + (g - 1) * step < p.len(),
            forall|i: int| 0 <= i < k ==> #[trigger] r@[i] == sum_at(p@, s0 + i * gs, step as int, g as nat),
            forall|i: int| 0 <= i < k ==> 0 <= #[trigger] r@[i] <= 1020,
        decreases 4 - k,
    {
        proof {
            assert(k * gs <= 3 * gs) by (nonlinear_arith)
                requires
                    k <= 3,
            ;
            assert(255 * g <= 1020);
        }
        r[k] = sum_samples(p, s0 + k * gs, step, g);
        k += 1;
    }
    r
}

/// The values of an `i32` sequence as integers.
pub open spec fn ints(s: Seq<i32>) -> Seq<int> {
    s.map_values(|v: i32| v as int)
}

/// Neighbour sums in [0, 1020].
pub open spec fn sums_ok(s: Seq<i32>) -> bool {
    s.len() == 4 && forall|k: int| 0 <= k < 4 ==> 0 <= #[trigger] s[k] <= 1020
}

/// The estimate of the DC, horizontal and vertical coefficients.
fn phase_exec(
    A: bool,
    B: bool,
    L: bool,
    R: bool,
    a: &[i32; 4],
    b: &[i32; 4],
    l: &[i32; 4],
    r: &[i32; 4],
    luma: bool,
) -> (res: (i32, i32, i32))
    requires
        sums_ok(a@),
        sums_ok(b@),
        sums_ok(l@),
        sums_ok(r@),
    ensures
        ({
            let ph = conceal_phase(A, B, L, R, ints(a@), ints(b@), ints(l@), ints(r@), luma);
            &&& res.0 == ph.0
            &&& res.1 == ph.1
            &&& res.2 == ph.2
        }),
        -0x100000 <= res.0 <= 0x100000,
        -0x100000 <= res.1 <= 0x100000,
        -0x100000 <= res.2 <= 0x100000,
{
    let ghost ia = ints(a@);
    let ghost ib = ints(b@);
    let ghost il = ints(l@);
    let ghost ir = ints(r@);
    assert(ia[0] == a@[0] && ia[1] == a@[1] && ia[2] == a@[2] && ia[3] == a@[3]);
    assert(ib[0] == b@[0] && ib[1] == b@[1] && ib[2] == b@[2] && ib[3] == b@[3]);
    assert(il[0] == l@[0] && il[1] == l@[1] && il[2] == l@[2] && il[3] == l@[3]);
    assert(ir[0] == r@[0] && ir[1] == r@[1] && ir[2] == r@[2] && ir[3] == r@[3]);
    assert(0 <= a@[0] <= 1020 && 0 <= a@[1] <= 1020 && 0 <= a@[2] <= 1020 && 0 <= a@[3] <= 1020);
    assert(0 <= b@[0] <= 1020 && 0 <= b@[1] <= 1020 && 0 <= b@[2] <= 1020 && 0 <= b@[3] <= 1020);
    assert(0 <= l@[0] <= 1020 && 0 <= l@[1] <= 1020 && 0 <= l@[2] <= 1020 && 0 <= l@[3] <= 1020);
    assert(0 <= r@[0] <= 1020 && 0 <= r@[1] <= 1020 && 0 <= r@[2] <= 1020 && 0 <= r@[3] <= 1020);
    let sa = a[0] + a[1] + a[2] + a[3];
    let sbl = b[0] + b[1] + b[2] + b[3];
    let sl = l[0] + l[1] + l[2] + l[3];
    let sr = r[0] + r[1] + r[2] + r[3];
    let mut fp0: i32 = 0;
    let mut fp1: i32 = 0;
    let mut fp4: i32 = 0;
    let mut hor: u32 = 0;
    let mut ver: u32 = 0;
    if A {
        fp0 = fp0 + sa;
        fp1 = fp1 + (a[0] + a[1] - a[2] - a[3]);
        hor = hor + 1;
    }
    if B {
        fp0 = fp0 + sbl;
        fp1 = fp1 + (b[0] + b[1] - b[2] - b[3]);
        hor = hor + 1;
    }
    if L {
        fp0 = fp0 + sl;
        fp4 = fp4 + (l[0] + l[1] - l[2] - l[3]);
        ver = ver + 1;
    }
    if R {
        fp0 = fp0 + sr;
        fp4 = fp4 + (r[0] + r[1] - r[2] - r[3]);
        ver = ver + 1;
    }
    let sb: u32 = if luma {
        3
    } else {
        2
    };
    if hor == 0 && L && R {
        proof {
            lemma_div2_bound((sl - sr) as int, (sb + 2) as nat, 0x100000);
        }
        fp1 = shr(sl - sr, sb + 2);
    } else if hor != 0 {
        proof {
            lemma_div2_bound(fp1 as int, (sb + hor) as nat, 0x100000);
        }
        fp1 = shr(fp1, sb + hor);
    }
    if ver == 0 && A && B {
        proof {
            lemma_div2_bound((sa - sbl) as int, (sb + 2) as nat, 0x100000);
        }
        fp4 = shr(sa - sbl, sb + 2);
    } else if ver != 0 {
        proof {
            lemma_div2_bound(fp4 as int, (sb + ver) as nat, 0x100000);
        }
        fp4 = shr(fp4, sb + ver);
    }
    let j = hor + ver;
    let dc = if j == 1 {
        shr(fp0, sb + 1)
    } else if j == 2 {
        shr(fp0, sb + 2)
    } else if j == 3 {
        shr(21 * fp0, sb + 7)
    } else {
        shr(fp0, sb + 3)
    };
    proof {
        lemma_pow2_pos((sb + 1) as nat);
        lemma_pow2_pos((sb + 2) as nat);
        lemma_pow2_pos((sb + 3) as nat);
        lemma_pow2_pos((sb + 7) as nat);
        lemma_pow2_pos((sb + hor) as nat);
        lemma_pow2_pos((sb + ver) as nat);
        assert(-0x100000 <= dc <= 0x100000) by {
            if j == 3 {
                assert(div2(21 * fp0, (sb + 7) as nat) <= 21 * fp0) by (nonlinear_arith)
                    requires
                        0 <= fp0,
                        pow2((sb + 7) as nat) > 0,
                        div2(21 * fp0, (sb + 7) as nat) == (21 * fp0) / (pow2((sb + 7) as nat) as int),
                ;
            }
        }
    }
    (dc, fp1, fp4)
}

/// Clip to [0, 255].
fn clip_u8(v: i32) -> (r: u8)
    ensures
        r as int == clip1(v as int),
{
    if v < 0 {
        0
    } else if v > 255 {
        255
    } else {
        v as u8
    }
}

/// The concealed samples of an `n` x `n` block (`g` x `g` squares) from
/// the transformed estimate `t`, into `data` from `off` on.
fn fill_concealed(data: &mut [u8; 384], off: usize, n: usize, g: usize, t: &[i32; 16])
    requires
        n == 16 && g == 4 || n == 8 && g == 2,
        off + n * n <= 384,
    ensures
        forall|i: int| 0 <= i < n * n ==> #[trigger] final(data)@[off + i] as int == clip1(
            t@[4 * ((i / n as int) / g as int) + (i % n as int) / g as int] as int,
        ),
        forall|k: int| 0 <= k < 384 && !(off <= k < off + n * n) ==> final(data)@[k] == old(data)@[k],
{
    let nn = n * n;
    let mut i: usize = 0;
    while i < nn
        invariant
            n == 16 && g == 4 || n == 8 && g == 2,
            nn == n * n,
            off + nn <= 384,
            i <= nn,
            forall|k: int| 0 <= k < i ==> #[trigger] data@[off + k] as int == clip1(
                t@[4 * ((k / n as int) / g as int) + (k % n as int) / g as int] as int,
            ),
            forall|k: int| 0 <= k < 384 && !(off <= k < off + i) ==> data@[k] == old(data)@[k],
        decreases nn - i,
    {
        let idx = 4 * ((i / n) / g) + (i % n) / g;
        assert(idx < 16);
        data[off + i] = clip_u8(t[idx]);
        i += 1;
    }
}

/// The sums of the border samples of the decoded neighbours (zero for the
/// others).
fn border_sums(p: &Vec<u8>, o: usize, st: usize, n: usize, g: usize, A: bool, B: bool, L: bool, R: bool) -> (res: (
    [i32; 4],
    [i32; 4],
    [i32; 4],
    [i32; 4],
))
    requires
        n == 16 && g == 4 || n == 8 && g == 2,
        1 <= st,
        A ==> st <= o && o - st + n <= p.len(),
        B ==> o + n * st + n <= p.len(),
        L ==> 1 <= o && o - 1 + (n - 1) * st < p.len(),
        R ==> o + n + (n - 1) * st < p.len(),
    ensures
        sums_ok(res.0@),
        sums_ok(res.1@),
        sums_ok(res.2@),
        sums_ok(res.3@),
        A ==> ints(res.0@) == above_sums(p@, o as int, st as int, g as nat),
        B ==> ints(res.1@) == below_sums(p@, o as int, st as int, n as int, g as nat),
        L ==> ints(res.2@) == left_sums(p@, o as int, st as int, g as nat),
        R ==> ints(res.3@) == right_sums(p@, o as int, st as int, n as int, g as nat),
{
    let a: [i32; 4] = if A {
        group_sums(p, o - st, g, 1, g)
    } else {
        [0; 4]
    };
    let b: [i32; 4] = if B {
        group_sums(p, o + n * st, g, 1, g)
    } else {
        [0; 4]
    };
    let l: [i32; 4] = if L {
        proof {
            assert(o - 1 + 3 * (g * st) + (g - 1) * st == o - 1 + (n - 1) * st) by (nonlinear_arith)
                requires
                    n == 4 * g,
            ;
        }
        group_sums(p, o - 1, g * st, st, g)
    } else {
        [0; 4]
    };
    let r: [i32; 4] = if R {
        proof {
            assert(o + n + 3 * (g * st) + (g - 1) * st == o + n + (n - 1) * st) by (nonlinear_arith)
                requires
                    n == 4 * g,
            ;
        }
        group_sums(p, o + n, g * st, st, g)
    } else {
        [0; 4]
    };
    proof {
        if A {
            assert(ints(a@) =~= above_sums(p@, o as int, st as int, g as nat));
        }
        if B {
            assert(ints(b@) =~= below_sums(p@, o as int, st as int, n as int, g as nat));
        }
        if L {
            assert(ints(l@) =~= left_sums(p@, o as int, st as int, g as nat));
        }
        if R {
            assert(ints(r@) =~= right_sums(p@, o as int, st as int, n as int, g as nat));
        }
    }
    (a, b, l, r)
}

/// Concealed values of one component: the sums of the decoded neighbours'
/// border samples, the estimate and its transform.
fn conceal_component(
    p: &Vec<u8>,
    o: usize,
    st: usize,
    n: usize,
    g: usize,
    A: bool,
    B: bool,
    L: bool,
    R: bool,
    luma: bool,
) -> (t: [i32; 16])
    requires
        n == 16 && g == 4 || n == 8 && g == 2,
        1 <= st,
        A ==> st <= o && o - st + n <= p.len(),
        B ==> o + n * st + n <= p.len(),
        L ==> 1 <= o && o - 1 + (n - 1) * st < p.len(),
        R ==> o + n + (n - 1) * st < p.len(),
    ensures
        ({
            let ph = conceal_phase(
                A,
                B,
                L,
                R,
                above_sums(p@, o as int, st as int, g as nat),
                below_sums(p@, o as int, st as int, n as int, g as nat),
                left_sums(p@, o as int, st as int, g as nat),
                right_sums(p@, o as int, st as int, n as int, g as nat),
                luma,
            );
            forall|i: int| 0 <= i < 16 ==> #[trigger] t@[i] as int == conceal_transform(ph.0, ph.1, ph.2)[i]
        }),
{
    let (a, b, l, r) = border_sums(p, o, st, n, g, A, B, L, R);
    let ph3 = phase_exec(A, B, L, R, &a, &b, &l, &r, luma);
    let dc = ph3.0;
    let h1 = ph3.1;
    let v1 = ph3.2;
    let ghost p2 = conceal_phase(
        A,
        B,
        L,
        R,
        above_sums(p@, o as int, st as int, g as nat),
        below_sums(p@, o as int, st as int, n as int, g as nat),
        left_sums(p@, o as int, st as int, g as nat),
        right_sums(p@, o as int, st as int, n as int, g as nat),
        luma,
    );
    proof {
        let pa = above_sums(p@, o as int, st as int, g as nat);
        let pb = below_sums(p@, o as int, st as int, n as int, g as nat);
        let pl = left_sums(p@, o as int, st as int, g as nat);
        let pr = right_sums(p@, o as int, st as int, n as int, g as nat);
        let p1 = conceal_phase(A, B, L, R, ints(a@), ints(b@), ints(l@), ints(r@), luma);
        assert(p1 == p2);
        assert(dc == p2.0 && h1 == p2.1 && v1 == p2.2);
    }
    let mut t: [i32; 16] = [0; 16];
    t[0] = dc;
    t[1] = h1;
    t[4] = v1;
    assert(t@[0] == dc && t@[1] == h1 && t@[4] == v1);
    Transform(&mut t);
    assert(forall|i: int| 0 <= i < 16 ==> #[trigger] t@[i] as int == conceal_transform(p2.0, p2.1, p2.2)[i]);
    t
}

/// Positions around the `n` x `n` block of macroblock (row, col) of a
/// plane of `w` x `h` macroblocks at `pb`.
proof fn lemma_border_positions(pb: int, n: int, w: int, h: int, row: int, col: int)
    requires
        n == 16 || n == 8,
        1 <= w,
        1 <= h,
        0 <= row < h,
        0 <= col < w,
        0 <= pb,
    ensures
        ({
            let st = n * w;
            let o = pb + row * (n * st) + col * n;
            let e = pb + n * st * h;
            &&& pb <= o
            &&& o + (n - 1) * st + n <= e
            &&& row >= 1 ==> st <= o && o - st + n <= e
            &&& row + 1 < h ==> o + n * st + n <= e
            &&& col >= 1 ==> 1 <= o && o - 1 + (n - 1) * st < e
            &&& col + 1 < w ==> o + n + (n - 1) * st < e
        }),
{
    let st = n * w;
    let o = pb + row * (n * st) + col * n;
    let e = pb + n * st * h;
    assert(0 <= row * (n * st) && 0 <= col * n) by (nonlinear_arith)
        requires
            0 <= row,
            0 <= col,
            n > 0,
            st > 0,
    ;
    assert(col * n + n <= st) by (nonlinear_arith)
        requires
            col + 1 <= w,
            st == n * w,
            n > 0,
    ;
    assert(row * (n * st) + n * st <= n * st * h) by (nonlinear_arith)
        requires
            row + 1 <= h,
            n * st > 0,
    ;
    assert((n - 1) * st + st == n * st) by (nonlinear_arith);
    assert(st <= n * st) by (nonlinear_arith)
        requires
            n >= 1,
            st >= 0,
    ;
    if row >= 1 {
        assert(n * st <= row * (n * st)) by (nonlinear_arith)
            requires
                row >= 1,
                n * st >= 0,
        ;
    }
    if row + 1 < h {
        assert(row * (n * st) + 2 * (n * st) <= n * st * h) by (nonlinear_arith)
            requires
                row + 2 <= h,
                n * st > 0,
        ;
    }
    if col + 1 < w {
        assert(col * n + 2 * n <= st) by (nonlinear_arith)
            requires
                col + 2 <= w,
                st == n * w,
                n > 0,
        ;
    }
}

/// The fields of a concealed macroblock: intra 4x4 type with quantizer 40
/// and the deblocking filter enabled, so that its edges get smoothed.
pub open spec fn concealed_mb(m: mbStorage_t) -> mbStorage_t {
    mbStorage_t {
        qpY: 40,
        disableDeblockingFilterIdc: 0,
        mbType: I_4x4,
        filterOffsetA: 0,
        filterOffsetB: 0,
        chromaQpIndexOffset: 0,
        ..m
    }
}

/// The intra estimate of the current macroblock of `image` (at its
/// `luma`, `cb`, `cr`), from the decoded neighbours A (above), B (below),
/// L (left) and R (right).
fn conceal_intra(image: &image_t, row: u32, col: u32, A: bool, B: bool, L: bool, R: bool) -> (data: [u8; 384])
    requires
        image.wf(),
        row < image.height,
        col < image.width,
        image.points_at(row * image.width + col),
        A ==> row >= 1,
        B ==> row + 1 < image.height,
        L ==> col >= 1,
        R ==> col + 1 < image.width,
    ensures
        forall|i: int| 0 <= i < 256 ==> #[trigger] data@[i] as int == concealed_block(
            image.data@,
            image.luma as int,
            16 * image.width,
            16,
            4,
            A,
            B,
            L,
            R,
            true,
        )[i],
        forall|i: int| 0 <= i < 64 ==> #[trigger] data@[256 + i] as int == concealed_block(
            image.data@,
            image.cb as int,
            8 * image.width,
            8,
            2,
            A,
            B,
            L,
            R,
            false,
        )[i],
        forall|i: int| 0 <= i < 64 ==> #[trigger] data@[320 + i] as int == concealed_block(
            image.data@,
            image.cr as int,
            8 * image.width,
            8,
            2,
            A,
            B,
            L,
            R,
            false,
        )[i],
{
    let ghost w = image.width as int;
    let ghost h = image.height as int;
    let ghost mbNum = row * w + col;
    proof {
        assert(mbNum / w == row && mbNum % w == col) by {
            vstd::arithmetic::div_mod::lemma_fundamental_div_mod_converse(mbNum, w, row as int, col as int);
        }
        lemma_border_positions(0, 16, w, h, row as int, col as int);
        lemma_border_positions(256 * w * h, 8, w, h, row as int, col as int);
        lemma_border_positions(256 * w * h + 64 * w * h, 8, w, h, row as int, col as int);
        assert(16 * (16 * w) == 256 * w && 8 * (8 * w) == 64 * w) by (nonlinear_arith);
        assert(16 * (16 * w) * h == 256 * w * h && 8 * (8 * w) * h == 64 * w * h) by (nonlinear_arith);
        assert(384 * w * h == 256 * w * h + 64 * w * h + 64 * w * h) by (nonlinear_arith);
        assert(16 * w <= 16 * 4096 && 8 * w <= 8 * 4096);
    }
    let width = image.width as usize;
    let mut data: [u8; 384] = [0; 384];
    let tl = conceal_component(&image.data, image.luma, 16 * width, 16, 4, A, B, L, R, true);
    fill_concealed(&mut data, 0, 16, 4, &tl);
    proof {
        let ph = conceal_phase(
            A,
            B,
            L,
            R,
            above_sums(image.data@, image.luma as int, 16 * w, 4),
            below_sums(image.data@, image.luma as int, 16 * w, 16, 4),
            left_sums(image.data@, image.luma as int, 16 * w, 4),
            right_sums(image.data@, image.luma as int, 16 * w, 16, 4),
            true,
        );
        assert forall|i: int| 0 <= i < 256 implies #[trigger] data@[i] as int == concealed_block(
            image.data@,
            image.luma as int,
            16 * image.width,
            16,
            4,
            A,
            B,
            L,
            R,
            true,
        )[i] by {
            let idx = 4 * ((i / 16) / 4) + (i % 16) / 4;
            assert(0 <= idx < 16);
            assert(data@[0 + i] as int == clip1(tl@[idx] as int));
            assert(tl@[idx] as int == conceal_transform(ph.0, ph.1, ph.2)[idx]);
        }
    }
    let t = conceal_component(&image.data, image.cb, 8 * width, 8, 2, A, B, L, R, false);
    let ghost d1 = data@;
    fill_concealed(&mut data, 256, 8, 2, &t);
    let t = conceal_component(&image.data, image.cr, 8 * width, 8, 2, A, B, L, R, false);
    let ghost d2 = data@;
    fill_concealed(&mut data, 320, 8, 2, &t);
    proof {
        assert forall|i: int| 0 <= i < 256 implies #[trigger] data@[i] as int == concealed_block(
            image.data@,
            image.luma as int,
            16 * image.width,
            16,
            4,
            A,
            B,
            L,
            R,
            true,
        )[i] by {
            assert(d1[i] == d2[i] && d2[i] == data@[i]);
        }
        assert forall|i: int| 0 <= i < 64 implies #[trigger] data@[256 + i] as int == concealed_block(
            image.data@,
            image.cb as int,
            8 * image.width,
            8,
            2,
            A,
            B,
            L,
            R,
            false,
        )[i] by {
            assert(d2[256 + i] == data@[256 + i]);
        }
    }
    data
}


/// The macroblock whose blocks are at `luma`, `cb` and `cr` of a picture
/// `w` macroblocks wide: 16 x 16 luma, then 8 x 8 Cb and 8 x 8 Cr samples.
pub open spec fn mb_of(d: Seq<u8>, w: int, luma: int, cb: int, cr: int) -> Seq<int> {
    Seq::new(
        384,
        |i: int|
            if i < 256 {
                d[luma + (i / 16) * (16 * w) + i % 16] as int
            } else if i < 320 {
                d[cb + ((i - 256) / 8) * (8 * w) + (i - 256) % 8] as int
            } else {
                d[cr + ((i - 320) / 8) * (8 * w) + (i - 320) % 8] as int
            },
    )
}

/// The intra estimate of the macroblock at `luma`, `cb`, `cr` from the
/// neighbours above, below, left and right that `nb` marks as decoded.
pub open spec fn concealed_samples(d: Seq<u8>, w: int, luma: int, cb: int, cr: int, nb: (bool, bool, bool, bool)) -> Seq<int> {
    concealed_block(d, luma, 16 * w, 16, 4, nb.0, nb.1, nb.2, nb.3, true) + concealed_block(
        d,
        cb,
        8 * w,
        8,
        2,
        nb.0,
        nb.1,
        nb.2,
        nb.3,
        false,
    ) + concealed_block(d, cr, 8 * w, 8, 2, nb.0, nb.1, nb.2, nb.3, false)
}

/// Conceal macroblock (row, col) of `currImage`, whose decoding state is
/// `mbs[row * width + col]`. In a P slice with a reference picture
/// `refData` the macroblock becomes a copy of the co-located one of the
/// reference; otherwise the estimate from its decoded neighbours. The
/// macroblock's state becomes that of a concealed one.
#[verifier::rlimit(50)]
pub fn ConcealMb(
    mbs: &mut Vec<mbStorage_t>,
    currImage: &mut image_t,
    row: u32,
    col: u32,
    sliceType: u32,
    refData: Option<&[u8]>,
) -> (r: u32)
    requires
        old(currImage).wf(),
        old(mbs).len() == old(currImage).width * old(currImage).height,
        row < old(currImage).height,
        col < old(currImage).width,
        refData matches Some(rd) ==> rd.len() == old(currImage).data.len(),
    ensures
        r == HANTRO_OK,
        ({
            let w = old(currImage).width as int;
            let n = row * w + col;
            final(mbs)@ == old(mbs)@.update(n, concealed_mb(old(mbs)@[n]))
        }),
        final(currImage).width == old(currImage).width,
        final(currImage).height == old(currImage).height,
        final(currImage).data.len() == old(currImage).data.len(),
        final(currImage).points_at(row * old(currImage).width + col),
        ({
            let w = old(currImage).width as int;
            let img = *final(currImage);
            let mb = mb_of(img.data@, w, img.luma as int, img.cb as int, img.cr as int);
            match refData {
                Some(rd) if !(sliceType == 2 || sliceType == 7) => mb == mb_of(
                    rd@,
                    w,
                    img.luma as int,
                    img.cb as int,
                    img.cr as int,
                ),
                _ => mb == concealed_samples(
                    old(currImage).data@,
                    w,
                    img.luma as int,
                    img.cb as int,
                    img.cr as int,
                    decoded_neighbours(old(mbs)@, w, old(currImage).height as int, row as int, col as int),
                ),
            }
        }),
        forall|k: int|
            0 <= k < old(currImage).data.len() && !in_block(k, 16 * old(currImage).width, final(currImage).luma as int, 16, 16)
                && !in_block(k, 8 * old(currImage).width, final(currImage).cb as int, 8, 8) && !in_block(
                k,
                8 * old(currImage).width,
                final(currImage).cr as int,
                8,
                8,
            ) ==> final(currImage).data@[k] == old(currImage).data@[k],
{
    let width = currImage.width;
    let height = currImage.height;
    let ghost w = width as int;
    let ghost h = height as int;
    proof {
        assert(row * w + col < w * h) by (nonlinear_arith)
            requires
                row < h,
                col < w,
        ;
        assert(row >= 1 ==> row * w + col >= w) by (nonlinear_arith)
            requires
                col >= 0,
                w >= 1,
        ;
        assert(row + 1 < h ==> row * w + col + w < w * h) by (nonlinear_arith)
            requires
                col < w,
        ;
        assert(col + 1 < w ==> row * w + col + 1 < w * h) by (nonlinear_arith)
            requires
                row < h,
        ;
        assert(row * w + col <= 4096 * 4096) by (nonlinear_arith)
            requires
                row < h,
                col < w,
                w <= 4096,
                h <= 4096,
        ;
    }
    let mbNum = row * width + col;
    let ghost d0 = currImage.data@;
    let ghost nb = decoded_neighbours(mbs@, w, h, row as int, col as int);
    let A = row != 0 && mbs[(mbNum - width) as usize].decoded != 0;
    let B = row != height - 1 && mbs[(mbNum + width) as usize].decoded != 0;
    let L = col != 0 && mbs[(mbNum - 1) as usize].decoded != 0;
    let R = col != width - 1 && mbs[(mbNum + 1) as usize].decoded != 0;
    assert((A, B, L, R) == nb);
    let mut m = mbs[mbNum as usize];
    m.qpY = 40;
    m.disableDeblockingFilterIdc = 0;
    m.mbType = I_4x4;
    m.filterOffsetA = 0;
    m.filterOffsetB = 0;
    m.chromaQpIndexOffset = 0;
    mbs.set(mbNum as usize, m);
    h264bsdSetCurrImageMbPointers(currImage, mbNum);
    let ghost img1 = *currImage;
    proof {
        assert((mbNum as int) / w == row as int && (mbNum as int) % w == col as int) by {
            vstd::arithmetic::div_mod::lemma_fundamental_div_mod_converse(mbNum as int, w, row as int, col as int);
        }
    }
    let reference = if IS_I_SLICE(sliceType) {
        None
    } else {
        refData
    };
    let data = match reference {
        Some(rd) => {
            let mv = mv_t { hor: 0, ver: 0 };
            let mut d: [u8; 384] = [0; 384];
            proof {
                assert(row * 16 <= 0xFFF0 && col * 16 <= 0xFFF0);
            }
            predict_samples_in(&mut d, &mv, rd, width, height, col * 16, row * 16, 0, 0, 16, 16);
            proof {
                lemma_colocated(d@, rd@, w, h, row as int, col as int, img1.luma as int, img1.cb as int, img1.cr as int);
            }
            d
        },
        None => {
            let d = conceal_intra(currImage, row, col, A, B, L, R);
            proof {
                lemma_intra_mb(d@, d0, w, img1.luma as int, img1.cb as int, img1.cr as int, nb);
            }
            d
        },
    };
    h264bsdWriteMacroblock(currImage, &data);
    proof {
        lemma_mb_copy(currImage.data@, data@, w, img1.luma as int, img1.cb as int, img1.cr as int);
        let d1 = currImage.data@;
        let luma = img1.luma as int;
        let cb = img1.cb as int;
        let cr = img1.cr as int;
        if let Some(rd) = reference {
            assert(mb_of(d1, w, luma, cb, cr) =~= mb_of(rd@, w, luma, cb, cr));
        } else {
            assert(mb_of(d1, w, luma, cb, cr) =~= concealed_samples(d0, w, luma, cb, cr, nb));
        }
    }
    HANTRO_OK
}

/// The prediction of a whole macroblock from the reference picture with a
/// zero motion vector is the co-located macroblock.
proof fn lemma_colocated(d: Seq<u8>, rd: Seq<u8>, w: int, h: int, row: int, col: int, luma: int, cb: int, cr: int)
    requires
        1 <= w <= 4096,
        1 <= h <= 4096,
        0 <= row < h,
        0 <= col < w,
        rd.len() == 384 * w * h,
        d.len() == 384,
        luma == row * (256 * w) + col * 16,
        cb == 256 * w * h + row * (64 * w) + col * 8,
        cr == cb + 64 * w * h,
        forall|px: int, py: int|
            0 <= px < 16 && 0 <= py < 16 ==> #[trigger] mb_at(d, 0, px, py) == luma_pred(
                plane_fn(rd, 0, 16 * w, 16 * h),
                col * 16 + px,
                row * 16 + py,
                0,
                0,
            ),
        forall|comp: int, px: int, py: int|
            0 <= comp < 2 && 0 <= px < 8 && 0 <= py < 8 ==> #[trigger] at8(d, 256 + 64 * comp, px, py) == chroma_pred(
                plane_fn(rd, 256 * w * h + comp * (64 * w * h), 8 * w, 8 * h),
                col * 8 + px,
                row * 8 + py,
                0,
                0,
            ),
    ensures
        forall|i: int| 0 <= i < 384 ==> #[trigger] d[i] as int == mb_of(rd, w, luma, cb, cr)[i],
{
    assert forall|i: int| 0 <= i < 384 implies #[trigger] d[i] as int == mb_of(rd, w, luma, cb, cr)[i] by {
        if i < 256 {
            let px = i % 16;
            let py = i / 16;
            let f = plane_fn(rd, 0, 16 * w, 16 * h);
            assert(mb_at(d, 0, px, py) == d[i] as int);
            assert((row * 16 + py) * (16 * w) + col * 16 + px == luma + py * (16 * w) + px) by (nonlinear_arith)
                requires
                    luma == row * (256 * w) + col * 16,
            ;
            assert(col * 16 + px <= 16 * w - 1 && row * 16 + py <= 16 * h - 1);
            assert(luma_pred(f, col * 16 + px, row * 16 + py, 0, 0) == f(col * 16 + px, row * 16 + py));
            assert(f(col * 16 + px, row * 16 + py) == rd[(row * 16 + py) * (16 * w) + col * 16 + px] as int);
            assert(mb_of(rd, w, luma, cb, cr)[i] == rd[luma + py * (16 * w) + px] as int);
        } else {
            let comp = if i < 320 { 0int } else { 1int };
            let j = i - 256 - 64 * comp;
            let px = j % 8;
            let py = j / 8;
            let base = 256 * w * h + comp * (64 * w * h);
            let f = plane_fn(rd, base, 8 * w, 8 * h);
            let x = col * 8 + px;
            let y = row * 8 + py;
            assert(at8(d, 256 + 64 * comp, px, py) == d[i] as int);
            assert(x <= 8 * w - 1 && y <= 8 * h - 1);
            let v = f(x, y);
            assert(v == rd[base + y * (8 * w) + x] as int);
            let a = f(x, y + 1);
            let b = f(x + 1, y);
            let c = f(x + 1, y + 1);
            assert(8 * (8 * v + 0 * a) + 0 * (8 * b + 0 * c) + 32 == 64 * v + 32) by (nonlinear_arith);
            assert(chroma_pred(f, x, y, 0, 0) == (8 * (8 * v + 0 * a) + 0 * (8 * b + 0 * c) + 32) / 64);
            assert((64 * v + 32) / 64 == v) by {
                vstd::arithmetic::div_mod::lemma_fundamental_div_mod_converse(64 * v + 32, 64, v, 32);
            }
            assert(base + y * (8 * w) + x == cb + comp * (64 * w * h) + py * (8 * w) + px) by (nonlinear_arith)
                requires
                    cb == 256 * w * h + row * (64 * w) + col * 8,
                    base == 256 * w * h + comp * (64 * w * h),
                    x == col * 8 + px,
                    y == row * 8 + py,
            ;
            assert(d[i] as int == rd[cb + comp * (64 * w * h) + py * (8 * w) + px] as int);
            assert(comp * (64 * w * h) == (if comp == 0 { 0 } else { 64 * w * h })) by (nonlinear_arith)
                requires
                    comp == 0 || comp == 1,
            ;
            if comp == 0 {
                assert(mb_of(rd, w, luma, cb, cr)[i] == rd[cb + py * (8 * w) + px] as int);
            } else {
                assert(mb_of(rd, w, luma, cb, cr)[i] == rd[cr + py * (8 * w) + px] as int);
            }
        }
    }
}

/// The three blocks of the intra estimate, one after the other.
proof fn lemma_intra_mb(data: Seq<u8>, d: Seq<u8>, w: int, luma: int, cb: int, cr: int, nb: (bool, bool, bool, bool))
    requires
        data.len() == 384,
        forall|i: int| 0 <= i < 256 ==> #[trigger] data[i] as int == concealed_block(d, luma, 16 * w, 16, 4, nb.0, nb.1, nb.2, nb.3, true)[i],
        forall|i: int| 0 <= i < 64 ==> #[trigger] data[256 + i] as int == concealed_block(d, cb, 8 * w, 8, 2, nb.0, nb.1, nb.2, nb.3, false)[i],
        forall|i: int| 0 <= i < 64 ==> #[trigger] data[320 + i] as int == concealed_block(d, cr, 8 * w, 8, 2, nb.0, nb.1, nb.2, nb.3, false)[i],
    ensures
        forall|i: int| 0 <= i < 384 ==> #[trigger] data[i] as int == concealed_samples(d, w, luma, cb, cr, nb)[i],
{
    let c2 = concealed_block(d, cb, 8 * w, 8, 2, nb.0, nb.1, nb.2, nb.3, false);
    let c3 = concealed_block(d, cr, 8 * w, 8, 2, nb.0, nb.1, nb.2, nb.3, false);
    assert forall|i: int| 0 <= i < 384 implies #[trigger] data[i] as int == concealed_samples(d, w, luma, cb, cr, nb)[i] by {
        if 256 <= i < 320 {
            assert(data[256 + (i - 256)] as int == c2[i - 256]);
        } else if 320 <= i {
            assert(data[320 + (i - 320)] as int == c3[i - 320]);
        }
    }
}

/// A macroblock written into the picture reads back as the written data.
proof fn lemma_mb_copy(d: Seq<u8>, data: Seq<u8>, w: int, luma: int, cb: int, cr: int)
    requires
        data.len() == 384,
        forall|x: int, y: int| 0 <= x < 16 && 0 <= y < 16 ==> #[trigger] d[luma + y * (16 * w) + x] == data[16 * y + x],
        forall|x: int, y: int| 0 <= x < 8 && 0 <= y < 8 ==> #[trigger] d[cb + y * (8 * w) + x] == data[256 + 8 * y + x],
        forall|x: int, y: int| 0 <= x < 8 && 0 <= y < 8 ==> #[trigger] d[cr + y * (8 * w) + x] == data[320 + 8 * y + x],
    ensures
        forall|i: int| 0 <= i < 384 ==> #[trigger] mb_of(d, w, luma, cb, cr)[i] == data[i] as int,
{
    assert forall|i: int| 0 <= i < 384 implies #[trigger] mb_of(d, w, luma, cb, cr)[i] == data[i] as int by {
        if i < 256 {
            assert(d[luma + (i / 16) * (16 * w) + i % 16] == data[16 * (i / 16) + i % 16]);
        } else if i < 320 {
            assert(d[cb + ((i - 256) / 8) * (8 * w) + (i - 256) % 8] == data[256 + 8 * ((i - 256) / 8) + (i - 256) % 8]);
        } else {
            assert(d[cr + ((i - 320) / 8) * (8 * w) + (i - 320) % 8] == data[320 + 8 * ((i - 320) / 8) + (i - 320) % 8]);
        }
    }
}

} // verus!

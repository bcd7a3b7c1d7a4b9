//! Inter prediction of macroblock partitions: reference blocks that reach
//! outside the picture (border samples repeated), the six-tap luma
//! interpolation of the half and quarter sample positions and the bilinear
//! eighth sample chroma interpolation.
//!
//! A sample plane is a part of a byte slice: `width` x `height` samples in
//! raster order from `base` on. Samples outside the plane are those of the
//! nearest border sample (`sample`).
use vstd::prelude::*;
use crate::image::image_t;
use crate::macroblock::mv_t;

verus! {

/// `v` limited to [lo, hi].
pub open spec fn clampi(v: int, lo: int, hi: int) -> int {
    if v < lo {
        lo
    } else if v > hi {
        hi
    } else {
        v
    }
}

/// The plane of `width` x `height` samples at `base` lies inside `p`.
pub open spec fn plane_ok(p: Seq<u8>, base: int, width: int, height: int) -> bool {
    &&& 1 <= width
    &&& 1 <= height
    &&& 0 <= base
    &&& base + width * height <= p.len()
}

/// Sample (x, y) of the plane, the nearest border sample when (x, y) lies
/// outside it.
pub open spec fn sample(p: Seq<u8>, base: int, width: int, height: int, x: int, y: int) -> int {
    p[base + clampi(y, 0, height - 1) * width + clampi(x, 0, width - 1)] as int
}

/// The plane as a function of the coordinates.
pub open spec fn plane_fn(p: Seq<u8>, base: int, width: int, height: int) -> spec_fn(int, int) -> int {
    |x: int, y: int| sample(p, base, width, height, x, y)
}

/// The samples of `buf` from `pos` on with row length `stride`, as a
/// function of the coordinates.
pub open spec fn buf_fn(buf: Seq<u8>, stride: int, pos: int) -> spec_fn(int, int) -> int {
    |i: int, j: int| buf[pos + j * stride + i] as int
}

/// `g` at (i, j) is `f` at (x0 + i, y0 + j) on the `bw` x `bh` block.
pub open spec fn agrees(
    g: spec_fn(int, int) -> int,
    f: spec_fn(int, int) -> int,
    x0: int,
    y0: int,
    bw: int,
    bh: int,
) -> bool {
    forall|i: int, j: int| 0 <= i < bw && 0 <= j < bh ==> #[trigger] g(i, j) == f(x0 + i, y0 + j)
}

/// A `bw` x `bh` block with row length `stride` from `pos` on fits in a
/// slice of length `len`.
pub open spec fn block_fits(len: int, stride: int, pos: int, bw: int, bh: int) -> bool {
    &&& 1 <= bw <= stride
    &&& 1 <= bh
    &&& 0 <= pos
    &&& pos + (bh - 1) * stride + bw <= len
}

/// Index `k` of a slice lies in the `bw` x `bh` block with row length
/// `stride` from `pos` on.
pub open spec fn in_block(k: int, stride: int, pos: int, bw: int, bh: int) -> bool {
    pos <= k && (k - pos) % stride < bw && (k - pos) / stride < bh
}

/// Column `i`, row `j` of a block lies in it.
pub proof fn lemma_in_block(stride: int, pos: int, bw: int, bh: int, i: int, j: int)
    requires
        1 <= bw <= stride,
        0 <= i < bw,
        0 <= j < bh,
    ensures
        in_block(pos + j * stride + i, stride, pos, bw, bh),
{
    vstd::arithmetic::div_mod::lemma_fundamental_div_mod_converse(j * stride + i, stride, j, i);
    assert(j * stride == stride * j) by (nonlinear_arith);
    assert(0 <= j * stride) by (nonlinear_arith)
        requires
            0 <= j,
            1 <= stride,
    ;
}

/// Position of column `i`, row `j`.
pub proof fn lemma_block_index(stride: int, pos: int, bw: int, bh: int, i: int, j: int)
    requires
        block_fits(pos + (bh - 1) * stride + bw, stride, pos, bw, bh),
        0 <= i < bw,
        0 <= j < bh,
    ensures
        pos <= pos + j * stride + i < pos + (bh - 1) * stride + bw,
        pos + j * stride + bw <= pos + (bh - 1) * stride + bw,
        pos + j * stride + i + stride == pos + (j + 1) * stride + i,
{
    assert(0 <= j * stride <= (bh - 1) * stride) by (nonlinear_arith)
        requires
            0 <= j <= bh - 1,
            1 <= stride,
    ;
    assert(pos + j * stride + i + stride == pos + (j + 1) * stride + i) by (nonlinear_arith);
}

/// Row `y` of the plane starts at base + y * width, inside the plane.
proof fn lemma_plane_index(base: int, width: int, height: int, x: int, y: int)
    requires
        1 <= width,
        1 <= height,
        0 <= x < width,
        0 <= y < height,
    ensures
        0 <= y * width + x < width * height,
        base + (y + 1) * width == base + y * width + width,
{
    assert(0 <= y * width <= (height - 1) * width) by (nonlinear_arith)
        requires
            0 <= y <= height - 1,
            1 <= width,
    ;
    assert((height - 1) * width + width == width * height) by (nonlinear_arith);
    assert(base + (y + 1) * width == base + y * width + width) by (nonlinear_arith);
}

/// Value of column `k` of a row filled from `r[pos..]`: `left` copies of
/// the first sample, `center` samples, then copies of the last one.
pub open spec fn row7_value(r: Seq<u8>, pos: int, left: int, center: int, k: int) -> u8 {
    if k < left {
        r[pos]
    } else if k < left + center {
        r[pos + k - left]
    } else {
        r[pos + center - 1]
    }
}

/// A row of reference samples where the block reaches outside the picture
/// on the left (`left` samples) or on the right (`right` samples) of the
/// `center` samples inside it.
pub fn h264bsdFillRow7(ref_: &[u8], refPos: usize, fill: &mut [u8], fillPos: usize, left: i32, center: i32, right: i32)
    requires
        0 <= left <= 0x10000,
        0 <= center <= 0x10000,
        0 <= right <= 0x10000,
        fillPos + left + center + right <= old(fill).len(),
        refPos + center <= ref_.len(),
        left > 0 ==> refPos < ref_.len(),
        right > 0 ==> refPos + center >= 1,
    ensures
        final(fill).len() == old(fill).len(),
        forall|k: int|
            0 <= k < left + center + right ==> final(fill)@[fillPos + k] == row7_value(
                ref_@,
                refPos as int,
                left as int,
                center as int,
                k,
            ),
        forall|k: int|
            0 <= k < old(fill).len() && !(fillPos <= k < fillPos + left + center + right) ==> final(fill)@[k]
                == old(fill)@[k],
{
    let ghost f0 = fill@;
    let l = left as usize;
    let c = center as usize;
    let n = l + c + right as usize;
    let mut k: usize = 0;
    while k < n
        invariant
            n == left + center + right,
            l == left,
            c == center,
            fillPos + n <= fill.len(),
            fill.len() == f0.len(),
            refPos + center <= ref_.len(),
            left > 0 ==> refPos < ref_.len(),
            right > 0 ==> refPos + center >= 1,
            k <= n,
            forall|m: int|
                0 <= m < k ==> fill@[fillPos + m] == row7_value(ref_@, refPos as int, left as int, center as int, m),
            forall|m: int| 0 <= m < f0.len() && !(fillPos <= m < fillPos + k) ==> fill@[m] == f0[m],
        decreases n - k,
    {
        let v = if k < l {
            ref_[refPos]
        } else if k < l + c {
            ref_[refPos + (k - l)]
        } else {
            ref_[refPos + c - 1]
        };
        fill[fillPos + k] = v;
        k += 1;
    }
}

/// Column `i` of a row of the block at x0 maps to the sample column
/// clamped into [0, width - 1] when the row is filled from column
/// `start` with `left`, `center` and `right` as block filling computes
/// them.
proof fn lemma_fill_columns(x0: int, bw: int, width: int, i: int)
    requires
        1 <= width,
        1 <= bw,
        0 <= i < bw,
    ensures
        ({
            let x1 = if x0 + bw < 0 { -bw } else if x0 > width { width } else { x0 };
            let start = if x1 > 0 { x1 } else { 0 };
            let left = if x1 < 0 { -x1 } else { 0 };
            let right = if x1 + bw > width { x1 + bw - width } else { 0 };
            let center = bw - left - right;
            &&& 0 <= left
            &&& 0 <= center
            &&& 0 <= right
            &&& start + center <= width
            &&& right > 0 ==> start + center >= 1
            &&& left > 0 ==> start == 0
            &&& (if i < left {
                start
            } else if i < left + center {
                start + i - left
            } else {
                start + center - 1
            }) == clampi(x0 + i, 0, width - 1)
        }),
{
}

/// One row of a reference block: the samples of plane row `srow` from
/// column x0 on, `bw` of them, into `fill` from `fpos` on, the columns
/// outside the plane taking the nearest border sample.
fn fill_block_row(
    ref_: &[u8],
    refBase: usize,
    fill: &mut [u8],
    fpos: usize,
    x0: i32,
    srow: u32,
    width: u32,
    height: u32,
    bw: u32,
)
    requires
        plane_ok(ref_@, refBase as int, width as int, height as int),
        width <= 0x10000,
        srow < height,
        -0x100000 <= x0 <= 0x100000,
        1 <= bw <= 64,
        fpos + bw <= old(fill).len(),
    ensures
        final(fill).len() == old(fill).len(),
        forall|i: int|
            0 <= i < bw ==> final(fill)@[fpos + i] as int == #[trigger] sample(
                ref_@,
                refBase as int,
                width as int,
                height as int,
                x0 + i,
                srow as int,
            ),
        forall|k: int| 0 <= k < old(fill).len() && !(fpos <= k < fpos + bw) ==> final(fill)@[k] == old(fill)@[k],
{
    let ghost w = width as int;
    let ghost h = height as int;
    let bwi = bw as i32;
    let wi = width as i32;
    let mut x1 = x0;
    if x0 + bwi < 0 {
        x1 = -bwi;
    }
    if x1 > wi {
        x1 = wi;
    }
    let xstop = x1 + bwi;
    let start: usize = if x1 > 0 {
        x1 as usize
    } else {
        0
    };
    let left: i32 = if x1 < 0 {
        -x1
    } else {
        0
    };
    let right: i32 = if xstop > wi {
        xstop - wi
    } else {
        0
    };
    let x: i32 = bwi - left - right;
    let su = srow as usize;
    let wu = width as usize;
    let rlen = ref_.len();
    proof {
        lemma_fill_columns(x0 as int, bw as int, w, 0);
        assert(su * wu + wu <= w * h) by (nonlinear_arith)
            requires
                0 <= su < h,
                wu == w,
                1 <= w,
        ;
    }
    let rp: usize = refBase + su * wu + start;
    h264bsdFillRow7(ref_, rp, fill, fpos, left, x, right);
    proof {
        assert forall|i: int| 0 <= i < bw implies fill@[fpos + i] as int == #[trigger] sample(ref_@, refBase as int, w, h, x0 + i, srow as int) by {
            lemma_fill_columns(x0 as int, bw as int, w, i);
            assert(fill@[fpos + i] == row7_value(ref_@, rp as int, left as int, x as int, i));
        }
    }
}

/// A block of reference samples at (x0, y0), `blockWidth` x `blockHeight`,
/// into `fill` from `fillOff` on with row length `fillScanLength`; samples
/// outside the picture are those of the nearest border sample.
pub fn h264bsdFillBlock(
    ref_: &[u8],
    refBase: usize,
    fill: &mut [u8],
    fillOff: usize,
    x0: i32,
    y0: i32,
    width: u32,
    height: u32,
    blockWidth: u32,
    blockHeight: u32,
    fillScanLength: u32,
)
    requires
        plane_ok(ref_@, refBase as int, width as int, height as int),
        width <= 0x10000,
        height <= 0x10000,
        -0x100000 <= x0 <= 0x100000,
        -0x100000 <= y0 <= 0x100000,
        1 <= blockWidth <= 64,
        1 <= blockHeight <= 64,
        block_fits(old(fill).len() as int, fillScanLength as int, fillOff as int, blockWidth as int, blockHeight as int),
    ensures
        final(fill).len() == old(fill).len(),
        agrees(
            buf_fn(final(fill)@, fillScanLength as int, fillOff as int),
            plane_fn(ref_@, refBase as int, width as int, height as int),
            x0 as int,
            y0 as int,
            blockWidth as int,
            blockHeight as int,
        ),
        forall|k: int|
            0 <= k < old(fill).len() && !in_block(k, fillScanLength as int, fillOff as int, blockWidth as int, blockHeight as int)
                ==> final(fill)@[k] == old(fill)@[k],
{
    let ghost f0 = fill@;
    let ghost w = width as int;
    let ghost h = height as int;
    let bh = blockHeight as i32;
    let hi = height as i32;
    let mut y1 = y0;
    if y0 + bh < 0 {
        y1 = -bh;
    }
    if y1 > hi {
        y1 = hi;
    }
    let ystop = y1 + bh;
    let rowStart: i32 = if y1 > 0 {
        y1
    } else {
        0
    };
    let top: i32 = if y1 < 0 {
        -y1
    } else {
        0
    };
    let bottom: i32 = if ystop > hi {
        ystop - hi
    } else {
        0
    };
    let y: i32 = bh - top - bottom;
    let scan = fillScanLength as usize;
    let mut fpos: usize = fillOff;
    let mut j: i32 = 0;
    while j < bh
        invariant
            0 <= j <= bh,
            bh == blockHeight,
            1 <= blockWidth <= 64,
            1 <= blockHeight <= 64,
            -0x100000 <= x0 <= 0x100000,
            -0x100000 <= y0 <= 0x100000,
            width <= 0x10000,
            height <= 0x10000,
            fill.len() == f0.len(),
            block_fits(f0.len() as int, scan as int, fillOff as int, blockWidth as int, bh as int),
            scan == fillScanLength,
            j < bh ==> fpos == fillOff + j * scan,
            plane_ok(ref_@, refBase as int, w, h),
            w == width,
            h == height,
            hi == height,
            y1 == (if y0 + bh < 0 { -bh as int } else if y0 > hi { hi as int } else { y0 as int }),
            rowStart == (if y1 > 0 { y1 } else { 0 }),
            top == (if y1 < 0 { -y1 } else { 0 }),
            bottom == (if y1 + bh > hi { y1 + bh - hi } else { 0 }),
            y == bh - top - bottom,
            forall|i: int, jj: int|
                0 <= i < blockWidth && 0 <= jj < j ==> #[trigger] buf_fn(fill@, scan as int, fillOff as int)(i, jj)
                    == plane_fn(ref_@, refBase as int, w, h)(x0 + i, y0 + jj),
            forall|k: int|
                0 <= k < f0.len() && !in_block(k, scan as int, fillOff as int, blockWidth as int, bh as int) ==> fill@[k]
                    == f0[k],
        decreases bh - j,
    {
        /* the sample row used for this block row */
        let srow: i32 = if j < top {
            rowStart
        } else if j < top + y {
            rowStart + j - top
        } else {
            rowStart + y - 1
        };
        proof {
            lemma_fill_columns(y0 as int, bh as int, h, j as int);
            assert(srow == clampi(y0 + j, 0, h - 1));
            lemma_block_index(scan as int, fillOff as int, blockWidth as int, bh as int, 0, j as int);
        }
        let ghost fb = fill@;
        fill_block_row(ref_, refBase, fill, fpos, x0, srow as u32, width, height, blockWidth);
        proof {
            assert forall|i: int, jj: int|
                0 <= i < blockWidth && 0 <= jj < j + 1 implies #[trigger] buf_fn(fill@, scan as int, fillOff as int)(i, jj)
                == plane_fn(ref_@, refBase as int, w, h)(x0 + i, y0 + jj) by {
                lemma_block_index(scan as int, fillOff as int, blockWidth as int, bh as int, i, jj);
                if jj < j {
                    assert(buf_fn(fb, scan as int, fillOff as int)(i, jj) == plane_fn(ref_@, refBase as int, w, h)(x0 + i, y0 + jj));
                    assert(fillOff + jj * scan + i < fpos) by (nonlinear_arith)
                        requires
                            fpos == fillOff + j * scan,
                            jj < j,
                            0 <= i < blockWidth,
                            blockWidth <= scan,
                    ;
                } else {
                    assert(fill@[fpos + i] as int == sample(ref_@, refBase as int, w, h, x0 + i, srow as int));
                    assert(clampi(srow as int, 0, h - 1) == srow);
                }
            }
            assert forall|k: int|
                0 <= k < f0.len() && !in_block(k, scan as int, fillOff as int, blockWidth as int, bh as int) implies fill@[k]
                == f0[k] by {
                if fpos <= k < fpos + blockWidth {
                    lemma_in_block(scan as int, fillOff as int, blockWidth as int, bh as int, k - fpos, j as int);
                }
            }
        }
        if j + 1 < bh {
            proof {
                lemma_block_index(scan as int, fillOff as int, blockWidth as int, bh as int, 0, j as int + 1);
            }
            fpos = fpos + scan;
        }
        j += 1;
    }
}

/// The six-tap filter (1, -5, 20, 20, -5, 1).
pub open spec fn tap6(a: int, b: int, c: int, d: int, e: int, f: int) -> int {
    a - 5 * b + 20 * c + 20 * d - 5 * e + f
}

/// `v` limited to the sample range [0, 255].
pub open spec fn clip1(v: int) -> int {
    clampi(v, 0, 255)
}

/// Rounding of a once filtered value: (v + 16) >> 5, clipped.
pub open spec fn round5(v: int) -> int {
    clip1((v + 16) / 32)
}

/// Rounding of a twice filtered value: (v + 512) >> 10, clipped.
pub open spec fn round10(v: int) -> int {
    clip1((v + 512) / 1024)
}

/// Average rounded up.
pub open spec fn avg(a: int, b: int) -> int {
    (a + b + 1) / 2
}

/// Horizontal filter over the six samples from (x, y) rightwards.
pub open spec fn raw_h(f: spec_fn(int, int) -> int, x: int, y: int) -> int {
    tap6(f(x, y), f(x + 1, y), f(x + 2, y), f(x + 3, y), f(x + 4, y), f(x + 5, y))
}

/// Vertical filter over the six samples from (x, y) downwards.
pub open spec fn raw_v(f: spec_fn(int, int) -> int, x: int, y: int) -> int {
    tap6(f(x, y), f(x, y + 1), f(x, y + 2), f(x, y + 3), f(x, y + 4), f(x, y + 5))
}

/// Vertical filter over the horizontally filtered values of six rows.
pub open spec fn raw_hv(f: spec_fn(int, int) -> int, x: int, y: int) -> int {
    tap6(raw_h(f, x, y), raw_h(f, x, y + 1), raw_h(f, x, y + 2), raw_h(f, x, y + 3), raw_h(f, x, y + 4), raw_h(f, x, y + 5))
}

/// Half sample between (x + 2, y) and (x + 3, y) (position 'b').
pub open spec fn hor_half(f: spec_fn(int, int) -> int, x: int, y: int) -> int {
    round5(raw_h(f, x, y))
}

/// Quarter sample 'a' (off 0) or 'c' (off 1): 'b' averaged with the
/// integer sample on its left or right.
pub open spec fn hor_quarter(f: spec_fn(int, int) -> int, x: int, y: int, off: int) -> int {
    avg(hor_half(f, x, y), f(x + 2 + off, y))
}

/// Half sample between (x, y + 2) and (x, y + 3) (position 'h').
pub open spec fn ver_half(f: spec_fn(int, int) -> int, x: int, y: int) -> int {
    round5(raw_v(f, x, y))
}

/// Quarter sample 'd' (off 0) or 'n' (off 1): 'h' averaged with the
/// integer sample above or below it.
pub open spec fn ver_quarter(f: spec_fn(int, int) -> int, x: int, y: int, off: int) -> int {
    avg(ver_half(f, x, y), f(x, y + 2 + off))
}

/// Quarter sample 'e', 'g', 'p' or 'r' (off 0..3): a horizontal half
/// sample (of row y + 2, or y + 3 for off 2 and 3) averaged with a
/// vertical one (of column x + 2, or x + 3 for off 1 and 3).
pub open spec fn hor_ver_quarter(f: spec_fn(int, int) -> int, x: int, y: int, off: int) -> int {
    avg(hor_half(f, x, y + 2 + off / 2), ver_half(f, x + 2 + off % 2, y))
}

/// The centre half sample 'j' of the square (x + 2, y + 2), (x + 3, y + 3).
pub open spec fn mid_half(f: spec_fn(int, int) -> int, x: int, y: int) -> int {
    round10(raw_hv(f, x, y))
}

/// Quarter sample 'f' (off 0) or 'q' (off 1): 'j' averaged with the
/// horizontal half sample above or below it.
pub open spec fn mid_ver_quarter(f: spec_fn(int, int) -> int, x: int, y: int, off: int) -> int {
    avg(mid_half(f, x, y), hor_half(f, x, y + 2 + off))
}

/// Quarter sample 'i' (off 0) or 'k' (off 1): 'j' averaged with the
/// vertical half sample left or right of it.
pub open spec fn mid_hor_quarter(f: spec_fn(int, int) -> int, x: int, y: int, off: int) -> int {
    avg(mid_half(f, x, y), ver_half(f, x + 2 + off, y))
}

/// The interpolation of kind `kind` (0 hor_half, 1 hor_quarter, 2
/// ver_half, 3 ver_quarter, 4 hor_ver_quarter, 5 mid_half, 6
/// mid_ver_quarter, 7 mid_hor_quarter).
pub open spec fn interp(f: spec_fn(int, int) -> int, kind: int, off: int, x: int, y: int) -> int {
    if kind == 0 {
        hor_half(f, x, y)
    } else if kind == 1 {
        hor_quarter(f, x, y, off)
    } else if kind == 2 {
        ver_half(f, x, y)
    } else if kind == 3 {
        ver_quarter(f, x, y, off)
    } else if kind == 4 {
        hor_ver_quarter(f, x, y, off)
    } else if kind == 5 {
        mid_half(f, x, y)
    } else if kind == 6 {
        mid_ver_quarter(f, x, y, off)
    } else {
        mid_hor_quarter(f, x, y, off)
    }
}

/// Columns an interpolation of kind `kind` reads besides the block's own.
pub open spec fn ext_w(kind: int) -> int {
    if kind == 2 || kind == 3 {
        0
    } else {
        5
    }
}

/// Rows an interpolation of kind `kind` reads besides the block's own.
pub open spec fn ext_h(kind: int) -> int {
    if kind == 0 || kind == 1 {
        0
    } else {
        5
    }
}

/// The local window at block position (px, py) agrees with `f` where the
/// whole window does.
proof fn lemma_local_agrees(
    src: Seq<u8>,
    stride: int,
    base: int,
    f: spec_fn(int, int) -> int,
    x0: int,
    y0: int,
    bw: int,
    bh: int,
    px: int,
    py: int,
    sw: int,
    sh: int,
)
    requires
        agrees(buf_fn(src, stride, base), f, x0, y0, bw, bh),
        0 <= px,
        0 <= py,
        px + sw <= bw,
        py + sh <= bh,
    ensures
        agrees(buf_fn(src, stride, base + py * stride + px), f, x0 + px, y0 + py, sw, sh),
{
    assert forall|i: int, j: int| 0 <= i < sw && 0 <= j < sh implies #[trigger] buf_fn(src, stride, base + py * stride + px)(i, j)
        == f(x0 + px + i, y0 + py + j) by {
        assert(base + py * stride + px + j * stride + i == base + (py + j) * stride + (px + i)) by (nonlinear_arith);
        assert(buf_fn(src, stride, base)(px + i, py + j) == f(x0 + (px + i), y0 + (py + j)));
    }
}

/// Bounds of the once filtered values of 8-bit samples.
pub open spec fn raw1_range(v: int) -> bool {
    -2550 <= v <= 10710
}

/// tap6 of six 8-bit samples.
fn tap6_u8(a: u8, b: u8, c: u8, d: u8, e: u8, f: u8) -> (r: i32)
    ensures
        r == tap6(a as int, b as int, c as int, d as int, e as int, f as int),
        raw1_range(r as int),
{
    let t = (a as i32) + (f as i32);
    let u = (c as i32) + (d as i32);
    let v = (b as i32) + (e as i32);
    t + 20 * u - 5 * v
}

/// tap6 of six once filtered values.
fn tap6_i32(a: i32, b: i32, c: i32, d: i32, e: i32, f: i32) -> (r: i32)
    requires
        raw1_range(a as int),
        raw1_range(b as int),
        raw1_range(c as int),
        raw1_range(d as int),
        raw1_range(e as int),
        raw1_range(f as int),
    ensures
        r == tap6(a as int, b as int, c as int, d as int, e as int, f as int),
        -250000 <= r <= 500000,
{
    a - 5 * b + 20 * c + 20 * d - 5 * e + f
}

/// The six samples of a row of `src` from `pos` on, filtered.
fn raw_h_exec(src: &[u8], pos: usize) -> (r: i32)
    requires
        pos + 6 <= src.len(),
    ensures
        r == raw_h(buf_fn(src@, 1, pos as int), 0, 0),
        raw1_range(r as int),
{
    tap6_u8(src[pos], src[pos + 1], src[pos + 2], src[pos + 3], src[pos + 4], src[pos + 5])
}

/// The six samples of a column of `src` from `pos` on, filtered.
fn raw_v_exec(src: &[u8], pos: usize, stride: usize) -> (r: i32)
    requires
        pos + 5 * stride < src.len(),
    ensures
        r == raw_v(buf_fn(src@, stride as int, pos as int), 0, 0),
        raw1_range(r as int),
{
    tap6_u8(
        src[pos],
        src[pos + stride],
        src[pos + 2 * stride],
        src[pos + 3 * stride],
        src[pos + 4 * stride],
        src[pos + 5 * stride],
    )
}

/// (v + 16) >> 5, clipped.
fn round5_exec(v: i32) -> (r: u8)
    requires
        raw1_range(v as int),
    ensures
        r as int == round5(v as int),
{
    let t = v + 16;
    let q = t >> 5;
    assert(q == t / 32) by (bit_vector)
        requires
            q == t >> 5,
    ;
    if q < 0 {
        0
    } else if q > 255 {
        255
    } else {
        q as u8
    }
}

/// (v + 512) >> 10, clipped.
fn round10_exec(v: i32) -> (r: u8)
    requires
        -250000 <= v <= 500000,
    ensures
        r as int == round10(v as int),
{
    let t = v + 512;
    let q = t >> 10;
    assert(q == t / 1024) by (bit_vector)
        requires
            q == t >> 10,
    ;
    if q < 0 {
        0
    } else if q > 255 {
        255
    } else {
        q as u8
    }
}

/// (a + b + 1) >> 1.
fn avg_exec(a: u8, b: u8) -> (r: u8)
    ensures
        r as int == avg(a as int, b as int),
{
    (((a as u32) + (b as u32) + 1) / 2) as u8
}

/// Sample (x, y) of a macroblock array with rows of 16 from `off` on.
pub open spec fn mb_at(s: Seq<u8>, off: int, x: int, y: int) -> int {
    s[off + 16 * y + x] as int
}

/// Interpolated sample of kind `kind` computed from the window of `src`
/// at `pos`, which agrees with `f` at (x, y).
fn interp_px(
    src: &[u8],
    stride: usize,
    pos: usize,
    kind: u32,
    off: u32,
    Ghost(f): Ghost<spec_fn(int, int) -> int>,
    Ghost(x): Ghost<int>,
    Ghost(y): Ghost<int>,
) -> (r: u8)
    requires
        kind < 8,
        off < 4,
        block_fits(src.len() as int, stride as int, pos as int, 1 + ext_w(kind as int), 1 + ext_h(kind as int)),
        agrees(buf_fn(src@, stride as int, pos as int), f, x, y, 1 + ext_w(kind as int), 1 + ext_h(kind as int)),
    ensures
        r as int == interp(f, kind as int, off as int, x, y),
{
    let ghost g = buf_fn(src@, stride as int, pos as int);
    if kind == 0 || kind == 1 {
        let v = raw_h_exec(src, pos);
        assert(raw_h(buf_fn(src@, 1, pos as int), 0, 0) == raw_h(f, x, y)) by {
            assert(g(0, 0) == f(x, y) && g(1, 0) == f(x + 1, y) && g(2, 0) == f(x + 2, y));
            assert(g(3, 0) == f(x + 3, y) && g(4, 0) == f(x + 4, y) && g(5, 0) == f(x + 5, y));
        }
        let h = round5_exec(v);
        if kind == 0 {
            h
        } else {
            let o = off as usize;
            assert(g(2 + o, 0) == f(x + 2 + o, y));
            avg_exec(h, src[pos + 2 + o])
        }
    } else if kind == 2 || kind == 3 {
        let v = raw_v_exec(src, pos, stride);
        assert(raw_v(buf_fn(src@, stride as int, pos as int), 0, 0) == raw_v(f, x, y)) by {
            assert(g(0, 0) == f(x, y) && g(0, 1) == f(x, y + 1) && g(0, 2) == f(x, y + 2));
            assert(g(0, 3) == f(x, y + 3) && g(0, 4) == f(x, y + 4) && g(0, 5) == f(x, y + 5));
        }
        let h = round5_exec(v);
        if kind == 2 {
            h
        } else {
            let o = off as usize;
            assert(g(0, 2 + o) == f(x, y + 2 + o));
            avg_exec(h, src[pos + (2 + o) * stride])
        }
    } else {
        proof {
            assert forall|j: int| 0 <= j < 6 implies #[trigger] raw_h(buf_fn(src@, 1, pos + j * stride), 0, 0) == raw_h(f, x, y + j) by {
                assert(g(0, j) == f(x, y + j) && g(1, j) == f(x + 1, y + j) && g(2, j) == f(x + 2, y + j));
                assert(g(3, j) == f(x + 3, y + j) && g(4, j) == f(x + 4, y + j) && g(5, j) == f(x + 5, y + j));
            }
            assert forall|i: int| 0 <= i < 6 implies #[trigger] raw_v(buf_fn(src@, stride as int, pos + i), 0, 0) == raw_v(f, x + i, y) by {
                assert(g(i, 0) == f(x + i, y) && g(i, 1) == f(x + i, y + 1) && g(i, 2) == f(x + i, y + 2));
                assert(g(i, 3) == f(x + i, y + 3) && g(i, 4) == f(x + i, y + 4) && g(i, 5) == f(x + i, y + 5));
            }
        }
        if kind == 4 {
            let r = (2 + off / 2) as usize;
            let c = (2 + off % 2) as usize;
            let a = round5_exec(raw_h_exec(src, pos + r * stride));
            let b = round5_exec(raw_v_exec(src, pos + c, stride));
            avg_exec(a, b)
        } else {
            let h0 = raw_h_exec(src, pos);
            let h1 = raw_h_exec(src, pos + stride);
            let h2 = raw_h_exec(src, pos + 2 * stride);
            let h3 = raw_h_exec(src, pos + 3 * stride);
            let h4 = raw_h_exec(src, pos + 4 * stride);
            let h5 = raw_h_exec(src, pos + 5 * stride);
            assert(raw_h(buf_fn(src@, 1, pos + 0 * stride), 0, 0) == raw_h(f, x, y + 0));
            assert(raw_h(buf_fn(src@, 1, pos + 1 * stride), 0, 0) == raw_h(f, x, y + 1));
            assert(raw_h(buf_fn(src@, 1, pos + 2 * stride), 0, 0) == raw_h(f, x, y + 2));
            assert(raw_h(buf_fn(src@, 1, pos + 3 * stride), 0, 0) == raw_h(f, x, y + 3));
            assert(raw_h(buf_fn(src@, 1, pos + 4 * stride), 0, 0) == raw_h(f, x, y + 4));
            assert(raw_h(buf_fn(src@, 1, pos + 5 * stride), 0, 0) == raw_h(f, x, y + 5));
            let j = round10_exec(tap6_i32(h0, h1, h2, h3, h4, h5));
            if kind == 5 {
                j
            } else if kind == 6 {
                let r = (2 + off) as usize;
                let b = round5_exec(raw_h_exec(src, pos + r * stride));
                avg_exec(j, b)
            } else {
                let c = (2 + off) as usize;
                let b = round5_exec(raw_v_exec(src, pos + c, stride));
                avg_exec(j, b)
            }
        }
    }
}

/// Interpolation of kind `kind` for a `pw` x `ph` block into `mb` from
/// `mbOff` on, from the window of `src` at `base`, which agrees with `f`
/// at (x0, y0).
fn interp_block(
    src: &[u8],
    stride: usize,
    base: usize,
    mb: &mut [u8],
    mbOff: usize,
    pw: u32,
    ph: u32,
    kind: u32,
    off: u32,
    Ghost(f): Ghost<spec_fn(int, int) -> int>,
    Ghost(x0): Ghost<int>,
    Ghost(y0): Ghost<int>,
)
    requires
        kind < 8,
        off < 4,
        1 <= pw <= 16,
        1 <= ph <= 16,
        block_fits(src.len() as int, stride as int, base as int, pw + ext_w(kind as int), ph + ext_h(kind as int)),
        agrees(buf_fn(src@, stride as int, base as int), f, x0, y0, pw + ext_w(kind as int), ph + ext_h(kind as int)),
        block_fits(old(mb).len() as int, 16, mbOff as int, pw as int, ph as int),
    ensures
        final(mb).len() == old(mb).len(),
        forall|px: int, py: int|
            0 <= px < pw && 0 <= py < ph ==> #[trigger] mb_at(final(mb)@, mbOff as int, px, py) == interp(
                f,
                kind as int,
                off as int,
                x0 + px,
                y0 + py,
            ),
        forall|k: int| 0 <= k < old(mb).len() && !in_block(k, 16, mbOff as int, pw as int, ph as int) ==> final(mb)@[k] == old(mb)@[k],
{
    let ghost m0 = mb@;
    let ghost bw = pw + ext_w(kind as int);
    let ghost bh = ph + ext_h(kind as int);
    let ghost sw = 1 + ext_w(kind as int);
    let ghost sh = 1 + ext_h(kind as int);
    let mut py: u32 = 0;
    while py < ph
        invariant
            py <= ph,
            kind < 8,
            off < 4,
            1 <= pw <= 16,
            1 <= ph <= 16,
            bw == pw + ext_w(kind as int),
            bh == ph + ext_h(kind as int),
            sw == 1 + ext_w(kind as int),
            sh == 1 + ext_h(kind as int),
            block_fits(src.len() as int, stride as int, base as int, bw, bh),
            agrees(buf_fn(src@, stride as int, base as int), f, x0, y0, bw, bh),
            block_fits(m0.len() as int, 16, mbOff as int, pw as int, ph as int),
            mb.len() == m0.len(),
            forall|px: int, qy: int|
                0 <= px < pw && 0 <= qy < py ==> #[trigger] mb_at(mb@, mbOff as int, px, qy) == interp(
                    f,
                    kind as int,
                    off as int,
                    x0 + px,
                    y0 + qy,
                ),
            forall|k: int| 0 <= k < m0.len() && !in_block(k, 16, mbOff as int, pw as int, ph as int) ==> mb@[k] == m0[k],
        decreases ph - py,
    {
        proof {
            lemma_block_index(stride as int, base as int, bw, bh, 0, py as int);
            lemma_block_index(16, mbOff as int, pw as int, ph as int, 0, py as int);
        }
        let rowBase = base + py as usize * stride;
        let mbRow = mbOff + py as usize * 16;
        let mut px: u32 = 0;
        while px < pw
            invariant
                py < ph,
                px <= pw,
                kind < 8,
                off < 4,
                1 <= pw <= 16,
                1 <= ph <= 16,
                bw == pw + ext_w(kind as int),
                bh == ph + ext_h(kind as int),
                sw == 1 + ext_w(kind as int),
                sh == 1 + ext_h(kind as int),
                rowBase == base + py * stride,
                mbRow == mbOff + py * 16,
                block_fits(src.len() as int, stride as int, base as int, bw, bh),
                agrees(buf_fn(src@, stride as int, base as int), f, x0, y0, bw, bh),
                block_fits(m0.len() as int, 16, mbOff as int, pw as int, ph as int),
                mb.len() == m0.len(),
                forall|qx: int, qy: int|
                    0 <= qx < pw && 0 <= qy < py ==> #[trigger] mb_at(mb@, mbOff as int, qx, qy) == interp(
                        f,
                        kind as int,
                        off as int,
                        x0 + qx,
                        y0 + qy,
                    ),
                forall|qx: int| 0 <= qx < px ==> #[trigger] mb_at(mb@, mbOff as int, qx, py as int) == interp(
                    f,
                    kind as int,
                    off as int,
                    x0 + qx,
                    y0 + py,
                ),
                forall|k: int| 0 <= k < m0.len() && !in_block(k, 16, mbOff as int, pw as int, ph as int) ==> mb@[k] == m0[k],
            decreases pw - px,
        {
            proof {
                lemma_block_index(stride as int, base as int, bw, bh, px as int, py as int);
            }
            let pos = rowBase + px as usize;
            proof {
                lemma_local_agrees(src@, stride as int, base as int, f, x0, y0, bw, bh, px as int, py as int, sw, sh);
                assert(pos + (sh - 1) * stride + sw <= base + (bh - 1) * stride + bw) by (nonlinear_arith)
                    requires
                        pos == base + py * stride + px,
                        py + sh <= bh,
                        px + sw <= bw,
                        1 <= stride,
                ;
                lemma_block_index(16, mbOff as int, pw as int, ph as int, px as int, py as int);
                lemma_in_block(16, mbOff as int, pw as int, ph as int, px as int, py as int);
            }
            let v = interp_px(src, stride, pos, kind, off, Ghost(f), Ghost(x0 + px), Ghost(y0 + py));
            let ghost mb1 = mb@;
            mb[mbRow + px as usize] = v;
            proof {
                assert forall|qx: int, qy: int|
                    0 <= qx < pw && 0 <= qy < py implies #[trigger] mb_at(mb@, mbOff as int, qx, qy) == interp(
                    f,
                    kind as int,
                    off as int,
                    x0 + qx,
                    y0 + qy,
                ) by {
                    assert(mb_at(mb1, mbOff as int, qx, qy) == interp(f, kind as int, off as int, x0 + qx, y0 + qy));
                    assert(mbOff + 16 * qy + qx < mbRow) by (nonlinear_arith)
                        requires
                            mbRow == mbOff + py * 16,
                            qy < py,
                            qx < 16,
                    ;
                }
                assert forall|qx: int| 0 <= qx < px + 1 implies #[trigger] mb_at(mb@, mbOff as int, qx, py as int) == interp(
                    f,
                    kind as int,
                    off as int,
                    x0 + qx,
                    y0 + py,
                ) by {
                    if qx < px {
                        assert(mb_at(mb1, mbOff as int, qx, py as int) == interp(f, kind as int, off as int, x0 + qx, y0 + py));
                    }
                }
            }
            px += 1;
        }
        py += 1;
    }
}

/// Arguments of the luma interpolations: a picture plane, a block
/// position within reach, and a partition that fits in the macroblock
/// array `mb`.
pub open spec fn luma_args(
    p: Seq<u8>,
    base: int,
    mbLen: int,
    mbOff: int,
    x0: int,
    y0: int,
    width: int,
    height: int,
    partWidth: int,
    partHeight: int,
) -> bool {
    &&& plane_ok(p, base, width, height)
    &&& width <= 0x10000
    &&& height <= 0x10000
    &&& -0x100000 <= x0 <= 0x100000
    &&& -0x100000 <= y0 <= 0x100000
    &&& 1 <= partWidth <= 16
    &&& 1 <= partHeight <= 16
    &&& block_fits(mbLen, 16, mbOff, partWidth, partHeight)
}

/// The window of the plane at (x0, y0), `bw` x `bh`, read in place.
proof fn lemma_window_in_place(p: Seq<u8>, base: int, width: int, height: int, x0: int, y0: int, bw: int, bh: int)
    requires
        plane_ok(p, base, width, height),
        0 <= x0,
        x0 + bw <= width,
        0 <= y0,
        y0 + bh <= height,
        1 <= bw,
        1 <= bh,
    ensures
        block_fits(p.len() as int, width, base + y0 * width + x0, bw, bh),
        agrees(buf_fn(p, width, base + y0 * width + x0), plane_fn(p, base, width, height), x0, y0, bw, bh),
{
    assert(y0 * width + (bh - 1) * width == (y0 + bh - 1) * width) by (nonlinear_arith);
    assert((y0 + bh - 1) * width <= (height - 1) * width) by (nonlinear_arith)
        requires
            y0 + bh <= height,
            1 <= width,
    ;
    assert((height - 1) * width + width == width * height) by (nonlinear_arith);
    assert(0 <= y0 * width) by (nonlinear_arith)
        requires
            0 <= y0,
            1 <= width,
    ;
    assert forall|i: int, j: int| 0 <= i < bw && 0 <= j < bh implies #[trigger] buf_fn(p, width, base + y0 * width + x0)(i, j)
        == plane_fn(p, base, width, height)(x0 + i, y0 + j) by {
        assert(base + y0 * width + x0 + j * width + i == base + (y0 + j) * width + (x0 + i)) by (nonlinear_arith);
    }
}

/// Luma interpolation of kind `kind`: from the picture in place where the
/// `bw` x `bh` block at (x0, y0) lies inside it, else from a filled copy.
fn interp_luma(
    ref_: &[u8],
    refBase: usize,
    mb: &mut [u8],
    mbOff: usize,
    x0: i32,
    y0: i32,
    width: u32,
    height: u32,
    partWidth: u32,
    partHeight: u32,
    kind: u32,
    off: u32,
)
    requires
        luma_args(
            ref_@,
            refBase as int,
            old(mb).len() as int,
            mbOff as int,
            x0 as int,
            y0 as int,
            width as int,
            height as int,
            partWidth as int,
            partHeight as int,
        ),
        kind < 8,
        off < 4,
    ensures
        final(mb).len() == old(mb).len(),
        forall|px: int, py: int|
            0 <= px < partWidth && 0 <= py < partHeight ==> #[trigger] mb_at(final(mb)@, mbOff as int, px, py) == interp(
                plane_fn(ref_@, refBase as int, width as int, height as int),
                kind as int,
                off as int,
                x0 + px,
                y0 + py,
            ),
        forall|k: int|
            0 <= k < old(mb).len() && !in_block(k, 16, mbOff as int, partWidth as int, partHeight as int) ==> final(mb)@[k]
                == old(mb)@[k],
{
    let ghost f = plane_fn(ref_@, refBase as int, width as int, height as int);
    let bw = partWidth + if kind == 2 || kind == 3 {
        0
    } else {
        5
    };
    let bh = partHeight + if kind == 0 || kind == 1 {
        0
    } else {
        5
    };
    if x0 < 0 || x0 as u32 + bw > width || y0 < 0 || y0 as u32 + bh > height {
        let mut p1: [u8; 441] = [0; 441];
        proof {
            assert((bh - 1) * bw + bw <= 441) by (nonlinear_arith)
                requires
                    1 <= bw <= 21,
                    1 <= bh <= 21,
            ;
        }
        h264bsdFillBlock(ref_, refBase, &mut p1, 0, x0, y0, width, height, bw, bh, bw);
        interp_block(&p1, bw as usize, 0, mb, mbOff, partWidth, partHeight, kind, off, Ghost(f), Ghost(x0 as int), Ghost(y0 as int));
    } else {
        proof {
            lemma_window_in_place(ref_@, refBase as int, width as int, height as int, x0 as int, y0 as int, bw as int, bh as int);
        }
        let yu = y0 as usize;
        let wu = width as usize;
        let rlen = ref_.len();
        proof {
            assert(yu * wu + wu <= wu * (height as int)) by (nonlinear_arith)
                requires
                    yu + 1 <= height,
                    1 <= wu,
            ;
        }
        let base = refBase + yu * wu + x0 as usize;
        interp_block(ref_, width as usize, base, mb, mbOff, partWidth, partHeight, kind, off, Ghost(f), Ghost(x0 as int), Ghost(y0 as int));
    }
}

/// Vertical half sample 'h' for a partition: the filter over six rows from
/// (x0, y0) on (y0 lies two rows above the partition).
/// The result goes to `mb` from `mbOff` on, in rows of 16.
pub fn h264bsdInterpolateVerHalf(
    ref_: &[u8],
    refBase: usize,
    mb: &mut [u8],
    mbOff: usize,
    x0: i32,
    y0: i32,
    width: u32,
    height: u32,
    partWidth: u32,
    partHeight: u32,
)
    requires
        luma_args(
            ref_@,
            refBase as int,
            old(mb).len() as int,
            mbOff as int,
            x0 as int,
            y0 as int,
            width as int,
            height as int,
            partWidth as int,
            partHeight as int,
        ),
    ensures
        final(mb).len() == old(mb).len(),
        forall|px: int, py: int|
            0 <= px < partWidth && 0 <= py < partHeight ==> #[trigger] mb_at(final(mb)@, mbOff as int, px, py)
                == ver_half(plane_fn(ref_@, refBase as int, width as int, height as int), x0 + px, y0 + py),
        forall|k: int|
            0 <= k < old(mb).len() && !in_block(k, 16, mbOff as int, partWidth as int, partHeight as int) ==> final(mb)@[k]
                == old(mb)@[k],
{
    interp_luma(ref_, refBase, mb, mbOff, x0, y0, width, height, partWidth, partHeight, 2, 0);
}

/// Vertical quarter sample 'd' (`verOffset` 0) or 'n' (1) for a partition.
/// The result goes to `mb` from `mbOff` on, in rows of 16.
pub fn h264bsdInterpolateVerQuarter(
    ref_: &[u8],
    refBase: usize,
    mb: &mut [u8],
    mbOff: usize,
    x0: i32,
    y0: i32,
    width: u32,
    height: u32,
    partWidth: u32,
    partHeight: u32,
    verOffset: u32,
)
    requires
        luma_args(
            ref_@,
            refBase as int,
            old(mb).len() as int,
            mbOff as int,
            x0 as int,
            y0 as int,
            width as int,
            height as int,
            partWidth as int,
            partHeight as int,
        ),
        verOffset < 2,
    ensures
        final(mb).len() == old(mb).len(),
        forall|px: int, py: int|
            0 <= px < partWidth && 0 <= py < partHeight ==> #[trigger] mb_at(final(mb)@, mbOff as int, px, py)
                == ver_quarter(plane_fn(ref_@, refBase as int, width as int, height as int), x0 + px, y0 + py, verOffset as int),
        forall|k: int|
            0 <= k < old(mb).len() && !in_block(k, 16, mbOff as int, partWidth as int, partHeight as int) ==> final(mb)@[k]
                == old(mb)@[k],
{
    interp_luma(ref_, refBase, mb, mbOff, x0, y0, width, height, partWidth, partHeight, 3, verOffset);
}

/// Horizontal half sample 'b' for a partition (x0 lies two columns left
/// of the partition).
/// The result goes to `mb` from `mbOff` on, in rows of 16.
pub fn h264bsdInterpolateHorHalf(
    ref_: &[u8],
    refBase: usize,
    mb: &mut [u8],
    mbOff: usize,
    x0: i32,
    y0: i32,
    width: u32,
    height: u32,
    partWidth: u32,
    partHeight: u32,
)
    requires
        luma_args(
            ref_@,
            refBase as int,
            old(mb).len() as int,
            mbOff as int,
            x0 as int,
            y0 as int,
            width as int,
            height as int,
            partWidth as int,
            partHeight as int,
        ),
    ensures
        final(mb).len() == old(mb).len(),
        forall|px: int, py: int|
            0 <= px < partWidth && 0 <= py < partHeight ==> #[trigger] mb_at(final(mb)@, mbOff as int, px, py)
                == hor_half(plane_fn(ref_@, refBase as int, width as int, height as int), x0 + px, y0 + py),
        forall|k: int|
            0 <= k < old(mb).len() && !in_block(k, 16, mbOff as int, partWidth as int, partHeight as int) ==> final(mb)@[k]
                == old(mb)@[k],
{
    interp_luma(ref_, refBase, mb, mbOff, x0, y0, width, height, partWidth, partHeight, 0, 0);
}

/// Horizontal quarter sample 'a' (`horOffset` 0) or 'c' (1) for a
/// partition.
/// The result goes to `mb` from `mbOff` on, in rows of 16.
pub fn h264bsdInterpolateHorQuarter(
    ref_: &[u8],
    refBase: usize,
    mb: &mut [u8],
    mbOff: usize,
    x0: i32,
    y0: i32,
    width: u32,
    height: u32,
    partWidth: u32,
    partHeight: u32,
    horOffset: u32,
)
    requires
        luma_args(
            ref_@,
            refBase as int,
            old(mb).len() as int,
            mbOff as int,
            x0 as int,
            y0 as int,
            width as int,
            height as int,
            partWidth as int,
            partHeight as int,
        ),
        horOffset < 2,
    ensures
        final(mb).len() == old(mb).len(),
        forall|px: int, py: int|
            0 <= px < partWidth && 0 <= py < partHeight ==> #[trigger] mb_at(final(mb)@, mbOff as int, px, py)
                == hor_quarter(plane_fn(ref_@, refBase as int, width as int, height as int), x0 + px, y0 + py, horOffset as int),
        forall|k: int|
            0 <= k < old(mb).len() && !in_block(k, 16, mbOff as int, partWidth as int, partHeight as int) ==> final(mb)@[k]
                == old(mb)@[k],
{
    interp_luma(ref_, refBase, mb, mbOff, x0, y0, width, height, partWidth, partHeight, 1, horOffset);
}

/// Diagonal quarter sample 'e', 'g', 'p' or 'r' (`horVerOffset` 0..3)
/// for a partition ((x0, y0) lies two samples left of and above it).
/// The result goes to `mb` from `mbOff` on, in rows of 16.
pub fn h264bsdInterpolateHorVerQuarter(
    ref_: &[u8],
    refBase: usize,
    mb: &mut [u8],
    mbOff: usize,
    x0: i32,
    y0: i32,
    width: u32,
    height: u32,
    partWidth: u32,
    partHeight: u32,
    horVerOffset: u32,
)
    requires
        luma_args(
            ref_@,
            refBase as int,
            old(mb).len() as int,
            mbOff as int,
            x0 as int,
            y0 as int,
            width as int,
            height as int,
            partWidth as int,
            partHeight as int,
        ),
        horVerOffset < 4,
    ensures
        final(mb).len() == old(mb).len(),
        forall|px: int, py: int|
            0 <= px < partWidth && 0 <= py < partHeight ==> #[trigger] mb_at(final(mb)@, mbOff as int, px, py)
                == hor_ver_quarter(plane_fn(ref_@, refBase as int, width as int, height as int), x0 + px, y0 + py, horVerOffset as int),
        forall|k: int|
            0 <= k < old(mb).len() && !in_block(k, 16, mbOff as int, partWidth as int, partHeight as int) ==> final(mb)@[k]
                == old(mb)@[k],
{
    interp_luma(ref_, refBase, mb, mbOff, x0, y0, width, height, partWidth, partHeight, 4, horVerOffset);
}

/// Centre half sample 'j' for a partition.
/// The result goes to `mb` from `mbOff` on, in rows of 16.
pub fn h264bsdInterpolateMidHalf(
    ref_: &[u8],
    refBase: usize,
    mb: &mut [u8],
    mbOff: usize,
    x0: i32,
    y0: i32,
    width: u32,
    height: u32,
    partWidth: u32,
    partHeight: u32,
)
    requires
        luma_args(
            ref_@,
            refBase as int,
            old(mb).len() as int,
            mbOff as int,
            x0 as int,
            y0 as int,
            width as int,
            height as int,
            partWidth as int,
            partHeight as int,
        ),
    ensures
        final(mb).len() == old(mb).len(),
        forall|px: int, py: int|
            0 <= px < partWidth && 0 <= py < partHeight ==> #[trigger] mb_at(final(mb)@, mbOff as int, px, py)
                == mid_half(plane_fn(ref_@, refBase as int, width as int, height as int), x0 + px, y0 + py),
        forall|k: int|
            0 <= k < old(mb).len() && !in_block(k, 16, mbOff as int, partWidth as int, partHeight as int) ==> final(mb)@[k]
                == old(mb)@[k],
{
    interp_luma(ref_, refBase, mb, mbOff, x0, y0, width, height, partWidth, partHeight, 5, 0);
}

/// Quarter sample 'f' (`verOffset` 0) or 'q' (1) for a partition.
/// The result goes to `mb` from `mbOff` on, in rows of 16.
pub fn h264bsdInterpolateMidVerQuarter(
    ref_: &[u8],
    refBase: usize,
    mb: &mut [u8],
    mbOff: usize,
    x0: i32,
    y0: i32,
    width: u32,
    height: u32,
    partWidth: u32,
    partHeight: u32,
    verOffset: u32,
)
    requires
        luma_args(
            ref_@,
            refBase as int,
            old(mb).len() as int,
            mbOff as int,
            x0 as int,
            y0 as int,
            width as int,
            height as int,
            partWidth as int,
            partHeight as int,
        ),
        verOffset < 2,
    ensures
        final(mb).len() == old(mb).len(),
        forall|px: int, py: int|
            0 <= px < partWidth && 0 <= py < partHeight ==> #[trigger] mb_at(final(mb)@, mbOff as int, px, py)
                == mid_ver_quarter(plane_fn(ref_@, refBase as int, width as int, height as int), x0 + px, y0 + py, verOffset as int),
        forall|k: int|
            0 <= k < old(mb).len() && !in_block(k, 16, mbOff as int, partWidth as int, partHeight as int) ==> final(mb)@[k]
                == old(mb)@[k],
{
    interp_luma(ref_, refBase, mb, mbOff, x0, y0, width, height, partWidth, partHeight, 6, verOffset);
}

/// Quarter samples 'i' and 'k' are the rounded average of the centre half
/// sample 'j' and the vertical half sample beside it: with `j` holding the
/// output of `h264bsdInterpolateMidHalf` and `v` that of
/// `h264bsdInterpolateVerHalf` at column x0 + 2 + `off`, the output `q` of
/// `h264bsdInterpolateMidHorQuarter` is their average, sample by sample.
pub proof fn lemma_mid_hor_quarter_averages(
    f: spec_fn(int, int) -> int,
    x0: int,
    y0: int,
    pw: int,
    ph: int,
    off: int,
    q: Seq<u8>,
    qOff: int,
    j: Seq<u8>,
    jOff: int,
    v: Seq<u8>,
    vOff: int,
)
    requires
        forall|px: int, py: int|
            0 <= px < pw && 0 <= py < ph ==> #[trigger] mb_at(q, qOff, px, py) == mid_hor_quarter(f, x0 + px, y0 + py, off),
        forall|px: int, py: int|
            0 <= px < pw && 0 <= py < ph ==> #[trigger] mb_at(j, jOff, px, py) == mid_half(f, x0 + px, y0 + py),
        forall|px: int, py: int|
            0 <= px < pw && 0 <= py < ph ==> #[trigger] mb_at(v, vOff, px, py) == ver_half(f, x0 + 2 + off + px, y0 + py),
    ensures
        forall|px: int, py: int|
            0 <= px < pw && 0 <= py < ph ==> #[trigger] mb_at(q, qOff, px, py) == (mb_at(j, jOff, px, py) + mb_at(
                v,
                vOff,
                px,
                py,
            ) + 1) / 2,
{
    assert forall|px: int, py: int| 0 <= px < pw && 0 <= py < ph implies #[trigger] mb_at(q, qOff, px, py) == (mb_at(
        j,
        jOff,
        px,
        py,
    ) + mb_at(v, vOff, px, py) + 1) / 2 by {
        assert(mb_at(j, jOff, px, py) == mid_half(f, x0 + px, y0 + py));
        assert(mb_at(v, vOff, px, py) == ver_half(f, x0 + px + 2 + off, y0 + py));
    }
}

/// Quarter samples 'f' and 'q' are the rounded average of the centre half
/// sample 'j' and the horizontal half sample above or below it: with `j`
/// holding the output of `h264bsdInterpolateMidHalf` and `h` that of
/// `h264bsdInterpolateHorHalf` at row y0 + 2 + `off`, the output `q` of
/// `h264bsdInterpolateMidVerQuarter` is their average, sample by sample.
pub proof fn lemma_mid_ver_quarter_averages(
    f: spec_fn(int, int) -> int,
    x0: int,
    y0: int,
    pw: int,
    ph: int,
    off: int,
    q: Seq<u8>,
    qOff: int,
    j: Seq<u8>,
    jOff: int,
    h: Seq<u8>,
    hOff: int,
)
    requires
        forall|px: int, py: int|
            0 <= px < pw && 0 <= py < ph ==> #[trigger] mb_at(q, qOff, px, py) == mid_ver_quarter(f, x0 + px, y0 + py, off),
        forall|px: int, py: int|
            0 <= px < pw && 0 <= py < ph ==> #[trigger] mb_at(j, jOff, px, py) == mid_half(f, x0 + px, y0 + py),
        forall|px: int, py: int|
            0 <= px < pw && 0 <= py < ph ==> #[trigger] mb_at(h, hOff, px, py) == hor_half(f, x0 + px, y0 + 2 + off + py),
    ensures
        forall|px: int, py: int|
            0 <= px < pw && 0 <= py < ph ==> #[trigger] mb_at(q, qOff, px, py) == (mb_at(j, jOff, px, py) + mb_at(
                h,
                hOff,
                px,
                py,
            ) + 1) / 2,
{
    assert forall|px: int, py: int| 0 <= px < pw && 0 <= py < ph implies #[trigger] mb_at(q, qOff, px, py) == (mb_at(
        j,
        jOff,
        px,
        py,
    ) + mb_at(h, hOff, px, py) + 1) / 2 by {
        assert(mb_at(j, jOff, px, py) == mid_half(f, x0 + px, y0 + py));
        assert(mb_at(h, hOff, px, py) == hor_half(f, x0 + px, y0 + py + 2 + off));
    }
}

/// Quarter samples 'e', 'g', 'p' and 'r' are the rounded average of a
/// horizontal and a vertical half sample: with `h` holding the output of
/// `h264bsdInterpolateHorHalf` at row y0 + 2 + `off` / 2 and `v` that of
/// `h264bsdInterpolateVerHalf` at column x0 + 2 + `off` % 2, the output `q`
/// of `h264bsdInterpolateHorVerQuarter` is their average, sample by sample.
pub proof fn lemma_hor_ver_quarter_averages(
    f: spec_fn(int, int) -> int,
    x0: int,
    y0: int,
    pw: int,
    ph: int,
    off: int,
    q: Seq<u8>,
    qOff: int,
    h: Seq<u8>,
    hOff: int,
    v: Seq<u8>,
    vOff: int,
)
    requires
        forall|px: int, py: int|
            0 <= px < pw && 0 <= py < ph ==> #[trigger] mb_at(q, qOff, px, py) == hor_ver_quarter(f, x0 + px, y0 + py, off),
        forall|px: int, py: int|
            0 <= px < pw && 0 <= py < ph ==> #[trigger] mb_at(h, hOff, px, py) == hor_half(f, x0 + px, y0 + 2 + off / 2 + py),
        forall|px: int, py: int|
            0 <= px < pw && 0 <= py < ph ==> #[trigger] mb_at(v, vOff, px, py) == ver_half(f, x0 + 2 + off % 2 + px, y0 + py),
    ensures
        forall|px: int, py: int|
            0 <= px < pw && 0 <= py < ph ==> #[trigger] mb_at(q, qOff, px, py) == (mb_at(h, hOff, px, py) + mb_at(
                v,
                vOff,
                px,
                py,
            ) + 1) / 2,
{
    assert forall|px: int, py: int| 0 <= px < pw && 0 <= py < ph implies #[trigger] mb_at(q, qOff, px, py) == (mb_at(
        h,
        hOff,
        px,
        py,
    ) + mb_at(v, vOff, px, py) + 1) / 2 by {
        assert(mb_at(h, hOff, px, py) == hor_half(f, x0 + px, y0 + py + 2 + off / 2));
        assert(mb_at(v, vOff, px, py) == ver_half(f, x0 + px + 2 + off % 2, y0 + py));
    }
}

/// Quarter sample 'i' (`horOffset` 0) or 'k' (1) for a partition.
/// The result goes to `mb` from `mbOff` on, in rows of 16.
pub fn h264bsdInterpolateMidHorQuarter(
    ref_: &[u8],
    refBase: usize,
    mb: &mut [u8],
    mbOff: usize,
    x0: i32,
    y0: i32,
    width: u32,
    height: u32,
    partWidth: u32,
    partHeight: u32,
    horOffset: u32,
)
    requires
        luma_args(
            ref_@,
            refBase as int,
            old(mb).len() as int,
            mbOff as int,
            x0 as int,
            y0 as int,
            width as int,
            height as int,
            partWidth as int,
            partHeight as int,
        ),
        horOffset < 2,
    ensures
        final(mb).len() == old(mb).len(),
        forall|px: int, py: int|
            0 <= px < partWidth && 0 <= py < partHeight ==> #[trigger] mb_at(final(mb)@, mbOff as int, px, py)
                == mid_hor_quarter(plane_fn(ref_@, refBase as int, width as int, height as int), x0 + px, y0 + py, horOffset as int),
        forall|k: int|
            0 <= k < old(mb).len() && !in_block(k, 16, mbOff as int, partWidth as int, partHeight as int) ==> final(mb)@[k]
                == old(mb)@[k],
{
    interp_luma(ref_, refBase, mb, mbOff, x0, y0, width, height, partWidth, partHeight, 7, horOffset);
}

/// Chroma sample at (x + xf / 8, y + yf / 8): the bilinear mean of the
/// four surrounding samples, rounded.
pub open spec fn chroma_pred(f: spec_fn(int, int) -> int, x: int, y: int, xf: int, yf: int) -> int {
    ((8 - xf) * ((8 - yf) * f(x, y) + yf * f(x, y + 1)) + xf * ((8 - yf) * f(x + 1, y) + yf * f(x + 1, y + 1)) + 32) / 64
}

/// Sample (x, y) of a chroma block array with rows of 8 from `off` on.
pub open spec fn at8(s: Seq<u8>, off: int, x: int, y: int) -> int {
    s[off + 8 * y + x] as int
}

/// 1 when `v` is non-zero.
pub open spec fn nz(v: int) -> int {
    if v != 0 {
        1
    } else {
        0
    }
}

/// One interpolated chroma sample from the window of `src` at `pos`,
/// which agrees with `f` at (x, y).
fn chroma_px(
    src: &[u8],
    stride: usize,
    pos: usize,
    xf: u32,
    yf: u32,
    Ghost(f): Ghost<spec_fn(int, int) -> int>,
    Ghost(x): Ghost<int>,
    Ghost(y): Ghost<int>,
) -> (r: u8)
    requires
        xf < 8,
        yf < 8,
        block_fits(src.len() as int, stride as int, pos as int, 1 + nz(xf as int), 1 + nz(yf as int)),
        agrees(buf_fn(src@, stride as int, pos as int), f, x, y, 1 + nz(xf as int), 1 + nz(yf as int)),
    ensures
        r as int == chroma_pred(f, x, y, xf as int, yf as int),
{
    let ghost g = buf_fn(src@, stride as int, pos as int);
    proof {
        if xf != 0 {
            assert(nz(xf as int) == 1);
        }
        if yf != 0 {
            assert(nz(yf as int) == 1);
            assert((1 + nz(yf as int) - 1) * stride == stride) by (nonlinear_arith)
                requires
                    nz(yf as int) == 1,
            ;
        }
    }
    let a = src[pos] as u32;
    assert(g(0, 0) == f(x, y));
    assert(a as int == f(x, y)) by {
        assert(pos + 0 * stride + 0 == pos);
    }
    let b: u32 = if xf != 0 {
        assert(g(1, 0) == f(x + 1, y));
        src[pos + 1] as u32
    } else {
        0
    };
    let c: u32 = if yf != 0 {
        assert(g(0, 1) == f(x, y + 1));
        src[pos + stride] as u32
    } else {
        0
    };
    let d: u32 = if xf != 0 && yf != 0 {
        assert(g(1, 1) == f(x + 1, y + 1));
        src[pos + stride + 1] as u32
    } else {
        0
    };
    let vx = 8 - xf;
    let vy = 8 - yf;
    proof {
        assert(vy * a + yf * c <= 8 * 255 && vy * b + yf * d <= 8 * 255) by (nonlinear_arith)
            requires
                vy + yf == 8,
                a <= 255,
                b <= 255,
                c <= 255,
                d <= 255,
        ;
        assert(vx * (vy * a + yf * c) + xf * (vy * b + yf * d) <= 64 * 255) by (nonlinear_arith)
            requires
                vx + xf == 8,
                vy * a + yf * c <= 8 * 255,
                vy * b + yf * d <= 8 * 255,
        ;
        let lft = (8 - yf) * f(x, y) + yf * f(x, y + 1);
        let rgt = (8 - yf) * f(x + 1, y) + yf * f(x + 1, y + 1);
        if yf == 0 {
            assert(vy * a + yf * c == lft) by (nonlinear_arith)
                requires
                    yf == 0,
                    vy == 8,
                    a == f(x, y),
                    lft == (8 - yf) * f(x, y) + yf * f(x, y + 1),
            ;
        } else {
            assert(vy * a + yf * c == lft);
        }
        if xf != 0 {
            if yf == 0 {
                assert(vy * b + yf * d == rgt) by (nonlinear_arith)
                    requires
                        yf == 0,
                        vy == 8,
                        b == f(x + 1, y),
                        rgt == (8 - yf) * f(x + 1, y) + yf * f(x + 1, y + 1),
                ;
            } else {
                assert(vy * b + yf * d == rgt);
            }
        } else {
            assert(xf * (vy * b + yf * d) == 0 && xf * rgt == 0) by (nonlinear_arith)
                requires
                    xf == 0,
            ;
        }
    }
    let v = vx * (vy * a + yf * c) + xf * (vy * b + yf * d) + 32;
    (v / 64) as u8
}

/// Bilinear interpolation of a `cw` x `ch` chroma block into `out` from
/// `outOff` on, in rows of 8, from the window of `src` at `base`, which
/// agrees with `f` at (x0, y0).
fn chroma_block(
    src: &[u8],
    stride: usize,
    base: usize,
    out: &mut [u8],
    outOff: usize,
    cw: u32,
    ch: u32,
    xf: u32,
    yf: u32,
    Ghost(f): Ghost<spec_fn(int, int) -> int>,
    Ghost(x0): Ghost<int>,
    Ghost(y0): Ghost<int>,
)
    requires
        xf < 8,
        yf < 8,
        1 <= cw <= 8,
        1 <= ch <= 8,
        block_fits(src.len() as int, stride as int, base as int, cw + nz(xf as int), ch + nz(yf as int)),
        agrees(buf_fn(src@, stride as int, base as int), f, x0, y0, cw + nz(xf as int), ch + nz(yf as int)),
        block_fits(old(out).len() as int, 8, outOff as int, cw as int, ch as int),
    ensures
        final(out).len() == old(out).len(),
        forall|px: int, py: int|
            0 <= px < cw && 0 <= py < ch ==> #[trigger] at8(final(out)@, outOff as int, px, py) == chroma_pred(
                f,
                x0 + px,
                y0 + py,
                xf as int,
                yf as int,
            ),
        forall|k: int| 0 <= k < old(out).len() && !in_block(k, 8, outOff as int, cw as int, ch as int) ==> final(out)@[k] == old(out)@[k],
{
    let ghost m0 = out@;
    let ghost bw = cw + nz(xf as int);
    let ghost bh = ch + nz(yf as int);
    let ghost sw = 1 + nz(xf as int);
    let ghost sh = 1 + nz(yf as int);
    let mut py: u32 = 0;
    while py < ch
        invariant
            py <= ch,
            xf < 8,
            yf < 8,
            1 <= cw <= 8,
            1 <= ch <= 8,
            bw == cw + nz(xf as int),
            bh == ch + nz(yf as int),
            sw == 1 + nz(xf as int),
            sh == 1 + nz(yf as int),
            block_fits(src.len() as int, stride as int, base as int, bw, bh),
            agrees(buf_fn(src@, stride as int, base as int), f, x0, y0, bw, bh),
            block_fits(m0.len() as int, 8, outOff as int, cw as int, ch as int),
            out.len() == m0.len(),
            forall|px: int, qy: int|
                0 <= px < cw && 0 <= qy < py ==> #[trigger] at8(out@, outOff as int, px, qy) == chroma_pred(
                    f,
                    x0 + px,
                    y0 + qy,
                    xf as int,
                    yf as int,
                ),
            forall|k: int| 0 <= k < m0.len() && !in_block(k, 8, outOff as int, cw as int, ch as int) ==> out@[k] == m0[k],
        decreases ch - py,
    {
        proof {
            lemma_block_index(stride as int, base as int, bw, bh, 0, py as int);
            lemma_block_index(8, outOff as int, cw as int, ch as int, 0, py as int);
        }
        let rowBase = base + py as usize * stride;
        let outRow = outOff + py as usize * 8;
        let mut px: u32 = 0;
        while px < cw
            invariant
                py < ch,
                px <= cw,
                xf < 8,
                yf < 8,
                1 <= cw <= 8,
                1 <= ch <= 8,
                bw == cw + nz(xf as int),
                bh == ch + nz(yf as int),
                sw == 1 + nz(xf as int),
                sh == 1 + nz(yf as int),
                rowBase == base + py * stride,
                outRow == outOff + py * 8,
                block_fits(src.len() as int, stride as int, base as int, bw, bh),
                agrees(buf_fn(src@, stride as int, base as int), f, x0, y0, bw, bh),
                block_fits(m0.len() as int, 8, outOff as int, cw as int, ch as int),
                out.len() == m0.len(),
                forall|qx: int, qy: int|
                    0 <= qx < cw && 0 <= qy < py ==> #[trigger] at8(out@, outOff as int, qx, qy) == chroma_pred(
                        f,
                        x0 + qx,
                        y0 + qy,
                        xf as int,
                        yf as int,
                    ),
                forall|qx: int| 0 <= qx < px ==> #[trigger] at8(out@, outOff as int, qx, py as int) == chroma_pred(
                    f,
                    x0 + qx,
                    y0 + py,
                    xf as int,
                    yf as int,
                ),
                forall|k: int| 0 <= k < m0.len() && !in_block(k, 8, outOff as int, cw as int, ch as int) ==> out@[k] == m0[k],
            decreases cw - px,
        {
            proof {
                lemma_block_index(stride as int, base as int, bw, bh, px as int, py as int);
            }
            let pos = rowBase + px as usize;
            proof {
                lemma_local_agrees(src@, stride as int, base as int, f, x0, y0, bw, bh, px as int, py as int, sw, sh);
                assert(pos + (sh - 1) * stride + sw <= base + (bh - 1) * stride + bw) by (nonlinear_arith)
                    requires
                        pos == base + py * stride + px,
                        py + sh <= bh,
                        px + sw <= bw,
                        1 <= stride,
                ;
                lemma_block_index(8, outOff as int, cw as int, ch as int, px as int, py as int);
                lemma_in_block(8, outOff as int, cw as int, ch as int, px as int, py as int);
            }
            let v = chroma_px(src, stride, pos, xf, yf, Ghost(f), Ghost(x0 + px), Ghost(y0 + py));
            let ghost o1 = out@;
            out[outRow + px as usize] = v;
            proof {
                assert forall|qx: int, qy: int|
                    0 <= qx < cw && 0 <= qy < py implies #[trigger] at8(out@, outOff as int, qx, qy) == chroma_pred(
                    f,
                    x0 + qx,
                    y0 + qy,
                    xf as int,
                    yf as int,
                ) by {
                    assert(at8(o1, outOff as int, qx, qy) == chroma_pred(f, x0 + qx, y0 + qy, xf as int, yf as int));
                    assert(outOff + 8 * qy + qx < outRow) by (nonlinear_arith)
                        requires
                            outRow == outOff + py * 8,
                            qy < py,
                            qx < 8,
                    ;
                }
                assert forall|qx: int| 0 <= qx < px + 1 implies #[trigger] at8(out@, outOff as int, qx, py as int) == chroma_pred(
                    f,
                    x0 + qx,
                    y0 + py,
                    xf as int,
                    yf as int,
                ) by {
                    if qx < px {
                        assert(at8(o1, outOff as int, qx, py as int) == chroma_pred(f, x0 + qx, y0 + py, xf as int, yf as int));
                    }
                }
            }
            px += 1;
        }
        py += 1;
    }
}

/// Arguments of the chroma interpolations: the Cb plane at `base` and the
/// Cr plane after it, a block position within reach and two `cw` x `ch`
/// output blocks (Cb at `outOff`, Cr 64 further) in rows of 8.
pub open spec fn chroma_args(
    p: Seq<u8>,
    base: int,
    outLen: int,
    outOff: int,
    x0: int,
    y0: int,
    width: int,
    height: int,
    cw: int,
    ch: int,
) -> bool {
    &&& plane_ok(p, base, width, height)
    &&& plane_ok(p, base + width * height, width, height)
    &&& width <= 0x10000
    &&& height <= 0x10000
    &&& -0x100000 <= x0 <= 0x100000
    &&& -0x100000 <= y0 <= 0x100000
    &&& 1 <= cw <= 8
    &&& 1 <= ch <= 8
    &&& block_fits(outLen, 8, outOff, cw, ch)
    &&& block_fits(outLen, 8, outOff + 64, cw, ch)
}

/// One chroma component: from the plane in place where the block lies
/// inside it, else from a filled copy.
fn chroma_comp(
    ref_: &[u8],
    planeBase: usize,
    out: &mut [u8],
    outOff: usize,
    x0: i32,
    y0: i32,
    width: u32,
    height: u32,
    xFrac: u32,
    yFrac: u32,
    cw: u32,
    ch: u32,
)
    requires
        plane_ok(ref_@, planeBase as int, width as int, height as int),
        width <= 0x10000,
        height <= 0x10000,
        -0x100000 <= x0 <= 0x100000,
        -0x100000 <= y0 <= 0x100000,
        1 <= cw <= 8,
        1 <= ch <= 8,
        xFrac < 8,
        yFrac < 8,
        block_fits(old(out).len() as int, 8, outOff as int, cw as int, ch as int),
    ensures
        final(out).len() == old(out).len(),
        forall|px: int, py: int|
            0 <= px < cw && 0 <= py < ch ==> #[trigger] at8(final(out)@, outOff as int, px, py) == chroma_pred(
                plane_fn(ref_@, planeBase as int, width as int, height as int),
                x0 + px,
                y0 + py,
                xFrac as int,
                yFrac as int,
            ),
        forall|k: int| 0 <= k < old(out).len() && !in_block(k, 8, outOff as int, cw as int, ch as int) ==> final(out)@[k] == old(out)@[k],
{
    let ghost f = plane_fn(ref_@, planeBase as int, width as int, height as int);
    let bw = cw + if xFrac != 0 {
        1
    } else {
        0
    };
    let bh = ch + if yFrac != 0 {
        1
    } else {
        0
    };
    if x0 < 0 || x0 as u32 + bw > width || y0 < 0 || y0 as u32 + bh > height {
        let mut block: [u8; 81] = [0; 81];
        proof {
            assert((bh - 1) * bw + bw <= 81) by (nonlinear_arith)
                requires
                    1 <= bw <= 9,
                    1 <= bh <= 9,
            ;
        }
        h264bsdFillBlock(ref_, planeBase, &mut block, 0, x0, y0, width, height, bw, bh, bw);
        chroma_block(&block, bw as usize, 0, out, outOff, cw, ch, xFrac, yFrac, Ghost(f), Ghost(x0 as int), Ghost(y0 as int));
    } else {
        proof {
            lemma_window_in_place(ref_@, planeBase as int, width as int, height as int, x0 as int, y0 as int, bw as int, bh as int);
        }
        let yu = y0 as usize;
        let wu = width as usize;
        let rlen = ref_.len();
        proof {
            assert(yu * wu + wu <= wu * (height as int)) by (nonlinear_arith)
                requires
                    yu + 1 <= height,
                    1 <= wu,
            ;
        }
        let base = planeBase + yu * wu + x0 as usize;
        chroma_block(ref_, width as usize, base, out, outOff, cw, ch, xFrac, yFrac, Ghost(f), Ghost(x0 as int), Ghost(y0 as int));
    }
}

/// Both chroma components, Cb into the block at `outOff` and Cr into the
/// one 64 further.
fn interp_chroma(
    ref_: &[u8],
    refBase: usize,
    out: &mut [u8],
    outOff: usize,
    x0: i32,
    y0: i32,
    width: u32,
    height: u32,
    xFrac: u32,
    yFrac: u32,
    cw: u32,
    ch: u32,
)
    requires
        chroma_args(
            ref_@,
            refBase as int,
            old(out).len() as int,
            outOff as int,
            x0 as int,
            y0 as int,
            width as int,
            height as int,
            cw as int,
            ch as int,
        ),
        xFrac < 8,
        yFrac < 8,
    ensures
        final(out).len() == old(out).len(),
        forall|comp: int, px: int, py: int|
            0 <= comp < 2 && 0 <= px < cw && 0 <= py < ch ==> #[trigger] at8(final(out)@, outOff + 64 * comp, px, py)
                == chroma_pred(
                plane_fn(ref_@, refBase + comp * (width * height), width as int, height as int),
                x0 + px,
                y0 + py,
                xFrac as int,
                yFrac as int,
            ),
        forall|k: int|
            0 <= k < old(out).len() && !in_block(k, 8, outOff as int, cw as int, ch as int) && !in_block(
                k,
                8,
                outOff + 64,
                cw as int,
                ch as int,
            ) ==> final(out)@[k] == old(out)@[k],
{
    let ghost o0 = out@;
    chroma_comp(ref_, refBase, out, outOff, x0, y0, width, height, xFrac, yFrac, cw, ch);
    let ghost o1 = out@;
    let rlen = ref_.len();
    let wu = width as usize;
    let hu = height as usize;
    proof {
        assert(wu * hu == (width as int) * (height as int));
    }
    let crBase = refBase + wu * hu;
    chroma_comp(ref_, crBase, out, outOff + 64, x0, y0, width, height, xFrac, yFrac, cw, ch);
    proof {
        assert forall|comp: int, px: int, py: int|
            0 <= comp < 2 && 0 <= px < cw && 0 <= py < ch implies #[trigger] at8(out@, outOff + 64 * comp, px, py) == chroma_pred(
            plane_fn(ref_@, refBase + comp * (width * height), width as int, height as int),
            x0 + px,
            y0 + py,
            xFrac as int,
            yFrac as int,
        ) by {
            if comp == 0 {
                assert(at8(o1, outOff as int, px, py) == chroma_pred(
                    plane_fn(ref_@, refBase as int, width as int, height as int),
                    x0 + px,
                    y0 + py,
                    xFrac as int,
                    yFrac as int,
                ));
                assert(outOff + 8 * py + px < outOff + 64);
            } else {
                assert(at8(out@, (outOff + 64) as int, px, py) == chroma_pred(
                    plane_fn(ref_@, crBase as int, width as int, height as int),
                    x0 + px,
                    y0 + py,
                    xFrac as int,
                    yFrac as int,
                ));
            }
        }
    }
}

/// Horizontal chroma interpolation (`xFrac` eighths) of a `cw` x `ch`
/// block of both chroma components (Cb at `refBase`, Cr after it) into
/// `predPartChroma` (Cb at `predOff`, Cr 64 further, rows of 8).
pub fn h264bsdInterpolateChromaHor(
    pRef: &[u8],
    refBase: usize,
    predPartChroma: &mut [u8],
    predOff: usize,
    x0: i32,
    y0: i32,
    width: u32,
    height: u32,
    xFrac: u32,
    chromaPartWidth: u32,
    chromaPartHeight: u32,
)
    requires
        chroma_args(
            pRef@,
            refBase as int,
            old(predPartChroma).len() as int,
            predOff as int,
            x0 as int,
            y0 as int,
            width as int,
            height as int,
            chromaPartWidth as int,
            chromaPartHeight as int,
        ),
        xFrac < 8,
    ensures
        final(predPartChroma).len() == old(predPartChroma).len(),
        forall|comp: int, px: int, py: int|
            0 <= comp < 2 && 0 <= px < chromaPartWidth && 0 <= py < chromaPartHeight ==> #[trigger] at8(
                final(predPartChroma)@,
                predOff + 64 * comp,
                px,
                py,
            ) == chroma_pred(
                plane_fn(pRef@, refBase + comp * (width * height), width as int, height as int),
                x0 + px,
                y0 + py,
                xFrac as int,
                0,
            ),
        forall|k: int|
            0 <= k < old(predPartChroma).len() && !in_block(k, 8, predOff as int, chromaPartWidth as int, chromaPartHeight as int)
                && !in_block(k, 8, predOff + 64, chromaPartWidth as int, chromaPartHeight as int) ==> final(predPartChroma)@[k]
                == old(predPartChroma)@[k],
{
    interp_chroma(pRef, refBase, predPartChroma, predOff, x0, y0, width, height, xFrac, 0, chromaPartWidth, chromaPartHeight);
}

/// Vertical chroma interpolation (`yFrac` eighths) of a block of both
/// chroma components.
pub fn h264bsdInterpolateChromaVer(
    pRef: &[u8],
    refBase: usize,
    predPartChroma: &mut [u8],
    predOff: usize,
    x0: i32,
    y0: i32,
    width: u32,
    height: u32,
    yFrac: u32,
    chromaPartWidth: u32,
    chromaPartHeight: u32,
)
    requires
        chroma_args(
            pRef@,
            refBase as int,
            old(predPartChroma).len() as int,
            predOff as int,
            x0 as int,
            y0 as int,
            width as int,
            height as int,
            chromaPartWidth as int,
            chromaPartHeight as int,
        ),
        yFrac < 8,
    ensures
        final(predPartChroma).len() == old(predPartChroma).len(),
        forall|comp: int, px: int, py: int|
            0 <= comp < 2 && 0 <= px < chromaPartWidth && 0 <= py < chromaPartHeight ==> #[trigger] at8(
                final(predPartChroma)@,
                predOff + 64 * comp,
                px,
                py,
            ) == chroma_pred(
                plane_fn(pRef@, refBase + comp * (width * height), width as int, height as int),
                x0 + px,
                y0 + py,
                0,
                yFrac as int,
            ),
        forall|k: int|
            0 <= k < old(predPartChroma).len() && !in_block(k, 8, predOff as int, chromaPartWidth as int, chromaPartHeight as int)
                && !in_block(k, 8, predOff + 64, chromaPartWidth as int, chromaPartHeight as int) ==> final(predPartChroma)@[k]
                == old(predPartChroma)@[k],
{
    interp_chroma(pRef, refBase, predPartChroma, predOff, x0, y0, width, height, 0, yFrac, chromaPartWidth, chromaPartHeight);
}

/// Horizontal and vertical chroma interpolation of a block of both chroma
/// components.
pub fn h264bsdInterpolateChromaHorVer(
    ref_: &[u8],
    refBase: usize,
    predPartChroma: &mut [u8],
    predOff: usize,
    x0: i32,
    y0: i32,
    width: u32,
    height: u32,
    xFrac: u32,
    yFrac: u32,
    chromaPartWidth: u32,
    chromaPartHeight: u32,
)
    requires
        chroma_args(
            ref_@,
            refBase as int,
            old(predPartChroma).len() as int,
            predOff as int,
            x0 as int,
            y0 as int,
            width as int,
            height as int,
            chromaPartWidth as int,
            chromaPartHeight as int,
        ),
        xFrac < 8,
        yFrac < 8,
    ensures
        final(predPartChroma).len() == old(predPartChroma).len(),
        forall|comp: int, px: int, py: int|
            0 <= comp < 2 && 0 <= px < chromaPartWidth && 0 <= py < chromaPartHeight ==> #[trigger] at8(
                final(predPartChroma)@,
                predOff + 64 * comp,
                px,
                py,
            ) == chroma_pred(
                plane_fn(ref_@, refBase + comp * (width * height), width as int, height as int),
                x0 + px,
                y0 + py,
                xFrac as int,
                yFrac as int,
            ),
        forall|k: int|
            0 <= k < old(predPartChroma).len() && !in_block(k, 8, predOff as int, chromaPartWidth as int, chromaPartHeight as int)
                && !in_block(k, 8, predOff + 64, chromaPartWidth as int, chromaPartHeight as int) ==> final(predPartChroma)@[k]
                == old(predPartChroma)@[k],
{
    interp_chroma(ref_, refBase, predPartChroma, predOff, x0, y0, width, height, xFrac, yFrac, chromaPartWidth, chromaPartHeight);
}

/// Luma sample at (x + xf / 4, y + yf / 4) for quarter sample fractions
/// `xf` and `yf`, by the position's interpolation: integer sample 'G',
/// vertical 'd', 'h', 'n', horizontal 'a', 'b', 'c', centre 'j' and the
/// quarter positions around it.
pub open spec fn luma_pred(f: spec_fn(int, int) -> int, x: int, y: int, xf: int, yf: int) -> int {
    if xf == 0 && yf == 0 {
        f(x, y)
    } else if xf == 0 {
        if yf == 2 {
            ver_half(f, x, y - 2)
        } else {
            ver_quarter(f, x, y - 2, if yf == 1 { 0 } else { 1 })
        }
    } else if yf == 0 {
        if xf == 2 {
            hor_half(f, x - 2, y)
        } else {
            hor_quarter(f, x - 2, y, if xf == 1 { 0 } else { 1 })
        }
    } else if xf == 2 && yf == 2 {
        mid_half(f, x - 2, y - 2)
    } else if xf == 2 {
        mid_ver_quarter(f, x - 2, y - 2, if yf == 1 { 0 } else { 1 })
    } else if yf == 2 {
        mid_hor_quarter(f, x - 2, y - 2, if xf == 1 { 0 } else { 1 })
    } else {
        hor_ver_quarter(f, x - 2, y - 2, (if xf == 3 { 1int } else { 0int }) + (if yf == 3 { 2int } else { 0int }))
    }
}

/// Arithmetic shift and mask of a motion vector component: the integer
/// part and the fraction in units of 2^k.
fn mv_parts(v: i16, k: u32) -> (r: (i32, u32))
    requires
        k == 2 || k == 3,
    ensures
        k == 2 ==> r.0 == v as int / 4 && r.1 == v as int % 4,
        k == 3 ==> r.0 == v as int / 8 && r.1 == v as int % 8,
{
    let w = v as i32;
    if k == 2 {
        let q = w >> 2;
        let m = w & 3;
        assert(q == w / 4 && m == w % 4) by (bit_vector)
            requires
                q == w >> 2,
                m == w & 3,
        ;
        (q, m as u32)
    } else {
        let q = w >> 3;
        let m = w & 7;
        assert(q == w / 8 && m == w % 8) by (bit_vector)
            requires
                q == w >> 3,
                m == w & 7,
        ;
        (q, m as u32)
    }
}

/// Chroma prediction of a partition (`partWidth` x `partHeight` luma
/// samples at luma position (xAL, yAL)) for both chroma components into
/// `data` (Cb from `chromaOff` on, Cr 64 further, rows of 8).
pub fn PredictChroma(
    data: &mut [u8],
    chromaOff: usize,
    xAL: u32,
    yAL: u32,
    partWidth: u32,
    partHeight: u32,
    mv: &mv_t,
    refData: &[u8],
    picWidth: u32,
    picHeight: u32,
)
    requires
        1 <= picWidth <= 4096,
        1 <= picHeight <= 4096,
        refData.len() == 384 * picWidth * picHeight,
        xAL <= 0x10000,
        yAL <= 0x10000,
        2 <= partWidth <= 16,
        2 <= partHeight <= 16,
        block_fits(old(data).len() as int, 8, chromaOff as int, partWidth as int / 2, partHeight as int / 2),
        block_fits(old(data).len() as int, 8, chromaOff + 64, partWidth as int / 2, partHeight as int / 2),
    ensures
        final(data).len() == old(data).len(),
        forall|comp: int, px: int, py: int|
            0 <= comp < 2 && 0 <= px < partWidth as int / 2 && 0 <= py < partHeight as int / 2 ==> #[trigger] at8(
                final(data)@,
                chromaOff + 64 * comp,
                px,
                py,
            ) == chroma_pred(
                plane_fn(
                    refData@,
                    256 * picWidth * picHeight + comp * (64 * picWidth * picHeight),
                    8 * picWidth,
                    8 * picHeight,
                ),
                xAL as int / 2 + mv.hor as int / 8 + px,
                yAL as int / 2 + mv.ver as int / 8 + py,
                mv.hor as int % 8,
                mv.ver as int % 8,
            ),
        forall|k: int|
            0 <= k < old(data).len() && !in_block(k, 8, chromaOff as int, partWidth as int / 2, partHeight as int / 2) && !in_block(
                k,
                8,
                chromaOff + 64,
                partWidth as int / 2,
                partHeight as int / 2,
            ) ==> final(data)@[k] == old(data)@[k],
{
    let width = 8 * picWidth;
    let height = 8 * picHeight;
    let (xq, xFrac) = mv_parts(mv.hor, 3);
    let (yq, yFrac) = mv_parts(mv.ver, 3);
    proof {
        assert(xAL >> 1u32 == xAL / 2 && yAL >> 1u32 == yAL / 2) by (bit_vector);
    }
    let xInt = (xAL >> 1) as i32 + xq;
    let yInt = (yAL >> 1) as i32 + yq;
    let chromaPartWidth = partWidth >> 1;
    let chromaPartHeight = partHeight >> 1;
    let ref_ = refData;
    let ghost w = picWidth as int;
    let ghost h = picHeight as int;
    proof {
        assert(xAL >> 1u32 == xAL as int / 2 && yAL >> 1u32 == yAL as int / 2) by (bit_vector);
        assert(partWidth >> 1u32 == partWidth as int / 2 && partHeight >> 1u32 == partHeight as int / 2) by (bit_vector);
        assert(width * height == 64 * w * h && 256 * w * h + width * height == 256 * w * h + 64 * w * h) by (nonlinear_arith)
            requires
                width == 8 * w,
                height == 8 * h,
        ;
        assert(256 * w * h + 2 * (64 * w * h) == 384 * w * h) by (nonlinear_arith);
        assert(64 * w * h <= 64 * 4096 * 4096) by (nonlinear_arith)
            requires
                1 <= w <= 4096,
                1 <= h <= 4096,
        ;
    }
    let refBase = 256 * picWidth as usize * picHeight as usize;
    if xFrac != 0 && yFrac != 0 {
        h264bsdInterpolateChromaHorVer(ref_, refBase, data, chromaOff, xInt, yInt, width, height, xFrac, yFrac, chromaPartWidth, chromaPartHeight);
    } else if xFrac != 0 {
        h264bsdInterpolateChromaHor(ref_, refBase, data, chromaOff, xInt, yInt, width, height, xFrac, chromaPartWidth, chromaPartHeight);
    } else if yFrac != 0 {
        h264bsdInterpolateChromaVer(ref_, refBase, data, chromaOff, xInt, yInt, width, height, yFrac, chromaPartWidth, chromaPartHeight);
    } else {
        let ghost d0 = data@;
        h264bsdFillBlock(ref_, refBase, data, chromaOff, xInt, yInt, width, height, chromaPartWidth, chromaPartHeight, 8);
        let ghost d1 = data@;
        let crBase = refBase + width as usize * height as usize;
        h264bsdFillBlock(ref_, crBase, data, chromaOff + 64, xInt, yInt, width, height, chromaPartWidth, chromaPartHeight, 8);
        proof {
            assert forall|comp: int, px: int, py: int|
                0 <= comp < 2 && 0 <= px < partWidth as int / 2 && 0 <= py < partHeight as int / 2 implies #[trigger] at8(
                data@,
                chromaOff + 64 * comp,
                px,
                py,
            ) == chroma_pred(
                plane_fn(ref_@, refBase + comp * (64 * w * h), 8 * w, 8 * h),
                xAL as int / 2 + mv.hor as int / 8 + px,
                yAL as int / 2 + mv.ver as int / 8 + py,
                mv.hor as int % 8,
                mv.ver as int % 8,
            ) by {
                let pf = plane_fn(ref_@, refBase + comp * (64 * w * h), 8 * w, 8 * h);
                let v = pf(xInt + px, yInt + py);
                assert((64 * v + 32) / 64 == v);
                if comp == 0 {
                    assert(buf_fn(d1, 8, chromaOff as int)(px, py) == pf(xInt + px, yInt + py));
                    assert(chromaOff + 8 * py + px < chromaOff + 64);
                } else {
                    assert(buf_fn(data@, 8, chromaOff + 64)(px, py) == pf(xInt + px, yInt + py));
                }
            }
            assert forall|k: int|
                0 <= k < d0.len() && !in_block(k, 8, chromaOff as int, partWidth as int / 2, partHeight as int / 2) && !in_block(
                k,
                8,
                chromaOff + 64,
                partWidth as int / 2,
                partHeight as int / 2,
            ) implies data@[k] == d0[k] by {}
        }
    }
}

/// Luma prediction of a partition at (x0 + px, y0 + py) for fractions
/// xFrac, yFrac (quarter samples), into `data` from `off` on.
fn predict_luma(
    ref_: &[u8],
    data: &mut [u8],
    off: usize,
    xInt: i32,
    yInt: i32,
    xFrac: u32,
    yFrac: u32,
    width: u32,
    height: u32,
    partWidth: u32,
    partHeight: u32,
)
    requires
        luma_args(
            ref_@,
            0,
            old(data).len() as int,
            off as int,
            xInt as int,
            yInt as int,
            width as int,
            height as int,
            partWidth as int,
            partHeight as int,
        ),
        -0x100000 + 2 <= xInt,
        -0x100000 + 2 <= yInt,
        xFrac < 4,
        yFrac < 4,
    ensures
        final(data).len() == old(data).len(),
        forall|px: int, py: int|
            0 <= px < partWidth && 0 <= py < partHeight ==> #[trigger] mb_at(final(data)@, off as int, px, py) == luma_pred(
                plane_fn(ref_@, 0, width as int, height as int),
                xInt + px,
                yInt + py,
                xFrac as int,
                yFrac as int,
            ),
        forall|k: int|
            0 <= k < old(data).len() && !in_block(k, 16, off as int, partWidth as int, partHeight as int) ==> final(data)@[k]
                == old(data)@[k],
{
    let ghost f = plane_fn(ref_@, 0, width as int, height as int);
    if xFrac == 0 && yFrac == 0 {
        /* G */
        h264bsdFillBlock(ref_, 0, data, off, xInt, yInt, width, height, partWidth, partHeight, 16);
        assert forall|px: int, py: int| 0 <= px < partWidth && 0 <= py < partHeight implies #[trigger] mb_at(data@, off as int, px, py)
            == luma_pred(f, xInt + px, yInt + py, xFrac as int, yFrac as int) by {
            assert(buf_fn(data@, 16, off as int)(px, py) == f(xInt + px, yInt + py));
        }
    } else if xFrac == 0 {
        if yFrac == 2 {
            /* h */
            h264bsdInterpolateVerHalf(ref_, 0, data, off, xInt, yInt - 2, width, height, partWidth, partHeight);
        } else {
            /* d or n */
            h264bsdInterpolateVerQuarter(ref_, 0, data, off, xInt, yInt - 2, width, height, partWidth, partHeight, if yFrac == 1 { 0 } else { 1 });
        }
    } else if yFrac == 0 {
        if xFrac == 2 {
            /* b */
            h264bsdInterpolateHorHalf(ref_, 0, data, off, xInt - 2, yInt, width, height, partWidth, partHeight);
        } else {
            /* a or c */
            h264bsdInterpolateHorQuarter(ref_, 0, data, off, xInt - 2, yInt, width, height, partWidth, partHeight, if xFrac == 1 { 0 } else { 1 });
        }
    } else if xFrac == 2 && yFrac == 2 {
        /* j */
        h264bsdInterpolateMidHalf(ref_, 0, data, off, xInt - 2, yInt - 2, width, height, partWidth, partHeight);
    } else if xFrac == 2 {
        /* f or q */
        h264bsdInterpolateMidVerQuarter(ref_, 0, data, off, xInt - 2, yInt - 2, width, height, partWidth, partHeight, if yFrac == 1 { 0 } else { 1 });
    } else if yFrac == 2 {
        /* i or k */
        h264bsdInterpolateMidHorQuarter(ref_, 0, data, off, xInt - 2, yInt - 2, width, height, partWidth, partHeight, if xFrac == 1 { 0 } else { 1 });
    } else {
        /* e, g, p or r */
        let hv: u32 = (if xFrac == 3 { 1 } else { 0 }) + (if yFrac == 3 { 2 } else { 0 });
        h264bsdInterpolateHorVerQuarter(ref_, 0, data, off, xInt - 2, yInt - 2, width, height, partWidth, partHeight, hv);
    }
}

/// Prediction of a macroblock partition from the reference picture
/// samples `refData` (`picWidth` x `picHeight` macroblocks) with motion
/// vector `mv`: the `partWidth` x `partHeight` luma
/// samples at (partX, partY) of the macroblock at luma position (xA, yA),
/// into `data` (16 x 16 luma, then 8 x 8 Cb and 8 x 8 Cr), and the chroma
/// samples of the partition.
pub fn predict_samples_in(
    data: &mut [u8; 384],
    mv: &mv_t,
    refData: &[u8],
    picWidth: u32,
    picHeight: u32,
    xA: u32,
    yA: u32,
    partX: u32,
    partY: u32,
    partWidth: u32,
    partHeight: u32,
)
    requires
        1 <= picWidth <= 4096,
        1 <= picHeight <= 4096,
        refData.len() == 384 * picWidth * picHeight,
        xA <= 0xFFF0,
        yA <= 0xFFF0,
        2 <= partWidth,
        2 <= partHeight,
        partX + partWidth <= 16,
        partY + partHeight <= 16,
    ensures
        forall|px: int, py: int|
            0 <= px < partWidth && 0 <= py < partHeight ==> #[trigger] mb_at(final(data)@, 16 * partY + partX, px, py)
                == luma_pred(
                plane_fn(refData@, 0, 16 * picWidth, 16 * picHeight),
                xA + partX + mv.hor as int / 4 + px,
                yA + partY + mv.ver as int / 4 + py,
                mv.hor as int % 4,
                mv.ver as int % 4,
            ),
        forall|comp: int, px: int, py: int|
            0 <= comp < 2 && 0 <= px < partWidth as int / 2 && 0 <= py < partHeight as int / 2 ==> #[trigger] at8(
                final(data)@,
                256 + 8 * (partY as int / 2) + partX as int / 2 + 64 * comp,
                px,
                py,
            ) == chroma_pred(
                plane_fn(
                    refData@,
                    256 * picWidth * picHeight + comp * (64 * picWidth * picHeight),
                    8 * picWidth,
                    8 * picHeight,
                ),
                (xA + partX) / 2 + mv.hor as int / 8 + px,
                (yA + partY) / 2 + mv.ver as int / 8 + py,
                mv.hor as int % 8,
                mv.ver as int % 8,
            ),
        forall|k: int|
            0 <= k < 384 && !in_block(k, 16, 16 * partY + partX, partWidth as int, partHeight as int) && !in_block(
                k,
                8,
                256 + 8 * (partY as int / 2) + partX as int / 2,
                partWidth as int / 2,
                partHeight as int / 2,
            ) && !in_block(
                k,
                8,
                320 + 8 * (partY as int / 2) + partX as int / 2,
                partWidth as int / 2,
                partHeight as int / 2,
            ) ==> final(data)@[k] == old(data)@[k],
{
    let ghost d0 = data@;
    let (xq, xFrac) = mv_parts(mv.hor, 2);
    let (yq, yFrac) = mv_parts(mv.ver, 2);
    let width = 16 * picWidth;
    let height = 16 * picHeight;
    let xInt = (xA + partX) as i32 + xq;
    let yInt = (yA + partY) as i32 + yq;
    let lumaOff = (16 * partY + partX) as usize;
    proof {
        let w = picWidth as int;
        let h = picHeight as int;
        assert(width * height <= 384 * w * h) by (nonlinear_arith)
            requires
                width == 16 * w,
                height == 16 * h,
                1 <= w,
                1 <= h,
        ;
        assert(lumaOff + (partHeight - 1) * 16 + partWidth <= 256) by (nonlinear_arith)
            requires
                lumaOff == 16 * partY + partX,
                partY + partHeight <= 16,
                partX + partWidth <= 16,
                2 <= partHeight,
        ;
    }
    let ghost dl = data@;
    predict_luma(refData, data, lumaOff, xInt, yInt, xFrac, yFrac, width, height, partWidth, partHeight);
    let ghost dm = data@;
    proof {
        assert(partY >> 1u32 == partY / 2 && partX >> 1u32 == partX / 2) by (bit_vector);
    }
    let chromaOff = 256 + ((partY >> 1) * 8 + (partX >> 1)) as usize;
    proof {
        assert((partY / 2) * 8 + partX / 2 + (partHeight / 2 - 1) * 8 + partWidth / 2 <= 64) by (nonlinear_arith)
            requires
                partY + partHeight <= 16,
                partX + partWidth <= 16,
                2 <= partHeight,
                2 <= partWidth,
        ;
    }
    PredictChroma(data, chromaOff, xA + partX, yA + partY, partWidth, partHeight, mv, refData, picWidth, picHeight);
    proof {
        assert forall|px: int, py: int|
            0 <= px < partWidth && 0 <= py < partHeight implies #[trigger] mb_at(data@, 16 * partY + partX, px, py) == luma_pred(
            plane_fn(refData@, 0, 16 * picWidth, 16 * picHeight),
            xA + partX + mv.hor as int / 4 + px,
            yA + partY + mv.ver as int / 4 + py,
            mv.hor as int % 4,
            mv.ver as int % 4,
        ) by {
            assert(mb_at(dm, lumaOff as int, px, py) == luma_pred(
                plane_fn(refData@, 0, width as int, height as int),
                xInt + px,
                yInt + py,
                xFrac as int,
                yFrac as int,
            ));
            assert(16 * partY + partX + 16 * py + px < 256) by (nonlinear_arith)
                requires
                    partY + partHeight <= 16,
                    partX + partWidth <= 16,
                    0 <= px < partWidth,
                    0 <= py < partHeight,
            ;
        }
    }
}

/// Prediction of a macroblock partition from the reference picture
/// `refPic` with motion vector `mv`: the `partWidth` x `partHeight` luma
/// samples at (partX, partY) of the macroblock at luma position (xA, yA),
/// into `data` (16 x 16 luma, then 8 x 8 Cb and 8 x 8 Cr), and the chroma
/// samples of the partition.
pub fn h264bsdPredictSamples(
    data: &mut [u8; 384],
    mv: &mv_t,
    refPic: &image_t,
    xA: u32,
    yA: u32,
    partX: u32,
    partY: u32,
    partWidth: u32,
    partHeight: u32,
)
    requires
        refPic.wf(),
        xA <= 0xFFF0,
        yA <= 0xFFF0,
        2 <= partWidth,
        2 <= partHeight,
        partX + partWidth <= 16,
        partY + partHeight <= 16,
    ensures
        forall|px: int, py: int|
            0 <= px < partWidth && 0 <= py < partHeight ==> #[trigger] mb_at(final(data)@, 16 * partY + partX, px, py)
                == luma_pred(
                plane_fn(refPic.data@, 0, refPic.luma_width(), refPic.luma_height()),
                xA + partX + mv.hor as int / 4 + px,
                yA + partY + mv.ver as int / 4 + py,
                mv.hor as int % 4,
                mv.ver as int % 4,
            ),
        forall|comp: int, px: int, py: int|
            0 <= comp < 2 && 0 <= px < partWidth as int / 2 && 0 <= py < partHeight as int / 2 ==> #[trigger] at8(
                final(data)@,
                256 + 8 * (partY as int / 2) + partX as int / 2 + 64 * comp,
                px,
                py,
            ) == chroma_pred(
                plane_fn(
                    refPic.data@,
                    refPic.chroma_base() + comp * (64 * refPic.width * refPic.height),
                    8 * refPic.width,
                    8 * refPic.height,
                ),
                (xA + partX) / 2 + mv.hor as int / 8 + px,
                (yA + partY) / 2 + mv.ver as int / 8 + py,
                mv.hor as int % 8,
                mv.ver as int % 8,
            ),
        forall|k: int|
            0 <= k < 384 && !in_block(k, 16, 16 * partY + partX, partWidth as int, partHeight as int) && !in_block(
                k,
                8,
                256 + 8 * (partY as int / 2) + partX as int / 2,
                partWidth as int / 2,
                partHeight as int / 2,
            ) && !in_block(
                k,
                8,
                320 + 8 * (partY as int / 2) + partX as int / 2,
                partWidth as int / 2,
                partHeight as int / 2,
            ) ==> final(data)@[k] == old(data)@[k],
{
    predict_samples_in(data, mv, refPic.data.as_slice(), refPic.width, refPic.height, xA, yA, partX, partY, partWidth, partHeight);
}

} // verus!

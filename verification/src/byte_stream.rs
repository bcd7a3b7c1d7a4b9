//! Extraction of one NAL unit from a byte stream (Annex B of the standard)
//! or from a buffer that holds exactly one NAL unit, with the removal of
//! the emulation prevention bytes.
use vstd::prelude::*;
use crate::defs::{HANTRO_NOK, HANTRO_OK};
use crate::stream::{strmData_t, MAX_STRM_BYTES};

verus! {

/// The buffer is in byte stream format: it starts with two zero bytes and
/// a zero or one byte.
pub open spec fn is_byte_stream(b: Seq<u8>, len: nat) -> bool {
    len > 3 && b[0] == 0 && b[1] == 0 && b[2] <= 1
}

/// Consecutive zero bytes right before index `j`, not counting those
/// before `from`.
pub open spec fn zeros_before(b: Seq<u8>, from: int, j: int) -> nat
    decreases j - from,
{
    if j <= from || b[j - 1] != 0 {
        0
    } else {
        1 + zeros_before(b, from, j - 1)
    }
}

/// Index of the one byte that ends the first start code prefix (two or
/// more zeros and a one) at or after `j`, before the last byte of the
/// buffer.
pub open spec fn find_start(b: Seq<u8>, len: nat, j: int) -> Option<int>
    decreases len - j,
{
    if j + 1 >= len || j < 2 {
        None
    } else if b[j] == 1 && zeros_before(b, 0, j) >= 2 {
        Some(j)
    } else {
        find_start(b, len, j + 1)
    }
}

/// What the scan for the end of a NAL unit that starts at `init` finds:
/// the NAL unit's size (trailing zeros not counted), the zero bytes of the
/// next start code prefix beyond its last three, whether an emulation
/// prevention pattern (two zeros and a three) occurs and whether three
/// zeros precede a byte other than a start code one.
pub struct NalScan {
    pub size: nat,
    pub extraZeros: nat,
    pub emulation: bool,
    pub invalid: bool,
}

/// Scan of the NAL unit bytes from `k` on, with `zc` zeros just before
/// `k`.
pub open spec fn nal_scan(b: Seq<u8>, len: nat, init: int, k: int, zc: nat, em: bool, inv: bool) -> NalScan
    decreases len - k,
{
    if k >= len {
        NalScan { size: 0, extraZeros: 0, emulation: em, invalid: inv }
    } else {
        let x = b[k];
        let zc1: nat = if x == 0 { zc + 1 } else { zc };
        let em1 = em || (x == 3 && zc1 == 2);
        if x == 1 && zc1 >= 2 {
            NalScan {
                size: (k - init - zc1) as nat,
                extraZeros: if zc1 >= 3 { (zc1 - 3) as nat } else { 0 },
                emulation: em1,
                invalid: inv,
            }
        } else {
            let inv1 = inv || (x != 0 && zc1 >= 3);
            let zc2: nat = if x != 0 { 0 } else { zc1 };
            if k + 1 == len {
                NalScan { size: (len - init - zc2) as nat, extraZeros: zc2, emulation: em1, invalid: inv1 }
            } else {
                nal_scan(b, len, init, k + 1, zc2, em1, inv1)
            }
        }
    }
}

/// The NAL unit bytes `n` with the emulation prevention bytes (a three
/// after two zeros) removed, from index `i` on with `zc` zeros just
/// before; None when a three after two zeros is last or followed by a
/// byte above three, or two zeros are followed by a byte below three.
pub open spec fn unescape(n: Seq<u8>, i: int, zc: nat) -> Option<Seq<u8>>
    decreases n.len() - i,
{
    if i >= n.len() || i < 0 {
        Some(Seq::empty())
    } else if zc == 2 && n[i] == 3 {
        if i + 1 == n.len() || n[i + 1] > 3 {
            None
        } else {
            unescape(n, i + 1, 0)
        }
    } else if zc == 2 && n[i] <= 2 {
        None
    } else {
        match unescape(n, i + 1, if n[i] == 0 { zc + 1 } else { 0 }) {
            Some(r) => Some(seq![n[i]] + r),
            None => None,
        }
    }
}

/// Where the NAL unit lies in the buffer and what the scan found: (start,
/// scan); None when a byte stream holds no start code prefix.
pub open spec fn nal_location(b: Seq<u8>, len: nat) -> Option<(int, NalScan)> {
    if is_byte_stream(b, len) {
        match find_start(b, len, 2) {
            Some(j) => Some((j + 1, nal_scan(b, len, j + 1, j + 1, 0, false, false))),
            None => None,
        }
    } else {
        Some((0, NalScan { size: len, extraZeros: 0, emulation: true, invalid: false }))
    }
}

/// The NAL unit extracted from the first `len` bytes of `b`: (bytes
/// consumed, the RBSP bytes when the NAL unit is valid).
pub open spec fn extract_nal(b: Seq<u8>, len: nat) -> (nat, Option<Seq<u8>>) {
    match nal_location(b, len) {
        None => (len, None),
        Some((init, sc)) => {
            let consumed = (sc.size + init + sc.extraZeros) as nat;
            let raw = b.subrange(init, init + sc.size);
            if sc.invalid {
                (consumed, None)
            } else if sc.emulation {
                (consumed, unescape(raw, 0, 0))
            } else {
                (consumed, Some(raw))
            }
        }
    }
}

/// Remove the emulation prevention bytes from `raw`: None when the NAL
/// unit holds a forbidden pattern.
fn remove_emulation(raw: &[u8], start: usize, size: usize) -> (r: Option<Vec<u8>>)
    requires
        start + size <= raw@.len(),
    ensures
        ({
            let n = raw@.subrange(start as int, start + size);
            match r {
                Some(v) => unescape(n, 0, 0) == Some(v@) && v@.len() <= size,
                None => unescape(n, 0, 0) is None,
            }
        }),
{
    let ghost n = raw@.subrange(start as int, start + size);
    let rlen = raw.len();
    let mut out: Vec<u8> = Vec::new();
    let mut zeroCount: u32 = 0;
    let mut i: usize = 0;
    proof {
        assert(out@ + Seq::<u8>::empty() =~= Seq::<u8>::empty());
    }
    while i < size
        invariant
            start + size <= raw@.len(),
            raw@.len() == rlen,
            n == raw@.subrange(start as int, start + size),
            i <= size,
            out@.len() <= i,
            zeroCount <= 2,
            unescape(n, 0, 0) == (match unescape(n, i as int, zeroCount as nat) {
                Some(rest) => Some(out@ + rest),
                None => None,
            }),
        decreases size - i,
    {
        let byte = raw[start + i];
        if zeroCount == 2 && byte == 0x03 {
            /* emulation prevention byte shall be followed by one of the
             * following bytes: 0x00, 0x01, 0x02, 0x03. This implies that
             * emulation prevention 0x03 byte shall not be the last byte
             * of the stream. */
            if i + 1 == size || raw[start + i + 1] > 0x03 {
                return None;
            }
            /* do not write emulation prevention byte */
            zeroCount = 0;
        } else {
            /* NAL unit shall not contain byte sequences 0x000000,
             * 0x000001 or 0x000002 */
            if zeroCount == 2 && byte <= 0x02 {
                return None;
            }
            let ghost out0 = out@;
            let ghost zc0 = zeroCount as nat;
            if byte == 0 {
                zeroCount += 1;
            } else {
                zeroCount = 0;
            }
            out.push(byte);
            proof {
                match unescape(n, i + 1, zeroCount as nat) {
                    Some(rest) => {
                        assert(out0 + (seq![byte] + rest) =~= out@ + rest);
                    },
                    None => {},
                }
            }
        }
        i += 1;
    }
    Some(out)
}

/// Copy `size` bytes of `raw` from `start` into a new vector.
fn copy_bytes(raw: &[u8], start: usize, size: usize) -> (r: Vec<u8>)
    requires
        start + size <= raw@.len(),
    ensures
        r@ == raw@.subrange(start as int, start + size),
{
    let rlen = raw.len();
    let mut out: Vec<u8> = Vec::new();
    let mut i: usize = 0;
    while i < size
        invariant
            start + size <= raw@.len(),
            raw@.len() == rlen,
            i <= size,
            out@ == raw@.subrange(start as int, start + i),
        decreases size - i,
    {
        out.push(raw[start + i]);
        i += 1;
        assert(out@ =~= raw@.subrange(start as int, start + i));
    }
    out
}

/// Extract one NAL unit from the first `len` bytes of `pByteStream`, a
/// byte stream (Annex B) or a buffer of one NAL unit, into `pStrmData`
/// with its emulation prevention bytes removed, positioned at its start.
/// `readBytes` receives the number of bytes consumed from the buffer.
pub fn h264bsdExtractNalUnit(pByteStream: &[u8], len: u32, pStrmData: &mut strmData_t, readBytes: &mut u32) -> (r: u32)
    requires
        len <= pByteStream@.len(),
        len <= MAX_STRM_BYTES,
    ensures
        ({
            let ex = extract_nal(pByteStream@, len as nat);
            &&& *final(readBytes) == ex.0
            &&& ex.0 <= len
            &&& r == (if ex.1 is Some { HANTRO_OK } else { HANTRO_NOK })
            &&& ex.1 is Some ==> {
                &&& final(pStrmData).wf()
                &&& final(pStrmData).strmBuff@ == ex.1.unwrap()
                &&& final(pStrmData).strmBuffSize == ex.1.unwrap().len()
                &&& final(pStrmData).strmBuffReadBits == 0
            }
        }),
{
    let ghost b = pByteStream@;
    let initByteCount: usize;
    let size: usize;
    let extra: usize;
    let mut hasEmulation = false;
    let mut invalidStream = false;
    let ghost mut loc: (int, NalScan) = (0, NalScan { size: 0, extraZeros: 0, emulation: false, invalid: false });
    proof {
        if len > 3 {
            let b2 = b[2];
            assert((b2 & 0xFEu8) == 0 <==> b2 <= 1) by (bit_vector);
        }
    }
    /* byte stream format if starts with 0x000001 or 0x000000 */
    if len > 3 && pByteStream[0] == 0x00 && pByteStream[1] == 0x00 && (pByteStream[2] & 0xFE) == 0x00 {
        /* search for NAL unit start point, i.e. point after first start code
         * prefix in the stream */
        let mut zeroCount: usize = 2;
        let mut j: usize = 2;
        let ghost fs = find_start(b, len as nat, 2);
        assert(zeros_before(b, 0, 0) == 0);
        assert(zeros_before(b, 0, 1) == 1);
        assert(zeros_before(b, 0, 2) == 2);
        loop
            invariant
                len as int <= b.len(),
                b == pByteStream@,
                2 <= j < len,
                zeroCount <= j,
                zeroCount as nat == zeros_before(b, 0, j as int),
                fs == find_start(b, len as nat, j as int),
                fs == find_start(b, len as nat, 2),
                is_byte_stream(b, len as nat),
            ensures
                2 <= j,
                j + 1 < len,
                fs == Some(j as int),
            decreases len - j,
        {
            let byte = pByteStream[j];
            if j + 1 == len as usize {
                /* no start code prefix found -> error */
                *readBytes = len;
                return HANTRO_NOK;
            }
            if byte == 0 {
                zeroCount += 1;
            } else if byte == 0x01 && zeroCount >= 2 {
                break;
            } else {
                zeroCount = 0;
            }
            j += 1;
        }
        initByteCount = j + 1;
        /* determine size of the NAL unit. Search for next start code prefix
         * or end of stream and ignore possible trailing zero bytes */
        let ghost sc = nal_scan(b, len as nat, initByteCount as int, initByteCount as int, 0, false, false);
        let mut zeroCount: usize = 0;
        let mut k: usize = initByteCount;
        let mut sz: usize = 0;
        loop
            invariant_except_break
                zeroCount <= k - initByteCount,
                sc == nal_scan(b, len as nat, initByteCount as int, k as int, zeroCount as nat, hasEmulation, invalidStream),
            invariant
                len as int <= b.len(),
                b == pByteStream@,
                initByteCount <= k < len,
                sc == nal_scan(b, len as nat, initByteCount as int, initByteCount as int, 0, false, false),
            ensures
                sc.size == sz,
                sc.extraZeros == zeroCount,
                sc.emulation == hasEmulation,
                sc.invalid == invalidStream,
                initByteCount + sz + zeroCount <= len,
            decreases len - k,
        {
            let byte = pByteStream[k];
            if byte == 0 {
                zeroCount += 1;
            }
            if byte == 0x03 && zeroCount == 2 {
                hasEmulation = true;
            }
            if byte == 0x01 && zeroCount >= 2 {
                sz = k - initByteCount - zeroCount;
                zeroCount = if zeroCount >= 3 {
                    zeroCount - 3
                } else {
                    0
                };
                break;
            } else if byte != 0 {
                if zeroCount >= 3 {
                    invalidStream = true;
                }
                zeroCount = 0;
            }
            if k + 1 == len as usize {
                sz = len as usize - initByteCount - zeroCount;
                break;
            }
            k += 1;
        }
        size = sz;
        extra = zeroCount;
        proof {
            loc = (initByteCount as int, sc);
        }
    } else {
        /* separate NAL units as input -> just set stream params */
        initByteCount = 0;
        extra = 0;
        size = len as usize;
        hasEmulation = true;
        proof {
            loc = (0, NalScan { size: len as nat, extraZeros: 0, emulation: true, invalid: false });
        }
    }
    assert(nal_location(b, len as nat) == Some(loc));
    assert(loc.0 == initByteCount && loc.1.size == size && loc.1.extraZeros == extra && loc.1.emulation
        == hasEmulation && loc.1.invalid == invalidStream);
    /* return number of bytes "consumed" */
    *readBytes = (size + initByteCount + extra) as u32;
    if invalidStream {
        return HANTRO_NOK;
    }
    /* remove emulation prevention bytes before rbsp processing */
    let out: Vec<u8> = if hasEmulation {
        match remove_emulation(pByteStream, initByteCount, size) {
            Some(v) => v,
            None => {
                return HANTRO_NOK;
            },
        }
    } else {
        copy_bytes(pByteStream, initByteCount, size)
    };
    let n = out.len() as u32;
    *pStrmData = strmData_t::new(out, n);
    HANTRO_OK
}

} // verus!

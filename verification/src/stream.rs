//! Bit reader over an RBSP byte buffer, most significant bit first.
//!
//! The stream is modelled as the infinite bit sequence `stream_bit`: the
//! bits of the first `strmBuffSize` bytes of the buffer, followed by zeros.
use vstd::prelude::*;
use vstd::arithmetic::power2::*;
use crate::defs::{END_OF_STREAM, HANTRO_FALSE, HANTRO_OK, HANTRO_TRUE};

verus! {

/// Largest stream buffer accepted, in bytes (just under 2^29); keeps every bit position
/// (plus a few code words of look-ahead) inside `u32`.
pub const MAX_STRM_BYTES: u32 = 0x1F00_0000;

/// Stream data: the buffer, its size and the read position in bits.
pub struct strmData_t {
    /// stream buffer; the first `strmBuffSize` bytes are the stream
    pub strmBuff: Vec<u8>,
    /// bit position in the current byte
    pub bitPosInWord: u32,
    /// size of the stream buffer (bytes)
    pub strmBuffSize: u32,
    /// number of bits read from the stream buffer
    pub strmBuffReadBits: u32,
}

/// Bit `i` of the stream made of the first `size` bytes of `d` (zero
/// outside of it).
pub open spec fn stream_bit(d: Seq<u8>, size: nat, i: int) -> nat {
    if 0 <= i < 8 * size && i / 8 < d.len() {
        ((d[i / 8] >> ((7 - i % 8) as u8)) & 1u8) as nat
    } else {
        0
    }
}

/// The `n` stream bits starting at bit `pos`, read as an unsigned number,
/// most significant bit first.
pub open spec fn stream_bits(d: Seq<u8>, size: nat, pos: int, n: nat) -> nat
    decreases n,
{
    if n == 0 {
        0
    } else {
        2 * stream_bits(d, size, pos, (n - 1) as nat) + stream_bit(d, size, pos + n - 1)
    }
}

/// Number of consecutive zero bits at `pos`, looking at most `max` bits ahead.
pub open spec fn stream_zeros(d: Seq<u8>, size: nat, pos: int, max: nat) -> nat
    decreases max,
{
    if max == 0 {
        0
    } else if stream_bit(d, size, pos) == 1 {
        0
    } else {
        1 + stream_zeros(d, size, pos + 1, (max - 1) as nat)
    }
}

/// Leading zeros of the right-aligned `len`-bit code word `v`.
pub open spec fn leading_zeros(v: u32, len: nat) -> nat
    decreases len,
{
    if len == 0 {
        0
    } else if (v as nat / pow2((len - 1) as nat)) % 2 == 1 {
        0
    } else {
        1 + leading_zeros(v, (len - 1) as nat)
    }
}

impl strmData_t {
    /// Well-formed stream: the declared size lies inside the buffer and the
    /// bit position mirrors the read counter.
    pub open spec fn wf(&self) -> bool {
        &&& self.strmBuffSize as int <= self.strmBuff@.len()
        &&& self.strmBuffSize <= MAX_STRM_BYTES
        &&& self.bitPosInWord == self.strmBuffReadBits % 8
    }

    /// The stream bits, as a byte sequence and its size.
    pub open spec fn data(&self) -> Seq<u8> {
        self.strmBuff@
    }

    pub open spec fn size(&self) -> nat {
        self.strmBuffSize as nat
    }

    /// Read position in bits.
    pub open spec fn pos(&self) -> int {
        self.strmBuffReadBits as int
    }

    /// Number of bits in the stream.
    pub open spec fn len_bits(&self) -> int {
        8 * self.strmBuffSize
    }

    /// `n` bits at bit position `p`.
    pub open spec fn bits_at(&self, p: int, n: nat) -> nat {
        stream_bits(self.strmBuff@, self.strmBuffSize as nat, p, n)
    }

    /// Same stream contents (buffer and size), whatever the read position.
    pub open spec fn same_stream(&self, other: &strmData_t) -> bool {
        &&& self.strmBuff@ == other.strmBuff@
        &&& self.strmBuffSize == other.strmBuffSize
    }

    /// An empty stream.
    pub fn zeroed() -> (r: Self)
        ensures
            r.wf(),
            r.strmBuff@.len() == 0,
            r.strmBuffSize == 0,
            r.strmBuffReadBits == 0,
            r.bitPosInWord == 0,
    {
        strmData_t { strmBuff: Vec::new(), bitPosInWord: 0, strmBuffSize: 0, strmBuffReadBits: 0 }
    }

    /// A stream over the first `size` bytes of `buf`, positioned at its start.
    pub fn new(buf: Vec<u8>, size: u32) -> (r: Self)
        requires
            size as int <= buf@.len(),
            size <= MAX_STRM_BYTES,
        ensures
            r.wf(),
            r.strmBuff@ == buf@,
            r.strmBuffSize == size,
            r.strmBuffReadBits == 0,
    {
        strmData_t { strmBuff: buf, bitPosInWord: 0, strmBuffSize: size, strmBuffReadBits: 0 }
    }
}

/// Field-by-field copy of the stream data structure.
pub fn strmDataCopy(s: &strmData_t) -> (r: strmData_t)
    ensures
        r.strmBuff@ == s.strmBuff@,
        r.bitPosInWord == s.bitPosInWord,
        r.strmBuffSize == s.strmBuffSize,
        r.strmBuffReadBits == s.strmBuffReadBits,
{
    strmData_t {
        strmBuff: s.strmBuff.clone(),
        bitPosInWord: s.bitPosInWord,
        strmBuffSize: s.strmBuffSize,
        strmBuffReadBits: s.strmBuffReadBits,
    }
}

// ---------------------------------------------------------------------------
// Lemmas on the bit model
// ---------------------------------------------------------------------------

pub proof fn lemma_stream_bit_le_1(d: Seq<u8>, size: nat, i: int)
    ensures
        stream_bit(d, size, i) <= 1,
{
    if 0 <= i < 8 * size && i / 8 < d.len() {
        let b = d[i / 8];
        let s = (7 - i % 8) as u8;
        assert((b >> s) & 1u8 <= 1u8) by (bit_vector);
    }
}

/// `n` bits fit in `n` bits.
pub proof fn lemma_stream_bits_bound(d: Seq<u8>, size: nat, pos: int, n: nat)
    ensures
        stream_bits(d, size, pos, n) < pow2(n),
    decreases n,
{
    if n == 0 {
        lemma2_to64();
    } else {
        lemma_stream_bits_bound(d, size, pos, (n - 1) as nat);
        lemma_stream_bit_le_1(d, size, pos + n - 1);
        lemma_pow2_unfold(n);
    }
}

/// Splitting a run of bits into a prefix of `a` and a suffix of `b` bits.
pub proof fn lemma_stream_bits_split(d: Seq<u8>, size: nat, pos: int, a: nat, b: nat)
    ensures
        stream_bits(d, size, pos, a + b) == stream_bits(d, size, pos, a) * pow2(b) + stream_bits(
            d,
            size,
            pos + a,
            b,
        ),
    decreases b,
{
    if b == 0 {
        lemma2_to64();
        assert(a + b == a);
    } else {
        lemma_stream_bits_split(d, size, pos, a, (b - 1) as nat);
        lemma_pow2_unfold(b);
        let x = stream_bits(d, size, pos, a);
        let p = pow2((b - 1) as nat);
        assert(((a + b) - 1) as nat == a + (b - 1) as nat);
        assert(stream_bits(d, size, pos, a + b) == 2 * stream_bits(d, size, pos, (a + b - 1) as nat)
            + stream_bit(d, size, pos + (a + b) - 1));
        assert(2 * (x * p) == x * (2 * p)) by (nonlinear_arith);
    }
}

/// Beyond the end of the stream every bit reads as zero.
pub proof fn lemma_stream_bits_past_end(d: Seq<u8>, size: nat, pos: int, n: nat)
    requires
        pos >= 8 * size,
    ensures
        stream_bits(d, size, pos, n) == 0,
    decreases n,
{
    if n > 0 {
        lemma_stream_bits_past_end(d, size, pos, (n - 1) as nat);
    }
}

/// The most significant of `n` bits is the first stream bit.
pub proof fn lemma_stream_bits_first(d: Seq<u8>, size: nat, pos: int, n: nat)
    requires
        n > 0,
    ensures
        stream_bits(d, size, pos, n) == stream_bit(d, size, pos) * pow2((n - 1) as nat)
            + stream_bits(d, size, pos + 1, (n - 1) as nat),
{
    lemma_stream_bits_split(d, size, pos, 1, (n - 1) as nat);
    assert(1 + (n - 1) as nat == n);
    assert(stream_bits(d, size, pos, 1) == stream_bit(d, size, pos)) by {
        assert(stream_bits(d, size, pos, 0) == 0);
    }
}

/// The leading zeros of a `len`-bit window of the stream are the zero run
/// of the stream at its start.
pub proof fn lemma_leading_zeros_stream(d: Seq<u8>, size: nat, pos: int, len: nat)
    requires
        len <= 32,
    ensures
        leading_zeros(stream_bits(d, size, pos, len) as u32, len) == stream_zeros(d, size, pos, len),
    decreases len,
{
    lemma_stream_bits_bound(d, size, pos, len);
    lemma_pow2_strictly_increases_le(len, 32);
    lemma2_to64();
    if len > 0 {
        let v = stream_bits(d, size, pos, len);
        let rest = stream_bits(d, size, pos + 1, (len - 1) as nat);
        let b = stream_bit(d, size, pos);
        let p = pow2((len - 1) as nat);
        lemma_stream_bits_first(d, size, pos, len);
        lemma_stream_bits_bound(d, size, pos + 1, (len - 1) as nat);
        lemma_stream_bit_le_1(d, size, pos);
        lemma_pow2_pos((len - 1) as nat);
        assert(v == b * p + rest);
        assert((v as u32) as nat == v);
        assert(v / p == b) by {
            vstd::arithmetic::div_mod::lemma_fundamental_div_mod_converse(v as int, p as int, b as int, rest as int);
        }
        if b == 1 {
        } else {
            assert(v == rest);
            lemma_leading_zeros_stream(d, size, pos + 1, (len - 1) as nat);
            lemma_leading_zeros_drop(rest as u32, (len - 1) as nat);
        }
    }
}

/// At most `len` leading zeros.
pub proof fn lemma_leading_zeros_le(v: u32, len: nat)
    ensures
        leading_zeros(v, len) <= len,
    decreases len,
{
    if len > 0 {
        lemma_leading_zeros_le(v, (len - 1) as nat);
    }
}

/// `pow2` is monotone.
pub proof fn lemma_pow2_strictly_increases_le(a: nat, b: nat)
    requires
        a <= b,
    ensures
        pow2(a) <= pow2(b),
{
    if a < b {
        lemma_pow2_strictly_increases(a, b);
    }
}

/// For a value below `2^(len-1)`, the leading zeros in `len` bits are one
/// more than in `len - 1` bits; the top bit of `len` bits of it is zero.
pub proof fn lemma_leading_zeros_drop(v: u32, len: nat)
    requires
        (v as nat) < pow2(len),
        len < 32,
    ensures
        leading_zeros(v, len + 1) == 1 + leading_zeros(v, len),
{
    lemma_pow2_pos(len);
    assert((v as nat) / pow2(len) == 0) by {
        vstd::arithmetic::div_mod::lemma_basic_div(v as int, pow2(len) as int);
    }
    assert((len + 1 - 1) as nat == len);
}

// ---------------------------------------------------------------------------
// Reading
// ---------------------------------------------------------------------------

/// One bit of the stream at `i` (zero past the end).
fn read_bit(s: &strmData_t, i: u64) -> (r: u32)
    requires
        s.wf(),
    ensures
        r as nat == stream_bit(s.data(), s.size(), i as int),
        r <= 1,
{
    if i < 8 * (s.strmBuffSize as u64) {
        let idx = (i / 8) as usize;
        let sh = (7 - i % 8) as u8;
        let byte = s.strmBuff[idx];
        let r = (byte >> sh) & 1u8;
        assert(r <= 1u8) by (bit_vector)
            requires
                r == (byte >> sh) & 1u8,
        ;
        r as u32
    } else {
        0
    }
}

/// The `n` stream bits at bit position `pos` (most significant bit first);
/// bits past the end of the stream read as 0.
pub fn show_bits_at(s: &strmData_t, pos: u32, n: u32) -> (out: u32)
    requires
        s.wf(),
        n <= 32,
    ensures
        out as nat == s.bits_at(pos as int, n as nat),
        (out as nat) < pow2(n as nat),
{
    let mut out: u64 = 0;
    let mut j: u32 = 0;
    proof {
        lemma2_to64();
    }
    while j < n
        invariant
            s.wf(),
            j <= n <= 32,
            out as nat == s.bits_at(pos as int, j as nat),
            (out as nat) < pow2(j as nat),
        decreases n - j,
    {
        let b = read_bit(s, pos as u64 + j as u64);
        proof {
            lemma_pow2_unfold((j + 1) as nat);
            lemma_pow2_strictly_increases_le((j + 1) as nat, 32);
            lemma2_to64();
            assert(((j + 1) as nat - 1) as nat == j as nat);
        }
        out = out * 2 + b as u64;
        j = j + 1;
    }
    proof {
        lemma_pow2_strictly_increases_le(n as nat, 32);
        lemma2_to64();
    }
    out as u32
}

/// Peek the next 32 bits (most significant bit first); bits past the end
/// of the stream read as 0.
pub fn h264bsdShowBits32(pStrmData: &strmData_t) -> (out: u32)
    requires
        pStrmData.wf(),
    ensures
        out as nat == pStrmData.bits_at(pStrmData.pos(), 32),
{
    show_bits_at(pStrmData, pStrmData.strmBuffReadBits, 32)
}

/// Remove `numBits` bits from the stream. Returns HANTRO_OK, or
/// END_OF_STREAM when fewer bits were left; the read counter advances in
/// either case.
pub fn h264bsdFlushBits(pStrmData: &mut strmData_t, numBits: u32) -> (r: u32)
    requires
        old(pStrmData).wf(),
        old(pStrmData).strmBuffReadBits + numBits <= u32::MAX,
    ensures
        final(pStrmData).wf(),
        final(pStrmData).same_stream(old(pStrmData)),
        final(pStrmData).strmBuffReadBits == old(pStrmData).strmBuffReadBits + numBits,
        r == (if old(pStrmData).pos() + numBits <= old(pStrmData).len_bits() {
            HANTRO_OK
        } else {
            END_OF_STREAM
        }),
{
    pStrmData.strmBuffReadBits = pStrmData.strmBuffReadBits + numBits;
    pStrmData.bitPosInWord = pStrmData.strmBuffReadBits % 8;
    if pStrmData.strmBuffReadBits <= 8 * pStrmData.strmBuffSize {
        HANTRO_OK
    } else {
        END_OF_STREAM
    }
}

/// Result of reading `n` bits at `pos`: the bits, or END_OF_STREAM when the
/// stream ends before `pos + n`.
pub open spec fn get_bits_value(s: &strmData_t, pos: int, n: nat) -> u32 {
    if pos + n <= s.len_bits() {
        s.bits_at(pos, n) as u32
    } else {
        END_OF_STREAM
    }
}

/// Read and remove `numBits` bits (at most 32). Returns the bits, or
/// END_OF_STREAM if not enough bits were left.
pub fn h264bsdGetBits(pStrmData: &mut strmData_t, numBits: u32) -> (r: u32)
    requires
        old(pStrmData).wf(),
        numBits <= 32,
        old(pStrmData).strmBuffReadBits + numBits <= u32::MAX,
    ensures
        final(pStrmData).wf(),
        final(pStrmData).same_stream(old(pStrmData)),
        final(pStrmData).strmBuffReadBits == old(pStrmData).strmBuffReadBits + numBits,
        r == get_bits_value(old(pStrmData), old(pStrmData).pos(), numBits as nat),
        old(pStrmData).pos() + numBits <= old(pStrmData).len_bits() ==> r as nat == old(
            pStrmData,
        ).bits_at(old(pStrmData).pos(), numBits as nat),
        old(pStrmData).pos() + numBits <= old(pStrmData).len_bits() ==> (r as nat) < pow2(
            numBits as nat,
        ),
{
    let ghost s0 = *old(pStrmData);
    let out = if numBits == 0 {
        0
    } else {
        let w = h264bsdShowBits32(pStrmData);
        proof {
            let p = s0.pos();
            lemma_stream_bits_split(s0.data(), s0.size(), p, numBits as nat, (32 - numBits) as nat);
            assert(numBits as nat + (32 - numBits) as nat == 32);
            lemma_stream_bits_bound(s0.data(), s0.size(), p + numBits, (32 - numBits) as nat);
            lemma_stream_bits_bound(s0.data(), s0.size(), p, numBits as nat);
            vstd::bits::lemma_u32_shr_is_div(w, (32 - numBits) as u32);
            lemma_pow2_pos((32 - numBits) as nat);
            vstd::arithmetic::div_mod::lemma_fundamental_div_mod_converse(
                w as int,
                pow2((32 - numBits) as nat) as int,
                s0.bits_at(p, numBits as nat) as int,
                s0.bits_at(p + numBits, (32 - numBits) as nat) as int,
            );
        }
        w >> (32 - numBits)
    };
    proof {
        lemma_stream_bits_bound(s0.data(), s0.size(), s0.pos(), numBits as nat);
        if numBits == 0 {
            lemma2_to64();
        }
    }
    if h264bsdFlushBits(pStrmData, numBits) == HANTRO_OK {
        out
    } else {
        END_OF_STREAM
    }
}

/// Is the read position on a byte boundary?
pub fn h264bsdIsByteAligned(pStrmData: &strmData_t) -> (r: u32)
    ensures
        r == (if pStrmData.bitPosInWord == 0 { HANTRO_TRUE } else { HANTRO_FALSE }),
{
    if pStrmData.bitPosInWord == 0 {
        HANTRO_TRUE
    } else {
        HANTRO_FALSE
    }
}

/// A stream that a syntax element parser can start on: well formed, with
/// the read position inside the 31-bit range.
pub open spec fn can_parse(s: &strmData_t) -> bool {
    s.wf() && s.strmBuffReadBits <= 0x8000_0000
}

} // verus!

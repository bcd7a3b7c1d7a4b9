//! Fixed-length syntax elements read one after another from the stream,
//! and the facts that let a parser chain them.
use vstd::prelude::*;
use vstd::arithmetic::power2::*;
use crate::defs::{END_OF_STREAM, HANTRO_NOK, HANTRO_OK};
use crate::stream::{get_bits_value, lemma_pow2_strictly_increases_le, lemma_stream_bits_bound, stream_bits, strmData_t};

verus! {

/// The read position lies inside the stream.
pub open spec fn in_stream(s: &strmData_t) -> bool {
    s.wf() && s.pos() <= s.len_bits()
}

/// A fixed-length field of `n` bits at `p` lies inside a stream of `sz`
/// bytes.
pub open spec fn u_ok_at(sz: nat, p: int, n: nat) -> bool {
    p + n <= 8 * sz
}

/// Value of the fixed-length field of `n` bits at `p` of the stream bytes
/// `d` (`sz` of them valid).
pub open spec fn u_val_at(d: Seq<u8>, sz: nat, p: int, n: nat) -> u32 {
    stream_bits(d, sz, p, n) as u32
}

/// A fixed-length field of `n` bits at `p` lies inside the stream.
pub open spec fn u_ok(s: &strmData_t, p: int, n: nat) -> bool {
    u_ok_at(s.size(), p, n)
}

/// Value of the fixed-length field of `n` bits at `p`.
pub open spec fn u_val(s: &strmData_t, p: int, n: nat) -> u32 {
    u_val_at(s.data(), s.size(), p, n)
}

/// Reading at most 31 bits fails exactly when the field runs past the
/// end of the stream; otherwise it gives the field, below `2^n`.
pub proof fn lemma_get_bits(s: &strmData_t, p: int, n: nat)
    requires
        n <= 31,
    ensures
        (get_bits_value(s, p, n) == END_OF_STREAM) == !u_ok(s, p, n),
        u_ok(s, p, n) ==> get_bits_value(s, p, n) == u_val(s, p, n),
        (u_val(s, p, n) as nat) < pow2(n),
        s.bits_at(p, n) < pow2(n),
        n == 1 ==> u_val(s, p, n) <= 1,
{
    lemma_stream_bits_bound(s.data(), s.size(), p, n);
    lemma_pow2_strictly_increases_le(n, 31);
    lemma2_to64();
}

/// A parse step with result `st` (decoded, value, end) returned `r`, and
/// when it decoded it left `m` holding the value and the stream at the end.
pub open spec fn step_done<M>(r: u32, st: (bool, M, int), m: M, s: &strmData_t) -> bool {
    &&& r == (if st.0 { HANTRO_OK } else { HANTRO_NOK })
    &&& st.0 ==> {
        &&& m == st.1
        &&& s.pos() == st.2
        &&& in_stream(s)
    }
}

/// A fixed-length field of `n` bits is below `2^n`.
pub proof fn lemma_u_val_bound(d: Seq<u8>, sz: nat, p: int, n: nat)
    requires
        n <= 31,
    ensures
        (u_val_at(d, sz, p, n) as nat) < pow2(n),
        u_val_at(d, sz, p, n) as nat == stream_bits(d, sz, p, n),
{
    lemma_stream_bits_bound(d, sz, p, n);
    lemma_pow2_strictly_increases_le(n, 31);
    lemma2_to64();
}

} // verus!

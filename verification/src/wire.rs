//! Little-endian integer codecs shared by every on-wire record.
//!
//! All multi-byte integers in `.zac`, `.zacp` and the iden3 binfiles are
//! little-endian. The spec functions here state what a field *is* in terms
//! of the bytes that carry it; the exec helpers read and write them, and the
//! lemmas say that writing then reading gives the value back.
use vstd::prelude::*;

verus! {

/// The `u16` stored little-endian at `s[off..off + 2]`.
pub open spec fn le_u16(s: Seq<u8>, off: int) -> u16 {
    (s[off] + s[off + 1] * 256) as u16
}

/// The `u32` stored little-endian at `s[off..off + 4]`.
pub open spec fn le_u32(s: Seq<u8>, off: int) -> u32 {
    (s[off] + s[off + 1] * 256 + s[off + 2] * 65536 + s[off + 3] * 16777216) as u32
}

/// The `u64` stored little-endian at `s[off..off + 8]`.
pub open spec fn le_u64(s: Seq<u8>, off: int) -> u64 {
    (le_u32(s, off) + le_u32(s, off + 4) * 4294967296) as u64
}

/// The two little-endian bytes of `v`.
pub open spec fn u16_bytes(v: u16) -> Seq<u8> {
    seq![(v % 256) as u8, (v / 256) as u8]
}

/// The four little-endian bytes of `v`.
pub open spec fn u32_bytes(v: u32) -> Seq<u8> {
    seq![
        (v % 256) as u8,
        ((v / 256) % 256) as u8,
        ((v / 65536) % 256) as u8,
        (v / 16777216) as u8,
    ]
}

/// The eight little-endian bytes of `v`.
pub open spec fn u64_bytes(v: u64) -> Seq<u8> {
    u32_bytes((v % 4294967296) as u32) + u32_bytes((v / 4294967296) as u32)
}

/// `n` zero bytes.
pub open spec fn zeros(n: nat) -> Seq<u8> {
    Seq::new(n, |i: int| 0u8)
}

/// Every byte of `s[a..b]` is zero.
pub open spec fn all_zero(s: Seq<u8>, a: int, b: int) -> bool {
    forall|i: int| a <= i < b ==> s[i] == 0
}

pub fn read_u16(s: &[u8], off: usize) -> (v: u16)
    requires
        off + 2 <= s@.len(),
    ensures
        v == le_u16(s@, off as int),
{
    s[off] as u16 + (s[off + 1] as u16) * 256
}

pub fn read_u32(s: &[u8], off: usize) -> (v: u32)
    requires
        off + 4 <= s@.len(),
    ensures
        v == le_u32(s@, off as int),
{
    s[off] as u32 + (s[off + 1] as u32) * 256 + (s[off + 2] as u32) * 65536 + (s[off + 3] as u32)
        * 16777216
}

pub fn read_u64(s: &[u8], off: usize) -> (v: u64)
    requires
        off + 8 <= s.len(),
    ensures
        v == le_u64(s@, off as int),
{
    let lo = read_u32(s, off);
    let hi = read_u32(s, off + 4);
    lo as u64 + (hi as u64) * 4294967296
}

pub fn push_u16(out: &mut Vec<u8>, v: u16)
    ensures
        final(out)@ == old(out)@ + u16_bytes(v),
{
    out.push((v % 256) as u8);
    out.push((v / 256) as u8);
    assert(final(out)@ =~= old(out)@ + u16_bytes(v));
}

pub fn push_u32(out: &mut Vec<u8>, v: u32)
    ensures
        final(out)@ == old(out)@ + u32_bytes(v),
{
    out.push((v % 256) as u8);
    out.push(((v / 256) % 256) as u8);
    out.push(((v / 65536) % 256) as u8);
    out.push((v / 16777216) as u8);
    assert(final(out)@ =~= old(out)@ + u32_bytes(v));
}

pub fn push_u64(out: &mut Vec<u8>, v: u64)
    ensures
        final(out)@ == old(out)@ + u64_bytes(v),
{
    let ghost start = out@;
    push_u32(out, (v % 4294967296) as u32);
    push_u32(out, (v / 4294967296) as u32);
    assert(out@ =~= start + u64_bytes(v));
}

/// Append the bytes of `src` to `out`.
pub fn push_slice(out: &mut Vec<u8>, src: &[u8])
    ensures
        final(out)@ == old(out)@ + src@,
{
    let ghost start = out@;
    let mut i: usize = 0;
    while i < src.len()
        invariant
            i <= src@.len(),
            out@ == start + src@.subrange(0, i as int),
        decreases src@.len() - i,
    {
        out.push(src[i]);
        i = i + 1;
        assert(out@ =~= start + src@.subrange(0, i as int));
    }
    assert(src@.subrange(0, src@.len() as int) =~= src@);
}

/// Append `n` zero bytes to `out`.
pub fn push_zeros(out: &mut Vec<u8>, n: usize)
    ensures
        final(out)@ == old(out)@ + zeros(n as nat),
{
    let ghost start = out@;
    let mut i: usize = 0;
    while i < n
        invariant
            i <= n,
            out@ == start + zeros(i as nat),
        decreases n - i,
    {
        out.push(0u8);
        i = i + 1;
        assert(out@ =~= start + zeros(i as nat));
    }
}

/// Copy `s[off..off + N]` into a fixed-size array.
pub fn copy_array<const N: usize>(s: &[u8], off: usize) -> (r: [u8; N])
    requires
        off + N <= s.len(),
    ensures
        r@ == s@.subrange(off as int, off + N),
{
    let mut r = [0u8; N];
    let mut i: usize = 0;
    while i < N
        invariant
            i <= N,
            off + N <= s.len(),
            r@.len() == N,
            forall|j: int| 0 <= j < i ==> r@[j] == s@[off + j],
        decreases N - i,
    {
        r[i] = s[off + i];
        i = i + 1;
    }
    assert(r@ =~= s@.subrange(off as int, off + N));
    r
}

/// Whether two 32-byte arrays hold the same bytes.
pub fn bytes32_eq(a: &[u8; 32], b: &[u8; 32]) -> (r: bool)
    ensures
        r == (a@ == b@),
{
    let mut i: usize = 0;
    while i < 32
        invariant
            i <= 32,
            a@.len() == 32,
            b@.len() == 32,
            forall|j: int| 0 <= j < i ==> a@[j] == b@[j],
        decreases 32 - i,
    {
        if a[i] != b[i] {
            return false;
        }
        i = i + 1;
    }
    assert(a@ =~= b@);
    true
}

/// The concatenation of every chunk of `xs`.
pub open spec fn concat_all(xs: Seq<Seq<u8>>) -> Seq<u8>
    decreases xs.len(),
{
    if xs.len() == 0 {
        Seq::empty()
    } else {
        concat_all(xs.drop_last()) + xs.last()
    }
}

/// Appending a chunk appends its bytes.
pub proof fn lemma_concat_all_push(xs: Seq<Seq<u8>>, x: Seq<u8>)
    ensures
        concat_all(xs.push(x)) == concat_all(xs) + x,
{
    assert(xs.push(x).drop_last() =~= xs);
}

/// The chunks before `i` make up no more bytes than all of them.
pub proof fn lemma_concat_all_take_len(xs: Seq<Seq<u8>>, i: int)
    requires
        0 <= i <= xs.len(),
    ensures
        concat_all(xs.take(i)).len() <= concat_all(xs).len(),
    decreases xs.len(),
{
    if i == xs.len() {
        assert(xs.take(i) =~= xs);
    } else {
        let d = xs.drop_last();
        assert(xs.take(i) =~= d.take(i));
        lemma_concat_all_take_len(d, i);
    }
}

/// Chunks of equal size 32 concatenate to a string whose `i`-th 32-byte
/// window is chunk `i`.
pub proof fn lemma_concat_all_windows(xs: Seq<Seq<u8>>)
    requires
        forall|i: int| 0 <= i < xs.len() ==> (#[trigger] xs[i]).len() == 32,
    ensures
        concat_all(xs).len() == 32 * xs.len(),
        forall|i: int|
            0 <= i < xs.len() ==> concat_all(xs).subrange(32 * i, 32 * i + 32) == #[trigger] xs[i],
    decreases xs.len(),
{
    if xs.len() > 0 {
        let init = xs.drop_last();
        lemma_concat_all_windows(init);
        let c = concat_all(xs);
        assert(c == concat_all(init) + xs.last());
        assert forall|i: int| 0 <= i < xs.len() implies c.subrange(32 * i, 32 * i + 32)
            == #[trigger] xs[i] by {
            if i < xs.len() - 1 {
                assert(init[i] == xs[i]);
                assert(c.subrange(32 * i, 32 * i + 32) =~= concat_all(init).subrange(
                    32 * i,
                    32 * i + 32,
                ));
            } else {
                assert(c.subrange(32 * i, 32 * i + 32) =~= xs.last());
            }
        }
    }
}

/// The 32-byte array whose bytes are `s` (when `s` has 32 bytes).
pub open spec fn to_arr32(s: Seq<u8>) -> [u8; 32] {
    choose|a: [u8; 32]| a@ == s
}

/// An array is the array of its own bytes.
pub proof fn lemma_to_arr32(a: [u8; 32])
    ensures
        to_arr32(a@) == a,
{
    let b = to_arr32(a@);
    assert(b@ == a@);
    assert(b =~= a);
}

/// The index of the first non-zero byte of `s[a..b]`, if any.
pub open spec fn first_nonzero_from(s: Seq<u8>, a: int, b: int) -> Option<int>
    decreases b - a,
{
    if a >= b {
        None
    } else if s[a] != 0 {
        Some(a)
    } else {
        first_nonzero_from(s, a + 1, b)
    }
}

/// `first_nonzero_from` finds nothing exactly when the range is all zero, and
/// what it finds is the first non-zero byte.
pub proof fn lemma_first_nonzero(s: Seq<u8>, a: int, b: int)
    ensures
        first_nonzero_from(s, a, b) is None <==> all_zero(s, a, b),
        first_nonzero_from(s, a, b) matches Some(i) ==> a <= i < b && s[i] != 0 && all_zero(
            s,
            a,
            i,
        ),
    decreases b - a,
{
    if a < b {
        lemma_first_nonzero(s, a + 1, b);
    }
}

/// The index of the first non-zero byte of `s[a..b]`, or `None` when the
/// range is all zero.
pub fn first_nonzero(s: &[u8], a: usize, b: usize) -> (r: Option<usize>)
    requires
        a <= b <= s@.len(),
    ensures
        r matches Some(i) ==> first_nonzero_from(s@, a as int, b as int) == Some(i as int) && a
            <= i < b && s@[i as int] != 0,
        r is None ==> first_nonzero_from(s@, a as int, b as int) is None,
        r is None <==> all_zero(s@, a as int, b as int),
{
    proof {
        lemma_first_nonzero(s@, a as int, b as int);
    }
    let mut i = a;
    while i < b
        invariant
            a <= i <= b <= s@.len(),
            first_nonzero_from(s@, a as int, b as int) == first_nonzero_from(
                s@,
                i as int,
                b as int,
            ),
        decreases b - i,
    {
        if s[i] != 0 {
            return Some(i);
        }
        i = i + 1;
    }
    None
}

pub proof fn lemma_u16_roundtrip(v: u16)
    ensures
        u16_bytes(v).len() == 2,
        le_u16(u16_bytes(v), 0) == v,
{
    assert(v % 256 + (v / 256) * 256 == v);
}

pub proof fn lemma_u32_roundtrip(v: u32)
    ensures
        u32_bytes(v).len() == 4,
        le_u32(u32_bytes(v), 0) == v,
{
    let a = v / 256;
    let b = a / 256;
    let c = b / 256;
    assert(v == v % 256 + a * 256);
    assert(a == a % 256 + b * 256);
    assert(b == b % 256 + c * 256);
    assert(v / 65536 == b) by (nonlinear_arith)
        requires
            a == v / 256,
            b == a / 256,
    ;
    assert(v / 16777216 == c) by (nonlinear_arith)
        requires
            a == v / 256,
            b == a / 256,
            c == b / 256,
    ;
}

pub proof fn lemma_u64_roundtrip(v: u64)
    ensures
        u64_bytes(v).len() == 8,
        le_u64(u64_bytes(v), 0) == v,
{
    let lo = (v % 4294967296) as u32;
    let hi = (v / 4294967296) as u32;
    lemma_u32_roundtrip(lo);
    lemma_u32_roundtrip(hi);
    let s = u64_bytes(v);
    assert(s.subrange(0, 4) =~= u32_bytes(lo));
    assert(s.subrange(4, 8) =~= u32_bytes(hi));
    assert(u32_bytes(lo).subrange(0, 4) =~= u32_bytes(lo));
    assert(u32_bytes(hi).subrange(0, 4) =~= u32_bytes(hi));
    lemma_le_u32_frame(s, u32_bytes(lo), 0, 0);
    lemma_le_u32_frame(s, u32_bytes(hi), 4, 0);
    assert(v == v % 4294967296 + (v / 4294967296) * 4294967296);
}

/// `256` to the power `n`.
pub open spec fn pow256(n: nat) -> nat
    decreases n,
{
    if n == 0 {
        1
    } else {
        256 * pow256((n - 1) as nat)
    }
}

/// The natural number whose little-endian base-256 digits are `s`.
pub open spec fn le_nat(s: Seq<u8>) -> nat
    decreases s.len(),
{
    if s.len() == 0 {
        0
    } else {
        le_nat(s.drop_last()) + s.last() as nat * pow256((s.len() - 1) as nat)
    }
}

/// An `n`-digit number is below `256^n`.
pub proof fn lemma_le_nat_bound(s: Seq<u8>)
    ensures
        le_nat(s) < pow256(s.len()),
    decreases s.len(),
{
    if s.len() > 0 {
        let d = s.drop_last();
        lemma_le_nat_bound(d);
        let p = pow256((s.len() - 1) as nat);
        let x = s.last() as nat;
        let l = le_nat(d);
        assert(l + x * p < 256 * p) by (nonlinear_arith)
            requires
                l < p,
                x <= 255,
        ;
    }
}

/// Two numbers of the same length compare as their top digits do, and as
/// the rest does when the top digits agree.
pub proof fn lemma_le_nat_top(s: Seq<u8>, t: Seq<u8>)
    requires
        s.len() == t.len(),
        s.len() > 0,
    ensures
        s.last() < t.last() ==> le_nat(s) < le_nat(t),
        s.last() == t.last() ==> le_nat(s) - le_nat(t) == le_nat(s.drop_last()) - le_nat(
            t.drop_last(),
        ),
{
    let n = (s.len() - 1) as nat;
    let p = pow256(n);
    lemma_le_nat_bound(s.drop_last());
    lemma_le_nat_bound(t.drop_last());
    let a = s.last() as nat;
    let b = t.last() as nat;
    let ls = le_nat(s.drop_last());
    let lt = le_nat(t.drop_last());
    if a < b {
        assert(ls + a * p < lt + b * p) by (nonlinear_arith)
            requires
                ls < p,
                a < b,
        ;
    }
}

/// Reading a field and writing it again gives the same bytes.
pub proof fn lemma_le_u16_bytes(s: Seq<u8>, off: int)
    requires
        0 <= off,
        off + 2 <= s.len(),
    ensures
        u16_bytes(le_u16(s, off)) == s.subrange(off, off + 2),
{
    let v = le_u16(s, off);
    assert(v == s[off] + s[off + 1] * 256);
    assert(v % 256 == s[off]);
    assert(v / 256 == s[off + 1]);
    assert(u16_bytes(v) =~= s.subrange(off, off + 2));
}

/// Reading a field and writing it again gives the same bytes.
pub proof fn lemma_le_u32_bytes(s: Seq<u8>, off: int)
    requires
        0 <= off,
        off + 4 <= s.len(),
    ensures
        u32_bytes(le_u32(s, off)) == s.subrange(off, off + 4),
{
    let b0 = s[off] as int;
    let b1 = s[off + 1] as int;
    let b2 = s[off + 2] as int;
    let b3 = s[off + 3] as int;
    let v = le_u32(s, off);
    assert(v == b0 + b1 * 256 + b2 * 65536 + b3 * 16777216);
    assert(v % 256 == b0);
    assert(v / 256 == b1 + b2 * 256 + b3 * 65536);
    assert((v / 256) % 256 == b1);
    assert(v / 65536 == b2 + b3 * 256);
    assert((v / 65536) % 256 == b2);
    assert(v / 16777216 == b3);
    assert(u32_bytes(v) =~= s.subrange(off, off + 4));
}

/// `le_u16` only looks at the two bytes it names.
pub proof fn lemma_le_u16_frame(s: Seq<u8>, t: Seq<u8>, off: int, toff: int)
    requires
        0 <= off,
        off + 2 <= s.len(),
        0 <= toff,
        toff + 2 <= t.len(),
        s.subrange(off, off + 2) == t.subrange(toff, toff + 2),
    ensures
        le_u16(s, off) == le_u16(t, toff),
{
    assert(s[off] == s.subrange(off, off + 2)[0]);
    assert(s[off + 1] == s.subrange(off, off + 2)[1]);
    assert(t[toff] == t.subrange(toff, toff + 2)[0]);
    assert(t[toff + 1] == t.subrange(toff, toff + 2)[1]);
}

/// `le_u32` only looks at the four bytes it names.
pub proof fn lemma_le_u32_frame(s: Seq<u8>, t: Seq<u8>, off: int, toff: int)
    requires
        0 <= off,
        off + 4 <= s.len(),
        0 <= toff,
        toff + 4 <= t.len(),
        s.subrange(off, off + 4) == t.subrange(toff, toff + 4),
    ensures
        le_u32(s, off) == le_u32(t, toff),
{
    assert(s[off] == s.subrange(off, off + 4)[0]);
    assert(s[off + 1] == s.subrange(off, off + 4)[1]);
    assert(s[off + 2] == s.subrange(off, off + 4)[2]);
    assert(s[off + 3] == s.subrange(off, off + 4)[3]);
    assert(t[toff] == t.subrange(toff, toff + 4)[0]);
    assert(t[toff + 1] == t.subrange(toff, toff + 4)[1]);
    assert(t[toff + 2] == t.subrange(toff, toff + 4)[2]);
    assert(t[toff + 3] == t.subrange(toff, toff + 4)[3]);
}

/// `le_u64` only looks at the eight bytes it names.
pub proof fn lemma_le_u64_frame(s: Seq<u8>, t: Seq<u8>, off: int, toff: int)
    requires
        0 <= off,
        off + 8 <= s.len(),
        0 <= toff,
        toff + 8 <= t.len(),
        s.subrange(off, off + 8) == t.subrange(toff, toff + 8),
    ensures
        le_u64(s, off) == le_u64(t, toff),
{
    assert(s.subrange(off, off + 4) =~= s.subrange(off, off + 8).subrange(0, 4));
    assert(t.subrange(toff, toff + 4) =~= t.subrange(toff, toff + 8).subrange(0, 4));
    assert(s.subrange(off + 4, off + 8) =~= s.subrange(off, off + 8).subrange(4, 8));
    assert(t.subrange(toff + 4, toff + 8) =~= t.subrange(toff, toff + 8).subrange(4, 8));
    lemma_le_u32_frame(s, t, off, toff);
    lemma_le_u32_frame(s, t, off + 4, toff + 4);
}

/// Splitting `lo + hi * 2^32` back into its halves.
proof fn lemma_split_u64(lo: int, hi: int)
    by (nonlinear_arith)
    requires
        0 <= lo < 4294967296,
        0 <= hi < 4294967296,
    ensures
        (lo + hi * 4294967296) % 4294967296 == lo,
        (lo + hi * 4294967296) / 4294967296 == hi,
{
}

/// Reading a `u64` field and writing it again gives the same bytes.
#[verifier::rlimit(40)]
pub proof fn lemma_le_u64_bytes(s: Seq<u8>, off: int)
    requires
        0 <= off,
        off + 8 <= s.len(),
    ensures
        u64_bytes(le_u64(s, off)) == s.subrange(off, off + 8),
{
    let lo = le_u32(s, off);
    let hi = le_u32(s, off + 4);
    let v = le_u64(s, off);
    assert(v == lo + hi * 4294967296);
    lemma_split_u64(lo as int, hi as int);
    lemma_le_u32_bytes(s, off);
    lemma_le_u32_bytes(s, off + 4);
    assert(u64_bytes(v) =~= s.subrange(off, off + 8));
}

/// Two numbers with the same digit count and the same value have the same
/// digits.
pub proof fn lemma_le_nat_injective(s: Seq<u8>, t: Seq<u8>)
    requires
        s.len() == t.len(),
        le_nat(s) == le_nat(t),
    ensures
        s == t,
    decreases s.len(),
{
    if s.len() > 0 {
        lemma_le_nat_top(s, t);
        lemma_le_nat_top(t, s);
        lemma_le_nat_injective(s.drop_last(), t.drop_last());
        assert(s =~= s.drop_last().push(s.last()));
        assert(t =~= t.drop_last().push(t.last()));
    } else {
        assert(s =~= t);
    }
}

/// The eight little-endian bytes of one 64-bit limb.
#[verifier::opaque]
pub open spec fn limb8(v: u64) -> Seq<u8> {
    u64_bytes(v)
}

/// What is known of a limb's bytes: eight of them, reading back as the
/// limb, and equal to the bytes they were read from.
pub proof fn lemma_limb8(v: u64)
    ensures
        limb8(v).len() == 8,
        le_u64(limb8(v), 0) == v,
{
    reveal(limb8);
    lemma_u64_roundtrip(v);
}

/// The limb read at `off` has exactly the eight bytes it was read from.
pub proof fn lemma_limb8_read(s: Seq<u8>, off: int)
    requires
        0 <= off,
        off + 8 <= s.len(),
    ensures
        limb8(le_u64(s, off)) == s.subrange(off, off + 8),
{
    reveal(limb8);
    lemma_le_u64_bytes(s, off);
}

/// A limb's bytes are its `u64` little-endian bytes.
pub proof fn lemma_limb8_def(v: u64)
    ensures
        limb8(v) == u64_bytes(v),
{
    reveal(limb8);
}

/// The little-endian bytes of four little-endian 64-bit limbs.
pub open spec fn limb_bytes(l: [u64; 4]) -> Seq<u8> {
    limb8(l[0]) + limb8(l[1]) + limb8(l[2]) + limb8(l[3])
}

/// The number four little-endian 64-bit limbs stand for.
pub open spec fn limbs_nat(l: [u64; 4]) -> nat {
    le_nat(limb_bytes(l))
}

/// Limbs are determined by the number they stand for.
pub proof fn lemma_limbs_injective(a: [u64; 4], b: [u64; 4])
    requires
        limbs_nat(a) == limbs_nat(b),
    ensures
        a == b,
{
    let sa = limb_bytes(a);
    let sb = limb_bytes(b);
    lemma_limb8(a[0]);
    lemma_limb8(a[1]);
    lemma_limb8(a[2]);
    lemma_limb8(a[3]);
    lemma_limb8(b[0]);
    lemma_limb8(b[1]);
    lemma_limb8(b[2]);
    lemma_limb8(b[3]);
    lemma_le_nat_injective(sa, sb);
    lemma_limb_eq(a, b, 0);
    lemma_limb_eq(a, b, 1);
    lemma_limb_eq(a, b, 2);
    lemma_limb_eq(a, b, 3);
    assert(a@ =~= b@);
    vstd::array::axiom_array_ext_equal(a, b);
}

proof fn lemma_limb_eq(a: [u64; 4], b: [u64; 4], i: int)
    requires
        0 <= i < 4,
        limb_bytes(a) == limb_bytes(b),
    ensures
        a[i] == b[i],
{
    lemma_limb8(a[0]);
    lemma_limb8(a[1]);
    lemma_limb8(a[2]);
    lemma_limb8(a[3]);
    lemma_limb8(b[0]);
    lemma_limb8(b[1]);
    lemma_limb8(b[2]);
    lemma_limb8(b[3]);
    lemma_concat4_window(limb8(a[0]), limb8(a[1]), limb8(a[2]), limb8(a[3]), i);
    lemma_concat4_window(limb8(b[0]), limb8(b[1]), limb8(b[2]), limb8(b[3]), i);
    assert(le_u64(limb8(a[i]), 0) == le_u64(limb8(b[i]), 0));
}

/// The `i`-th 8-byte window of four 8-byte pieces is the `i`-th piece.
proof fn lemma_concat4_window(x0: Seq<u8>, x1: Seq<u8>, x2: Seq<u8>, x3: Seq<u8>, i: int)
    requires
        0 <= i < 4,
        x0.len() == 8,
        x1.len() == 8,
        x2.len() == 8,
        x3.len() == 8,
    ensures
        (x0 + x1 + x2 + x3).subrange(8 * i, 8 * i + 8) == seq![x0, x1, x2, x3][i],
{
    let t = x0 + x1 + x2 + x3;
    if i == 0 {
        assert(t.subrange(0, 8) =~= x0);
    } else if i == 1 {
        assert(t.subrange(8, 16) =~= x1);
    } else if i == 2 {
        assert(t.subrange(16, 24) =~= x2);
    } else {
        assert(t.subrange(24, 32) =~= x3);
    }
}

/// Four 8-byte windows determine a 32-byte string.
proof fn lemma_concat4_of_windows(t: Seq<u8>, x0: Seq<u8>, x1: Seq<u8>, x2: Seq<u8>, x3: Seq<u8>)
    requires
        t.len() == 32,
        t.subrange(0, 8) == x0,
        t.subrange(8, 16) == x1,
        t.subrange(16, 24) == x2,
        t.subrange(24, 32) == x3,
    ensures
        t == x0 + x1 + x2 + x3,
{
    assert forall|j: int| 0 <= j < 32 implies t[j] == (x0 + x1 + x2 + x3)[j] by {
        if j < 8 {
            assert(t.subrange(0, 8)[j] == t[j]);
        } else if j < 16 {
            assert(t.subrange(8, 16)[j - 8] == t[j]);
        } else if j < 24 {
            assert(t.subrange(16, 24)[j - 16] == t[j]);
        } else {
            assert(t.subrange(24, 32)[j - 24] == t[j]);
        }
    }
    assert(t =~= x0 + x1 + x2 + x3);
}

/// Read 32 little-endian bytes at `off` as four 64-bit limbs.
pub fn read_limbs(s: &[u8], off: usize) -> (r: [u64; 4])
    requires
        off + 32 <= s.len(),
    ensures
        limb_bytes(r) == s@.subrange(off as int, off + 32),
        limbs_nat(r) == le_nat(s@.subrange(off as int, off + 32)),
{
    let r = [read_u64(s, off), read_u64(s, off + 8), read_u64(s, off + 16), read_u64(s, off + 24)];
    proof {
        let t = s@.subrange(off as int, off + 32);
        lemma_limb8_read(s@, off as int);
        lemma_limb8_read(s@, off + 8);
        lemma_limb8_read(s@, off + 16);
        lemma_limb8_read(s@, off + 24);
        assert(t.subrange(0, 8) =~= s@.subrange(off as int, off + 8));
        assert(t.subrange(8, 16) =~= s@.subrange(off + 8, off + 16));
        assert(t.subrange(16, 24) =~= s@.subrange(off + 16, off + 24));
        assert(t.subrange(24, 32) =~= s@.subrange(off + 24, off + 32));
        lemma_concat4_of_windows(t, limb8(r[0]), limb8(r[1]), limb8(r[2]), limb8(r[3]));
    }
    r
}

/// The 32 little-endian bytes of four 64-bit limbs.
pub fn limbs_to_bytes(l: &[u64; 4]) -> (r: [u8; 32])
    ensures
        r@ == limb_bytes(*l),
{
    let mut out: Vec<u8> = Vec::new();
    push_u64(&mut out, l[0]);
    push_u64(&mut out, l[1]);
    push_u64(&mut out, l[2]);
    push_u64(&mut out, l[3]);
    proof {
        lemma_limb8_def(l[0]);
        lemma_limb8_def(l[1]);
        lemma_limb8_def(l[2]);
        lemma_limb8_def(l[3]);
    }
    assert(out@ =~= limb_bytes(*l));
    copy_array(out.as_slice(), 0)
}

/// Peeling off the lowest digit: `le_nat(s) = s[0] + 256 · le_nat(s[1..])`.
pub proof fn lemma_le_nat_cons(s: Seq<u8>)
    requires
        s.len() > 0,
    ensures
        le_nat(s) == s[0] + 256 * le_nat(s.drop_first()),
    decreases s.len(),
{
    if s.len() == 1 {
        assert(s.drop_last().len() == 0);
        assert(s.drop_first().len() == 0);
        assert(le_nat(s.drop_last()) == 0);
        assert(le_nat(s.drop_first()) == 0);
        assert(pow256(0) == 1);
        assert(s.last() == s[0]);
    } else {
        let d = s.drop_last();
        let t = s.drop_first();
        lemma_le_nat_cons(d);
        assert(t.drop_last() =~= d.drop_first());
        assert(t.last() == s.last());
        let n = s.len();
        let p = pow256((n - 2) as nat);
        assert(pow256((n - 1) as nat) == 256 * p);
        let x = le_nat(d.drop_first());
        let l = s.last() as nat;
        assert(256 * (x + l * p) == 256 * x + l * (256 * p)) by (nonlinear_arith);
        assert(d[0] == s[0]);
        assert(le_nat(d) == d[0] + 256 * x);
        assert(le_nat(t) == x + l * p);
        assert(le_nat(s) == le_nat(d) + l * pow256((n - 1) as nat));
    }
}

/// A number is zero exactly when all its digits are.
pub proof fn lemma_le_nat_zero(s: Seq<u8>)
    ensures
        (le_nat(s) == 0) == all_zero(s, 0, s.len() as int),
    decreases s.len(),
{
    if s.len() > 0 {
        let d = s.drop_last();
        lemma_le_nat_zero(d);
        let p = pow256((s.len() - 1) as nat);
        lemma_pow256_pos((s.len() - 1) as nat);
        let l = s.last() as nat;
        assert(l * p == 0 <==> l == 0) by (nonlinear_arith)
            requires
                p > 0,
        ;
        if all_zero(s, 0, s.len() as int) {
            assert(all_zero(d, 0, d.len() as int));
        }
        if le_nat(s) == 0 {
            assert forall|i: int| 0 <= i < s.len() implies s[i] == 0 by {
                if i < s.len() - 1 {
                    assert(d[i] == s[i]);
                }
            }
        }
    }
}

/// `256^n` is positive.
pub proof fn lemma_pow256_pos(n: nat)
    ensures
        pow256(n) > 0,
    decreases n,
{
    if n > 0 {
        lemma_pow256_pos((n - 1) as nat);
    }
}

} // verus!

//! Little-endian byte encoding of fixed-width integers, and the trait that
//! describes how a value is laid out in arena memory.

use vstd::prelude::*;
use crate::bits::is_power_of_two;

verus! {

/// `256^n`.
pub open spec fn pow256(n: nat) -> nat
    decreases n,
{
    if n == 0 {
        1
    } else {
        256 * pow256((n - 1) as nat)
    }
}

/// The `n` low-order bytes of `v`, least significant first.
pub open spec fn le_bytes(v: nat, n: nat) -> Seq<u8>
    decreases n,
{
    if n == 0 {
        Seq::empty()
    } else {
        seq![(v % 256) as u8] + le_bytes(v / 256, (n - 1) as nat)
    }
}

/// The number whose little-endian bytes are `s`.
pub open spec fn le_value(s: Seq<u8>) -> nat
    decreases s.len(),
{
    if s.len() == 0 {
        0
    } else {
        s[0] as nat + 256 * le_value(s.drop_first())
    }
}

pub proof fn lemma_pow256_values()
    ensures
        pow256(0) == 1,
        pow256(1) == 0x100,
        pow256(2) == 0x1_0000,
        pow256(3) == 0x100_0000,
        pow256(4) == 0x1_0000_0000,
        pow256(5) == 0x100_0000_0000,
        pow256(6) == 0x1_0000_0000_0000,
        pow256(7) == 0x100_0000_0000_0000,
        pow256(8) == 0x1_0000_0000_0000_0000,
{
    reveal_with_fuel(pow256, 9);
}

pub proof fn lemma_pow256_pos(n: nat)
    ensures
        pow256(n) >= 1,
    decreases n,
{
    if n > 0 {
        lemma_pow256_pos((n - 1) as nat);
    }
}

pub proof fn lemma_le_bytes_len(v: nat, n: nat)
    ensures
        le_bytes(v, n).len() == n,
    decreases n,
{
    if n > 0 {
        lemma_le_bytes_len(v / 256, (n - 1) as nat);
    }
}

/// Decoding the `n` little-endian bytes of `v` gives back `v` when it fits.
pub proof fn lemma_le_roundtrip(v: nat, n: nat)
    requires
        v < pow256(n),
    ensures
        le_bytes(v, n).len() == n,
        le_value(le_bytes(v, n)) == v,
    decreases n,
{
    lemma_le_bytes_len(v, n);
    if n > 0 {
        let rest = (n - 1) as nat;
        assert(v / 256 < pow256(rest)) by (nonlinear_arith)
            requires
                v < 256 * pow256(rest),
        ;
        lemma_le_roundtrip(v / 256, rest);
        let s = le_bytes(v, n);
        assert(s.drop_first() =~= le_bytes(v / 256, rest));
        assert(v == v % 256 + 256 * (v / 256)) by (nonlinear_arith);
    }
}

/// A little-endian value of `s.len()` bytes stays below `256^len`.
pub proof fn lemma_le_value_bound(s: Seq<u8>)
    ensures
        le_value(s) < pow256(s.len()),
    decreases s.len(),
{
    if s.len() > 0 {
        lemma_le_value_bound(s.drop_first());
        let r = le_value(s.drop_first());
        let p = pow256((s.len() - 1) as nat);
        assert(s[0] as nat + 256 * r < 256 * p) by (nonlinear_arith)
            requires
                r < p,
                s[0] < 256,
        ;
    }
}

/// Encoding the decoded value of a byte string gives back the byte string.
pub proof fn lemma_le_bytes_of_value(s: Seq<u8>)
    ensures
        le_bytes(le_value(s), s.len()) == s,
    decreases s.len(),
{
    if s.len() > 0 {
        lemma_le_bytes_of_value(s.drop_first());
        let v = le_value(s);
        let r = le_value(s.drop_first());
        assert(v % 256 == s[0] as nat && v / 256 == r) by (nonlinear_arith)
            requires
                v == s[0] as nat + 256 * r,
                s[0] < 256,
        ;
        assert(le_bytes(v, s.len()) =~= s);
    }
}

/// Appends the `n` little-endian bytes of `v` to `out`.
pub fn push_le(out: &mut Vec<u8>, v: u64, n: usize)
    requires
        n <= 8,
        (v as nat) < pow256(n as nat),
    ensures
        final(out)@ == old(out)@ + le_bytes(v as nat, n as nat),
{
    let mut x: u64 = v;
    let mut i: usize = 0;
    while i < n
        invariant
            i <= n,
            out@ + le_bytes(x as nat, (n - i) as nat) == old(out)@ + le_bytes(v as nat, n as nat),
        decreases n - i,
    {
        let ghost before = out@;
        let ghost k = (n - i) as nat;
        out.push((x % 256) as u8);
        proof {
            assert(le_bytes(x as nat, k) == seq![(x % 256) as u8] + le_bytes(
                (x / 256) as nat,
                (k - 1) as nat,
            ));
            assert(out@ + le_bytes((x / 256) as nat, (k - 1) as nat) =~= before + le_bytes(
                x as nat,
                k,
            ));
        }
        x = x / 256;
        i = i + 1;
    }
    assert(le_bytes(x as nat, 0) =~= Seq::<u8>::empty());
    assert(out@ + Seq::<u8>::empty() =~= out@);
}

/// Reads the little-endian number stored in `s[off..off + n]`.
pub fn read_le(s: &[u8], off: usize, n: usize) -> (r: u64)
    requires
        n <= 8,
        off + n <= s@.len(),
    ensures
        r as nat == le_value(s@.subrange(off as int, off + n)),
{
    let slen = s.len();
    let mut acc: u64 = 0;
    let mut i: usize = n;
    proof {
        lemma_pow256_values();
        assert(s@.subrange((off + n) as int, (off + n) as int) =~= Seq::<u8>::empty());
    }
    while i > 0
        invariant
            i <= n <= 8,
            off + n <= s@.len(),
            slen == s@.len(),
            acc as nat == le_value(s@.subrange(off + i, off + n)),
            (acc as nat) < pow256((n - i) as nat),
        decreases i,
    {
        let ghost sub = s@.subrange(off + i - 1, off + n);
        proof {
            lemma_pow256_values();
            lemma_le_value_bound(s@.subrange(off + i, off + n));
            assert(sub.drop_first() =~= s@.subrange(off + i, off + n));
            assert(pow256((n - i) as nat) <= pow256(7)) by {
                lemma_pow256_monotone((n - i) as nat, 7);
            }
            assert(pow256((n - i + 1) as nat) == 256 * pow256((n - i) as nat));
        }
        let b = s[off + (i - 1)];
        assert(acc * 256 + b < pow256((n - i + 1) as nat)) by (nonlinear_arith)
            requires
                (acc as nat) < pow256((n - i) as nat),
                pow256((n - i + 1) as nat) == 256 * pow256((n - i) as nat),
                b < 256,
        ;
        acc = acc * 256 + b as u64;
        i = i - 1;
    }
    acc
}

pub proof fn lemma_pow256_monotone(a: nat, b: nat)
    requires
        a <= b,
    ensures
        pow256(a) <= pow256(b),
    decreases b,
{
    if a < b {
        lemma_pow256_monotone(a, (b - 1) as nat);
        lemma_pow256_pos((b - 1) as nat);
    }
}

/// A value that can be stored in arena memory: a fixed number of bytes, an
/// alignment, and an encoding that decodes back to the value.
pub trait ArenaValue: Sized + Copy {
    /// Number of bytes the value occupies.
    spec fn spec_size() -> nat;

    /// Alignment the value asks for.
    spec fn spec_align() -> nat;

    /// The bytes written for `v`.
    spec fn spec_encode(v: Self) -> Seq<u8>;

    /// The value read from `bytes`.
    spec fn spec_decode(bytes: Seq<u8>) -> Self;

    proof fn lemma_codec(v: Self)
        ensures
            Self::spec_encode(v).len() == Self::spec_size(),
            Self::spec_decode(Self::spec_encode(v)) == v,
    ;

    proof fn lemma_shape()
        ensures
            0 < Self::spec_size() <= 0x1000,
            0 < Self::spec_align() <= 0x1000,
            is_power_of_two(Self::spec_align() as u64),
    ;

    fn size() -> (r: usize)
        ensures
            r as nat == Self::spec_size(),
    ;

    fn align() -> (r: usize)
        ensures
            r as nat == Self::spec_align(),
    ;

    fn encode(&self) -> (r: Vec<u8>)
        ensures
            r@ == Self::spec_encode(*self),
    ;

    fn decode(bytes: &[u8]) -> (r: Self)
        requires
            bytes@.len() == Self::spec_size(),
        ensures
            r == Self::spec_decode(bytes@),
    ;
}

/// Decodes the whole of `bytes` as one little-endian number of at most 8 bytes.
fn read_le_all(bytes: &[u8]) -> (r: u64)
    requires
        bytes@.len() <= 8,
    ensures
        r as nat == le_value(bytes@),
{
    let r = read_le(bytes, 0, bytes.len());
    assert(bytes@.subrange(0, bytes@.len() as int) =~= bytes@);
    r
}

pub proof fn lemma_pow2_small()
    ensures
        is_power_of_two(1),
        is_power_of_two(2),
        is_power_of_two(4),
        is_power_of_two(8),
{
    reveal(vstd::arithmetic::power2::is_pow2);
    assert(is_power_of_two(1));
    assert(is_power_of_two(2));
    assert(is_power_of_two(4));
    assert(is_power_of_two(8));
}

impl ArenaValue for u8 {
    open spec fn spec_size() -> nat {
        1
    }

    open spec fn spec_align() -> nat {
        1
    }

    open spec fn spec_encode(v: u8) -> Seq<u8> {
        le_bytes(v as nat, 1)
    }

    open spec fn spec_decode(bytes: Seq<u8>) -> u8 {
        le_value(bytes) as u8
    }

    proof fn lemma_codec(v: u8) {
        lemma_pow256_values();
        lemma_le_roundtrip(v as nat, 1);
    }

    proof fn lemma_shape() {
        lemma_pow2_small();
    }

    fn size() -> (r: usize) {
        1
    }

    fn align() -> (r: usize) {
        1
    }

    fn encode(&self) -> (r: Vec<u8>) {
        let mut out = Vec::new();
        proof {
            lemma_pow256_values();
        }
        push_le(&mut out, *self as u64, 1);
        assert(out@ =~= le_bytes(*self as nat, 1));
        out
    }

    fn decode(bytes: &[u8]) -> (r: u8) {
        proof {
            lemma_pow256_values();
            lemma_le_value_bound(bytes@);
        }
        read_le_all(bytes) as u8
    }
}

impl ArenaValue for u16 {
    open spec fn spec_size() -> nat {
        2
    }

    open spec fn spec_align() -> nat {
        2
    }

    open spec fn spec_encode(v: u16) -> Seq<u8> {
        le_bytes(v as nat, 2)
    }

    open spec fn spec_decode(bytes: Seq<u8>) -> u16 {
        le_value(bytes) as u16
    }

    proof fn lemma_codec(v: u16) {
        lemma_pow256_values();
        lemma_le_roundtrip(v as nat, 2);
    }

    proof fn lemma_shape() {
        lemma_pow2_small();
    }

    fn size() -> (r: usize) {
        2
    }

    fn align() -> (r: usize) {
        2
    }

    fn encode(&self) -> (r: Vec<u8>) {
        let mut out = Vec::new();
        proof {
            lemma_pow256_values();
        }
        push_le(&mut out, *self as u64, 2);
        assert(out@ =~= le_bytes(*self as nat, 2));
        out
    }

    fn decode(bytes: &[u8]) -> (r: u16) {
        proof {
            lemma_pow256_values();
            lemma_le_value_bound(bytes@);
        }
        read_le_all(bytes) as u16
    }
}

impl ArenaValue for u32 {
    open spec fn spec_size() -> nat {
        4
    }

    open spec fn spec_align() -> nat {
        4
    }

    open spec fn spec_encode(v: u32) -> Seq<u8> {
        le_bytes(v as nat, 4)
    }

    open spec fn spec_decode(bytes: Seq<u8>) -> u32 {
        le_value(bytes) as u32
    }

    proof fn lemma_codec(v: u32) {
        lemma_pow256_values();
        lemma_le_roundtrip(v as nat, 4);
    }

    proof fn lemma_shape() {
        lemma_pow2_small();
    }

    fn size() -> (r: usize) {
        4
    }

    fn align() -> (r: usize) {
        4
    }

    fn encode(&self) -> (r: Vec<u8>) {
        let mut out = Vec::new();
        proof {
            lemma_pow256_values();
        }
        push_le(&mut out, *self as u64, 4);
        assert(out@ =~= le_bytes(*self as nat, 4));
        out
    }

    fn decode(bytes: &[u8]) -> (r: u32) {
        proof {
            lemma_pow256_values();
            lemma_le_value_bound(bytes@);
        }
        read_le_all(bytes) as u32
    }
}

impl ArenaValue for u64 {
    open spec fn spec_size() -> nat {
        8
    }

    open spec fn spec_align() -> nat {
        8
    }

    open spec fn spec_encode(v: u64) -> Seq<u8> {
        le_bytes(v as nat, 8)
    }

    open spec fn spec_decode(bytes: Seq<u8>) -> u64 {
        le_value(bytes) as u64
    }

    proof fn lemma_codec(v: u64) {
        lemma_pow256_values();
        lemma_le_roundtrip(v as nat, 8);
    }

    proof fn lemma_shape() {
        lemma_pow2_small();
    }

    fn size() -> (r: usize) {
        8
    }

    fn align() -> (r: usize) {
        8
    }

    fn encode(&self) -> (r: Vec<u8>) {
        let mut out = Vec::new();
        proof {
            lemma_pow256_values();
        }
        push_le(&mut out, *self, 8);
        assert(out@ =~= le_bytes(*self as nat, 8));
        out
    }

    fn decode(bytes: &[u8]) -> (r: u64) {
        read_le_all(bytes)
    }
}

} // verus!

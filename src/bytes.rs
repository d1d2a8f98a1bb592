//! Little-endian integers read out of byte buffers.

use vstd::prelude::*;

verus! {

/// The unsigned value of `s` read as a little-endian number.
pub open spec fn le_nat(s: Seq<u8>) -> nat
    decreases s.len(),
{
    if s.len() == 0 {
        0
    } else {
        s[0] as nat + 256 * le_nat(s.drop_first())
    }
}

/// `256` raised to the power `k`.
pub open spec fn pow256(k: nat) -> nat
    decreases k,
{
    if k == 0 {
        1
    } else {
        256 * pow256((k - 1) as nat)
    }
}

/// The `n` bytes of `s` that start at `at`, read as a little-endian number.
pub open spec fn le_at(s: Seq<u8>, at: int, n: int) -> nat {
    le_nat(s.subrange(at, at + n))
}

/// The two's complement reading of an unsigned 32-bit pattern.
pub open spec fn signed32(u: nat) -> int {
    if u < 0x8000_0000 {
        u as int
    } else {
        u - 0x1_0000_0000
    }
}

/// The two's complement reading of a byte.
pub open spec fn signed8(u: u8) -> int {
    if u < 0x80 {
        u as int
    } else {
        u - 0x100
    }
}

/// Powers of 256 grow with the exponent.
pub proof fn lemma_pow256_mono(a: nat, b: nat)
    requires
        a <= b,
    ensures
        pow256(a) <= pow256(b),
    decreases b,
{
    if a < b {
        lemma_pow256_mono(a, (b - 1) as nat);
    }
}

/// The powers of 256 that the fixed-width reads use.
pub proof fn lemma_pow256_values()
    ensures
        pow256(1) == 0x100,
        pow256(2) == 0x1_0000,
        pow256(4) == 0x1_0000_0000,
        pow256(8) == 0x1_0000_0000_0000_0000,
{
    reveal_with_fuel(pow256, 9);
}

/// Reads `n <= 8` bytes at `start` as a little-endian unsigned number.
pub fn read_le(bytes: &[u8], start: usize, n: usize) -> (r: u64)
    requires
        n <= 8,
        start + n <= bytes@.len(),
    ensures
        r as nat == le_at(bytes@, start as int, n as int),
        (r as nat) < pow256(n as nat),
{
    let len = bytes.len();
    let mut acc: u64 = 0;
    let mut j: usize = n;
    proof {
        assert(bytes@.subrange(start + n, start + n).len() == 0);
    }
    while j > 0
        invariant
            j <= n,
            n <= 8,
            start + n <= bytes@.len(),
            len == bytes@.len(),
            acc as nat == le_at(bytes@, start + j, n - j),
            (acc as nat) < pow256((n - j) as nat),
        decreases j,
    {
        j = j - 1;
        let b: u8 = bytes[start + j];
        proof {
            let s = bytes@.subrange(start + j, start + n);
            assert(s.drop_first() =~= bytes@.subrange(start + j + 1, start + n));
            assert(s[0] == b);
            let k = (n - j) as nat;
            assert(pow256(k) == 256 * pow256((k - 1) as nat));
            lemma_pow256_mono(k, 8);
            lemma_pow256_values();
            assert(acc * 256 + b < pow256(k)) by (nonlinear_arith)
                requires
                    (acc as nat) < pow256((k - 1) as nat),
                    pow256(k) == 256 * pow256((k - 1) as nat),
                    b < 256,
            ;
        }
        acc = acc * 256 + b as u64;
    }
    acc
}

/// Reads a little-endian `u16` at `start`.
pub fn read_u16_le(bytes: &[u8], start: usize) -> (r: u16)
    requires
        start + 2 <= bytes@.len(),
    ensures
        r as nat == le_at(bytes@, start as int, 2),
{
    let v = read_le(bytes, start, 2);
    proof {
        lemma_pow256_values();
    }
    v as u16
}

/// Reads a little-endian `u32` at `start`.
pub fn read_u32_le(bytes: &[u8], start: usize) -> (r: u32)
    requires
        start + 4 <= bytes@.len(),
    ensures
        r as nat == le_at(bytes@, start as int, 4),
{
    let v = read_le(bytes, start, 4);
    proof {
        lemma_pow256_values();
    }
    v as u32
}

/// Reads a little-endian `u64` at `start`.
pub fn read_u64_le(bytes: &[u8], start: usize) -> (r: u64)
    requires
        start + 8 <= bytes@.len(),
    ensures
        r as nat == le_at(bytes@, start as int, 8),
{
    read_le(bytes, start, 8)
}

/// Reads a little-endian two's complement `i32` at `start`.
pub fn read_i32_le(bytes: &[u8], start: usize) -> (r: i32)
    requires
        start + 4 <= bytes@.len(),
    ensures
        r as int == signed32(le_at(bytes@, start as int, 4)),
{
    let u = read_u32_le(bytes, start);
    if u < 0x8000_0000 {
        u as i32
    } else {
        let low = (u - 0x8000_0000) as i32;
        low - 0x7fff_ffff - 1
    }
}

/// Reads a byte as a two's complement `i8`.
pub fn byte_to_i8(b: u8) -> (r: i8)
    ensures
        r as int == signed8(b),
{
    if b < 0x80 {
        b as i8
    } else {
        let low = (b - 0x80) as i8;
        low - 0x7f - 1
    }
}

/// The `n` little-endian bytes of `v`, keeping its lowest `n` bytes.
pub open spec fn le_bytes(v: nat, n: nat) -> Seq<u8>
    decreases n,
{
    if n == 0 {
        Seq::empty()
    } else {
        seq![(v % 256) as u8] + le_bytes(v / 256, (n - 1) as nat)
    }
}

/// Reading back the `n` little-endian bytes of a value below `256^n` gives
/// the value.
pub proof fn lemma_le_round_trip(v: nat, n: nat)
    requires
        v < pow256(n),
    ensures
        le_bytes(v, n).len() == n,
        le_nat(le_bytes(v, n)) == v,
    decreases n,
{
    if n > 0 {
        let p = pow256((n - 1) as nat);
        assert(pow256(n) == 256 * p);
        assert(v / 256 < p) by (nonlinear_arith)
            requires
                v < 256 * p,
        ;
        lemma_le_round_trip(v / 256, (n - 1) as nat);
        let s = le_bytes(v, n);
        assert(s.drop_first() =~= le_bytes(v / 256, (n - 1) as nat));
        assert(v == v % 256 + 256 * (v / 256));
    }
}

/// `le_bytes(v, n)` is `n` bytes long, whatever `v` is.
pub proof fn lemma_le_bytes_len(v: nat, n: nat)
    ensures
        le_bytes(v, n).len() == n,
    decreases n,
{
    if n > 0 {
        lemma_le_bytes_len(v / 256, (n - 1) as nat);
    }
}

} // verus!

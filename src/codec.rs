//! Fixed-width little-endian keys.
use vstd::prelude::*;

verus! {

/// The `k` low bytes of `n`, least significant first.
pub open spec fn le_bytes(n: nat, k: nat) -> Seq<u8>
    decreases k,
{
    if k == 0 {
        Seq::empty()
    } else {
        seq![(n % 256) as u8] + le_bytes(n / 256, (k - 1) as nat)
    }
}

/// The number whose little-endian bytes are `s`.
pub open spec fn le_value(s: Seq<u8>) -> nat
    decreases s.len(),
{
    if s.len() == 0 {
        0
    } else {
        s[0] as nat + 256 * le_value(s.drop_first())
    }
}

/// The 8-byte key of a surrogate id.
pub open spec fn le64(n: u64) -> Seq<u8> {
    le_bytes(n as nat, 8)
}

/// Two's complement of a signed 64-bit value, read as unsigned.
pub open spec fn twos64(i: i64) -> nat {
    if i >= 0 {
        i as nat
    } else {
        (i + 0x1_0000_0000_0000_0000) as nat
    }
}

pub proof fn lemma_le_bytes_len(n: nat, k: nat)
    ensures
        le_bytes(n, k).len() == k,
    decreases k,
{
    if k > 0 {
        lemma_le_bytes_len(n / 256, (k - 1) as nat);
    }
}

/// Reading back `k` encoded bytes gives the number modulo `256^k`.
pub proof fn lemma_le_round_trip(n: nat, k: nat)
    ensures
        le_value(le_bytes(n, k)) == n % pow256(k),
    decreases k,
{
    if k > 0 {
        let s = le_bytes(n, k);
        lemma_le_round_trip(n / 256, (k - 1) as nat);
        assert(s.drop_first() =~= le_bytes(n / 256, (k - 1) as nat));
        let p = pow256((k - 1) as nat);
        assert(p > 0) by {
            lemma_pow256_pos((k - 1) as nat);
        }
        assert((n % 256) + 256 * ((n / 256) % p) == n % (256 * p)) by (nonlinear_arith)
            requires
                p > 0,
        {
            vstd::arithmetic::div_mod::lemma_breakdown(n as int, 256, p as int);
        }
    }
}

pub open spec fn pow256(k: nat) -> nat
    decreases k,
{
    if k == 0 {
        1
    } else {
        256 * pow256((k - 1) as nat)
    }
}

pub proof fn lemma_pow256_pos(k: nat)
    ensures
        pow256(k) > 0,
    decreases k,
{
    if k > 0 {
        lemma_pow256_pos((k - 1) as nat);
    }
}

/// Distinct ids have distinct keys.
pub proof fn lemma_le64_injective(a: u64, b: u64)
    ensures
        le64(a) == le64(b) ==> a == b,
{
    lemma_le_round_trip(a as nat, 8);
    lemma_le_round_trip(b as nat, 8);
    lemma_pow256_values();
}

/// Little-endian bytes of `n`, `k` of them.
fn push_le(out: &mut Vec<u8>, n: u64, k: usize)
    requires
        k <= 8,
    ensures
        final(out)@ == old(out)@ + le_bytes(n as nat, k as nat),
{
    let mut x: u64 = n;
    let mut i: usize = 0;
    while i < k
        invariant
            i <= k,
            out@ + le_bytes(x as nat, (k - i) as nat) == old(out)@ + le_bytes(n as nat, k as nat),
        decreases k - i,
    {
        let ghost before = out@;
        out.push((x % 256) as u8);
        proof {
            assert(le_bytes(x as nat, (k - i) as nat) =~= seq![(x % 256) as u8] + le_bytes(
                (x / 256) as nat,
                (k - i - 1) as nat,
            ));
            assert(out@ + le_bytes((x / 256) as nat, (k - i - 1) as nat) =~= before + le_bytes(
                x as nat,
                (k - i) as nat,
            ));
        }
        x = x / 256;
        i = i + 1;
    }
}

/// The key of a surrogate id: 8 bytes, little-endian.
pub fn enc_pk(pk: u64) -> (r: Vec<u8>)
    ensures
        r@ == le64(pk),
{
    let mut v: Vec<u8> = Vec::new();
    push_le(&mut v, pk, 8);
    assert(v@ =~= le64(pk));
    v
}

/// The key of a signed integer: its two's complement, 8 bytes, little-endian.
pub fn enc_i64(i: i64) -> (r: Vec<u8>)
    ensures
        r@ == le_bytes(twos64(i), 8),
{
    let u: u64 = if i >= 0 {
        i as u64
    } else {
        0xFFFF_FFFF_FFFF_FFFFu64 - ((-(i + 1)) as u64)
    };
    assert(u as nat == twos64(i));
    let mut v: Vec<u8> = Vec::new();
    push_le(&mut v, u, 8);
    assert(v@ =~= le_bytes(twos64(i), 8));
    v
}

/// The number held by the first 8 bytes of `b`, little-endian: all 8 count.
pub fn from_le_bytes(b: &Vec<u8>) -> (r: u64)
    requires
        b@.len() >= 8,
    ensures
        r as nat == le_value(b@.subrange(0, 8)),
{
    let mut d: u64 = 0;
    let mut i: usize = 8;
    while i > 0
        invariant
            i <= 8,
            b@.len() >= 8,
            d as nat == le_value(b@.subrange(i as int, 8)),
            d < pow256((8 - i) as nat),
        decreases i,
    {
        let ghost old_d = d;
        i = i - 1;
        proof {
            assert(b@.subrange(i as int, 8).drop_first() =~= b@.subrange(i + 1, 8));
            assert(pow256((8 - i) as nat) == 256 * pow256((8 - i - 1) as nat));
            lemma_pow256_values();
            lemma_pow_mono((8 - i - 1) as nat, 7);
            assert(old_d * 256 + 255 < 0x1_0000_0000_0000_0000) by (nonlinear_arith)
                requires
                    old_d < 0x100_0000_0000_0000,
            ;
            assert(old_d * 256 + b@[i as int] < 256 * pow256((8 - i - 1) as nat))
                by (nonlinear_arith)
                requires
                    old_d < pow256((8 - i - 1) as nat),
                    b@[i as int] < 256,
            ;
        }
        d = d * 256 + b[i] as u64;
    }
    d
}

proof fn lemma_pow256_values()
    ensures
        pow256(7) == 0x100_0000_0000_0000,
        pow256(8) == 0x1_0000_0000_0000_0000,
{
    reveal_with_fuel(pow256, 9);
}

proof fn lemma_pow_mono(a: nat, b: nat)
    requires
        a <= b,
    ensures
        pow256(a) <= pow256(b),
    decreases b,
{
    if a < b {
        lemma_pow_mono(a, (b - 1) as nat);
        lemma_pow256_pos((b - 1) as nat);
    }
}

/// Decoding an encoded id gives the id back.
pub proof fn lemma_pk_round_trip(pk: u64)
    ensures
        le64(pk).len() == 8,
        le_value(le64(pk)) == pk,
        le_value(le64(pk).subrange(0, 8)) == pk,
{
    lemma_le_bytes_len(pk as nat, 8);
    lemma_le_round_trip(pk as nat, 8);
    lemma_pow256_values();
    assert(le64(pk).subrange(0, 8) =~= le64(pk));
}

} // verus!

//! The IEEE-754 double nearest to an integer, as a bit pattern: what a
//! number index keys an integer by.
use vstd::prelude::*;
use vstd::arithmetic::div_mod::{lemma_fundamental_div_mod, lemma_mod_bound};
use vstd::arithmetic::power2::{
    lemma2_to64,
    lemma2_to64_rest,
    lemma_pow2_adds,
    lemma_pow2_pos,
    lemma_pow2_strictly_increases,
    lemma_pow2_unfold,
    pow2,
};

verus! {

/// The position of the highest set bit of `m`, for `m >= 1`.
pub open spec fn top_bit(m: nat) -> nat
    decreases m,
{
    if m < 2 {
        0
    } else {
        1 + top_bit(m / 2)
    }
}

/// `m / 2^s` rounded to the nearest integer, ties to the even one.
pub open spec fn round_shift(m: nat, s: nat) -> nat {
    let q = m / pow2(s);
    let r = m % pow2(s);
    if s == 0 {
        q
    } else if r > pow2((s - 1) as nat) || (r == pow2((s - 1) as nat) && q % 2 == 1) {
        q + 1
    } else {
        q
    }
}

/// The bits of the double nearest to `m`, negated where `neg`, rounding to
/// nearest with ties to even: the sign bit, the biased exponent
/// `1023 + e` for `2^e <= value < 2^(e+1)`, and the 52 fraction bits.
/// Zero is the all-zero pattern.
pub open spec fn double_bits(neg: bool, m: nat) -> nat {
    let sign: nat = if neg {
        pow2(63)
    } else {
        0
    };
    if m == 0 {
        0
    } else if top_bit(m) <= 52 {
        (sign + (1023 + top_bit(m)) * pow2(52) + (m * pow2((52 - top_bit(m)) as nat) - pow2(52))) as nat
    } else if round_shift(m, (top_bit(m) - 52) as nat) == pow2(53) {
        sign + (1024 + top_bit(m)) * pow2(52)
    } else {
        (sign + (1023 + top_bit(m)) * pow2(52) + (round_shift(m, (top_bit(m) - 52) as nat) - pow2(52))) as nat
    }
}

/// The bits of the double nearest to the integer `i`.
pub open spec fn int_double_bits(i: int) -> nat {
    if i < 0 {
        double_bits(true, (-i) as nat)
    } else {
        double_bits(false, i as nat)
    }
}

proof fn lemma_top_bit(m: nat)
    requires
        m >= 1,
    ensures
        pow2(top_bit(m)) <= m < pow2(top_bit(m) + 1),
    decreases m,
{
    if m >= 2 {
        lemma_top_bit(m / 2);
        let e = top_bit(m / 2);
        lemma_pow2_unfold(e + 1);
        lemma_pow2_unfold(e + 2);
    } else {
        lemma2_to64();
    }
}

fn pow2_exec(k: u64) -> (r: u64)
    requires
        k < 64,
    ensures
        r == pow2(k as nat),
{
    let mut r: u64 = 1;
    let mut i: u64 = 0;
    proof {
        lemma2_to64();
    }
    while i < k
        invariant
            i <= k < 64,
            r == pow2(i as nat),
        decreases k - i,
    {
        proof {
            lemma_pow2_unfold((i + 1) as nat);
            lemma_pow2_strictly_increases((i + 1) as nat, 64);
            lemma2_to64();
        }
        r = r * 2;
        i = i + 1;
    }
    r
}

proof fn lemma_quotient_range(m: nat, d: nat, lo: nat, q: nat, r: nat)
    requires
        d > 0,
        m == d * q + r,
        r < d,
        lo * d <= m < 2 * lo * d,
    ensures
        lo <= q < 2 * lo,
{
    assert(lo <= q) by (nonlinear_arith)
        requires
            d > 0,
            m == d * q + r,
            r < d,
            lo * d <= m,
    ;
    assert(q < 2 * lo) by (nonlinear_arith)
        requires
            d > 0,
            m == d * q + r,
            m < 2 * lo * d,
    ;
}

/// The bits of the double nearest to `m`, negated where `neg`.
pub fn double_bits_exec(neg: bool, m: u64) -> (r: u64)
    ensures
        r as nat == double_bits(neg, m as nat),
{
    if m == 0 {
        return 0;
    }
    let mut e: u64 = 0;
    let mut t: u64 = m;
    proof {
        lemma_top_bit(m as nat);
        lemma2_to64();
        if top_bit(m as nat) >= 64 {
            lemma_pow2_strictly_increases(64, top_bit(m as nat));
        }
    }
    while t >= 2
        invariant
            1 <= t,
            top_bit(m as nat) < 64,
            top_bit(m as nat) == e + top_bit(t as nat),
        decreases t,
    {
        t = t / 2;
        e = e + 1;
    }
    assert(e == top_bit(m as nat));
    let ghost en = e as nat;
    proof {
        lemma2_to64();
        lemma2_to64_rest();
    }
    let sign: u64 = if neg {
        0x8000_0000_0000_0000u64
    } else {
        0
    };
    assert(sign as nat == if neg { pow2(63) } else { 0nat });
    let one52 = pow2_exec(52);
    if e <= 52 {
        let scale = pow2_exec(52 - e);
        proof {
            lemma_pow2_adds(en + 1, (52 - en) as nat);
            lemma_pow2_adds(en, (52 - en) as nat);
            lemma_pow2_pos((52 - en) as nat);
            let mm = m as nat;
            let sc = scale as nat;
            assert(mm * sc < pow2(en + 1) * sc) by (nonlinear_arith)
                requires
                    mm < pow2(en + 1),
                    sc > 0,
            ;
            assert(mm * sc >= pow2(en) * sc) by (nonlinear_arith)
                requires
                    mm >= pow2(en),
                    sc > 0,
            ;
            assert((en + 1 + (52 - en)) as nat == 53);
            assert((en + (52 - en)) as nat == 52);
        }
        let frac = m * scale - one52;
        sign + (1023 + e) * one52 + frac
    } else {
        let s = e - 52;
        let d = pow2_exec(s);
        let h = pow2_exec(s - 1);
        let q = m / d;
        let r = m % d;
        proof {
            let sn = s as nat;
            lemma_pow2_pos(sn);
            lemma_pow2_adds(52, sn);
            lemma_pow2_adds(53, sn);
            assert((52 + sn) as nat == en);
            assert((53 + sn) as nat == en + 1);
            lemma_fundamental_div_mod(m as int, d as int);
            lemma_mod_bound(m as int, d as int);
            lemma_quotient_range(m as nat, d as nat, pow2(52), q as nat, r as nat);
            lemma_pow2_unfold(53);
        }
        let q2 = if r > h || (r == h && q % 2 == 1) {
            q + 1
        } else {
            q
        };
        assert(q2 as nat == round_shift(m as nat, s as nat));
        if q2 == 2 * one52 {
            sign + (1024 + e) * one52
        } else {
            sign + (1023 + e) * one52 + (q2 - one52)
        }
    }
}

/// The bits of the double nearest to `i`.
pub fn i64_double_bits(i: i64) -> (r: u64)
    ensures
        r as nat == int_double_bits(i as int),
{
    if i < 0 {
        let m: u64 = if i == -0x8000_0000_0000_0000i64 {
            0x8000_0000_0000_0000u64
        } else {
            (-i) as u64
        };
        double_bits_exec(true, m)
    } else {
        double_bits_exec(false, i as u64)
    }
}

/// The bits of the double nearest to `u`.
pub fn u64_double_bits(u: u64) -> (r: u64)
    ensures
        r as nat == int_double_bits(u as int),
{
    double_bits_exec(false, u)
}

} // verus!

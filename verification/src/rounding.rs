//! Rounding a similarity score, held as the bit pattern of an `f64`, to
//! whole thousandths, as `(score * 1000.0).round()` does in floating point.
use vstd::prelude::*;
use vstd::arithmetic::power2::{pow2, lemma_pow2_unfold, lemma_pow2_pos, lemma_pow2_adds, lemma_pow2_strictly_increases, lemma2_to64};
use vstd::arithmetic::div_mod::{lemma_div_denominator, lemma_fundamental_div_mod};

verus! {

/// The number of binary digits of `p`.
pub open spec fn bit_len(p: nat) -> nat
    decreases p,
{
    if p == 0 {
        0
    } else {
        1 + bit_len(p / 2)
    }
}

/// `p` rounded to at most 53 significant binary digits, ties to the even
/// neighbour: the rounding of a product of two doubles.
pub open spec fn round_to_53(p: nat) -> nat {
    let b = bit_len(p);
    if b <= 53 {
        p
    } else {
        let d = (b - 53) as nat;
        let q = p / pow2(d);
        let r = p % pow2(d);
        let half = pow2((d - 1) as nat);
        let up = r > half || (r == half && q % 2 == 1);
        ((if up { q + 1 } else { q }) * pow2(d)) as nat
    }
}

/// `p * 2^k` rounded to the nearest integer, halves away from zero.
pub open spec fn round_scaled(p: nat, k: int) -> nat {
    if k >= 0 {
        p * pow2(k as nat)
    } else {
        (p + pow2((-k - 1) as nat)) / pow2((-k) as nat)
    }
}

/// Thousandths of the non-negative double whose bits are `bits`: the double
/// times 1000, rounded as a product of doubles is, then rounded to an integer
/// with halves away from zero. A negative double counts as none; an infinite
/// or NaN one, and a count beyond `u64`, as `u64::MAX`.
pub open spec fn millis_of(bits: u64) -> u64 {
    let e = (bits / 0x10_0000_0000_0000) % 2048;
    let f = bits % 0x10_0000_0000_0000;
    if bits >= 0x8000_0000_0000_0000 {
        0
    } else if e == 2047 {
        u64::MAX
    } else {
        let m: nat = if e == 0 { f as nat } else { (f + 0x10_0000_0000_0000) as nat };
        let k: int = if e == 0 { -1074 } else { e - 1075 };
        let n = round_scaled(round_to_53(m * 1000), k);
        if n > u64::MAX { u64::MAX } else { n as u64 }
    }
}

proof fn lemma_bit_len_bound(p: nat, n: nat)
    requires
        p < pow2(n),
    ensures
        bit_len(p) <= n,
    decreases p,
{
    if p > 0 {
        if n == 0 {
            lemma2_to64();
        } else {
            lemma_pow2_unfold(n);
            lemma_bit_len_bound(p / 2, (n - 1) as nat);
        }
    }
}

/// The number of binary digits of `p`.
fn binary_digits(p: u128) -> (r: u32)
    ensures
        r == bit_len(p as nat),
{
    proof {
        assert(bit_len(p as nat) <= 128) by {
            assert(pow2(128) == 0x1_0000_0000_0000_0000_0000_0000_0000_0000) by {
                lemma2_to64();
                lemma_pow2_adds(64, 64);
            }
            lemma_bit_len_bound(p as nat, 128);
        }
    }
    let mut x = p;
    let mut count: u32 = 0;
    while x > 0
        invariant
            bit_len(p as nat) == count + bit_len(x as nat),
            bit_len(p as nat) <= 128,
        decreases x,
    {
        proof {
            assert(bit_len(x as nat) == 1 + bit_len((x / 2) as nat));
        }
        x = x / 2;
        count = count + 1;
    }
    count
}

/// `2^d`, for `d` up to 10.
fn small_pow2(d: u32) -> (r: u128)
    requires
        d <= 10,
    ensures
        r == pow2(d as nat),
        r <= 1024,
{
    let mut r: u128 = 1;
    let mut i: u32 = 0;
    proof {
        lemma2_to64();
    }
    while i < d
        invariant
            i <= d <= 10,
            r == pow2(i as nat),
            r <= 1024,
        decreases d - i,
    {
        proof {
            lemma_pow2_unfold((i + 1) as nat);
            lemma2_to64();
            if i + 1 < 10 {
                lemma_pow2_strictly_increases((i + 1) as nat, 10);
            }
        }
        r = r * 2;
        i = i + 1;
    }
    r
}

/// `p` rounded to 53 significant binary digits, ties to even.
fn to_53_digits(p: u128) -> (r: u128)
    requires
        p < 0x8000_0000_0000_0000,
    ensures
        r == round_to_53(p as nat),
        r <= p + 1024,
{
    let b = binary_digits(p);
    if b <= 53 {
        return p;
    }
    proof {
        assert(pow2(63) == 0x8000_0000_0000_0000) by {
            lemma2_to64();
            lemma_pow2_adds(32, 31);
        }
        lemma_bit_len_bound(p as nat, 63);
    }
    let d = b - 53;
    let pw = small_pow2(d);
    let half = small_pow2(d - 1);
    proof {
        lemma_pow2_pos(d as nat);
    }
    let q = p / pw;
    let r = p % pw;
    let up = r > half || (r == half && q % 2 == 1);
    let q2 = if up { q + 1 } else { q };
    proof {
        lemma_pow2_pos(d as nat);
        lemma_fundamental_div_mod(p as int, pw as int);
        assert(q * pw <= p) by (nonlinear_arith)
            requires
                p == pw * q + r,
                0 <= r,
        ;
        assert(q2 * pw <= p + pw) by (nonlinear_arith)
            requires
                q2 <= q + 1,
                q * pw <= p,
        ;
    }
    q2 * pw
}

/// The first `t` halvings of `x`: `x / 2^t`.
fn halve(x: u128, t: u32) -> (r: u128)
    ensures
        r == x as nat / pow2(t as nat),
{
    let mut y = x;
    let mut i: u32 = 0;
    proof {
        lemma2_to64();
    }
    while i < t
        invariant
            i <= t,
            y == x as nat / pow2(i as nat),
        decreases t - i,
    {
        proof {
            lemma_pow2_pos(i as nat);
            lemma_pow2_unfold((i + 1) as nat);
            lemma_div_denominator(x as int, pow2(i as nat) as int, 2);
            assert(pow2(i as nat) * 2 == pow2((i + 1) as nat));
        }
        y = y / 2;
        i = i + 1;
    }
    y
}

proof fn lemma_half_up(x: nat, t: nat)
    requires
        t >= 1,
    ensures
        (x / pow2((t - 1) as nat) + 1) / 2 == (x + pow2((t - 1) as nat)) / pow2(t),
{
    let h = pow2((t - 1) as nat);
    lemma_pow2_pos((t - 1) as nat);
    lemma_pow2_unfold(t);
    let a = x / h;
    let r = x % h;
    lemma_fundamental_div_mod(x as int, h as int);
    let c = (a + 1) / 2;
    let s = (a + 1) % 2;
    assert(a + 1 == 2 * c + s);
    assert(x + h == (2 * h) * c + (s * h + r)) by (nonlinear_arith)
        requires
            x == h * a + r,
            a + 1 == 2 * c + s,
    ;
    assert(0 <= s * h + r < 2 * h) by (nonlinear_arith)
        requires
            0 <= s < 2,
            0 <= r < h,
    ;
    vstd::arithmetic::div_mod::lemma_fundamental_div_mod_converse(
        (x + h) as int,
        (2 * h) as int,
        c as int,
        (s * h + r) as int,
    );
}

/// `p * 2^k` rounded to an integer, halves away from zero, or `u64::MAX` when
/// that is beyond `u64`; `k` is `-shift` when `negative`, `shift` otherwise.
fn scaled_rounded(p: u128, negative: bool, shift: u32) -> (r: u64)
    requires
        p < 0x8000_0000_0000_0000 + 1024,
        negative ==> shift >= 1,
    ensures
        ({
            let n = round_scaled(p as nat, if negative { -(shift as int) } else { shift as int });
            r == if n > u64::MAX { u64::MAX } else { n as u64 }
        }),
{
    if negative {
        let y = halve(p, shift - 1);
        proof {
            lemma_pow2_pos((shift - 1) as nat);
            assert(y <= p) by {
                vstd::arithmetic::div_mod::lemma_div_is_ordered_by_denominator(p as int, 1, pow2((shift - 1) as nat) as int);
            }
        }
        let n = (y + 1) / 2;
        proof {
            lemma_half_up(p as nat, shift as nat);
            let k: int = -(shift as int);
            assert((-k - 1) as nat == (shift - 1) as nat);
            assert((-k) as nat == shift as nat);
        }
        if n > 0xffff_ffff_ffff_ffff {
            0xffff_ffff_ffff_ffff
        } else {
            n as u64
        }
    } else {
        let mut acc: u128 = p;
        let mut i: u32 = 0;
        proof {
            lemma2_to64();
        }
        while i < shift && acc <= 0xffff_ffff_ffff_ffff
            invariant
                i <= shift,
                acc == p * pow2(i as nat),
            decreases shift - i,
        {
            proof {
                lemma_pow2_unfold((i + 1) as nat);
                assert(p * pow2((i + 1) as nat) == p * pow2(i as nat) * 2) by (nonlinear_arith)
                    requires
                        pow2((i + 1) as nat) == 2 * pow2(i as nat),
                ;
            }
            acc = acc * 2;
            i = i + 1;
        }
        if acc > 0xffff_ffff_ffff_ffff {
            proof {
                let rest = (shift - i) as nat;
                lemma_pow2_adds(i as nat, rest);
                lemma_pow2_pos(rest);
                assert((i as nat + rest) as nat == shift as nat);
                assert(p * pow2(shift as nat) >= acc) by (nonlinear_arith)
                    requires
                        acc == p * pow2(i as nat),
                        pow2(shift as nat) == pow2(i as nat) * pow2(rest),
                        pow2(rest) >= 1,
                ;
            }
            0xffff_ffff_ffff_ffff
        } else {
            proof {
                assert(i == shift);
            }
            acc as u64
        }
    }
}

/// The score whose bits are `bits` in whole thousandths: what
/// `(score * 1000.0).round()` gives for a non-negative finite score.
pub fn score_millis(bits: u64) -> (n: u64)
    ensures
        n == millis_of(bits),
{
    if bits >= 0x8000_0000_0000_0000 {
        return 0;
    }
    let e = (bits / 0x10_0000_0000_0000) % 2048;
    if e == 2047 {
        return 0xffff_ffff_ffff_ffff;
    }
    let f = bits % 0x10_0000_0000_0000;
    let m: u128 = if e == 0 { f as u128 } else { f as u128 + 0x10_0000_0000_0000 };
    let p = to_53_digits(m * 1000);
    if e == 0 {
        scaled_rounded(p, true, 1074)
    } else if e < 1075 {
        scaled_rounded(p, true, (1075 - e) as u32)
    } else {
        scaled_rounded(p, false, (e - 1075) as u32)
    }
}

} // verus!

//! JavaScript numbers, by their bits.
//!
//! A JavaScript number is an IEEE 754 double. Nothing here computes with one:
//! what this client has to know of a number is whether it is a whole one, which
//! integer it is when it is, and which double an integer rounds to, and all three
//! are questions about the 64 bits a double is made of.

use vstd::arithmetic::power2::{lemma_pow2_adds, lemma_pow2_pos, lemma_pow2_strictly_increases, lemma2_to64, lemma2_to64_rest, pow2};
use vstd::prelude::*;

verus! {

/// 2^52, which is how many significands share one exponent.
pub const HIDDEN: u64 = 0x10_0000_0000_0000;

/// 2^53, past which a double can no longer be told from its neighbours.
pub const PAST: i128 = 9_007_199_254_740_992;

/// Where the integers read out of a double are cut off, on either side. It is
/// past every integer type a count is read into, so nothing is lost by the cut
/// that the read would have kept.
pub const FAR: i128 = 36_893_488_147_419_103_232;

/// Whether the double with these bits is negative.
pub open spec fn negative(bits: u64) -> bool {
    bits >= 0x8000_0000_0000_0000
}

/// The eleven exponent bits.
pub open spec fn exponent(bits: u64) -> int {
    (bits as int / HIDDEN as int) % 2048
}

/// The fifty-two fraction bits.
pub open spec fn fraction(bits: u64) -> int {
    bits as int % HIDDEN as int
}

/// Whether the double is a number with a magnitude, rather than an infinity or a
/// NaN.
pub open spec fn finite(bits: u64) -> bool {
    exponent(bits) != 2047
}

/// Whether the double is a NaN.
pub open spec fn nan(bits: u64) -> bool {
    exponent(bits) == 2047 && fraction(bits) != 0
}

/// The significand a finite double multiplies its power of two by.
pub open spec fn significand(bits: u64) -> int {
    if exponent(bits) == 0 { fraction(bits) } else { HIDDEN as int + fraction(bits) }
}

/// The power of two a finite double multiplies its significand by.
pub open spec fn power(bits: u64) -> int {
    if exponent(bits) == 0 { -1074 } else { exponent(bits) - 1075 }
}

/// The magnitude of a finite double with the part after the point cut off.
pub open spec fn magnitude(bits: u64) -> int {
    if power(bits) >= 0 {
        significand(bits) * pow2(power(bits) as nat)
    } else {
        significand(bits) / pow2((-power(bits)) as nat) as int
    }
}

/// Whether there is nothing after the point. An infinity and a NaN are not whole.
pub open spec fn whole(bits: u64) -> bool {
    finite(bits) && (power(bits) >= 0 || significand(bits) % (pow2((-power(bits)) as nat) as int) == 0)
}

/// The integer a double is, once the part after the point is cut off. It is the
/// double itself when [`whole`] holds of it.
pub open spec fn integral(bits: u64) -> int {
    if negative(bits) { -magnitude(bits) } else { magnitude(bits) }
}

/// A number cut off at two ends.
pub open spec fn clamped(n: int, low: int, high: int) -> int {
    if n < low { low } else if n > high { high } else { n }
}

/// What a cast of a double to an integer gives, before it is cut off at the ends
/// of the integer's own range: nothing for a NaN, the far end for an infinity,
/// and the part before the point for everything else.
pub open spec fn cast(bits: u64) -> int {
    if nan(bits) {
        0
    } else if !finite(bits) {
        if negative(bits) { -(FAR as int) } else { FAR as int }
    } else {
        clamped(integral(bits), -(FAR as int), FAR as int)
    }
}

/// What a cast of a double to an `i64` gives.
pub open spec fn cast_i64(bits: u64) -> int {
    clamped(cast(bits), i64::MIN as int, i64::MAX as int)
}

/// What a cast of a double to a `u64` gives.
pub open spec fn cast_u64(bits: u64) -> int {
    clamped(cast(bits), 0, u64::MAX as int)
}

/// What a cast of a double to a `usize` gives.
pub open spec fn cast_usize(bits: u64) -> int {
    clamped(cast(bits), 0, usize::MAX as int)
}

/// Whether the double is a zero, of either sign.
pub open spec fn zero(bits: u64) -> bool {
    bits == 0 || bits == 0x8000_0000_0000_0000
}

fn exponent_bits(bits: u64) -> (r: u64)
    ensures
        r == exponent(bits),
        r < 2048,
{
    (bits / HIDDEN) % 2048
}

fn fraction_bits(bits: u64) -> (r: u64)
    ensures
        r == fraction(bits),
        r < HIDDEN,
{
    bits % HIDDEN
}

/// 2^k, for a shift that fits a word.
fn two(k: u64) -> (r: u64)
    requires
        k < 64,
    ensures
        r == pow2(k as nat),
{
    let mut made: u64 = 1;
    let mut at: u64 = 0;
    proof {
        lemma2_to64();
    }
    while at < k
        invariant
            at <= k < 64,
            made == pow2(at as nat),
        decreases k - at,
    {
        proof {
            lemma2_to64();
            lemma2_to64_rest();
            lemma_pow2_adds(at as nat, 1);
            if at + 1 < 63 {
                lemma_pow2_strictly_increases((at + 1) as nat, 63);
            }
        }
        made = made * 2;
        at += 1;
    }
    made
}

/// Whether the double with these bits is a whole number, and the number with the
/// part after the point cut off.
pub fn read(bits: u64) -> (r: (bool, i128))
    ensures
        r.0 == whole(bits),
        r.1 == cast(bits),
        -(FAR as int) <= r.1 <= FAR,
{
    let e: u64 = exponent_bits(bits);
    let f: u64 = fraction_bits(bits);
    let minus: bool = bits >= 0x8000_0000_0000_0000;
    if e == 2047 {
        if f != 0 {
            return (false, 0);
        }
        return (false, if minus { -FAR } else { FAR });
    }
    let s: u64 = if e == 0 { f } else { HIDDEN + f };
    proof {
        lemma2_to64();
        lemma2_to64_rest();
        assert(s == significand(bits));
        assert(s < pow2(53));
    }
    if e >= 1075 {
        let k: u64 = e - 1075;
        if k >= 13 {
            proof {
                if k > 13 {
                    lemma_pow2_strictly_increases(13, k as nat);
                }
                let p = pow2(k as nat) as int;
                assert(p >= 8192);
                assert(s * p >= 0x10_0000_0000_0000 * 8192) by (nonlinear_arith)
                    requires
                        s >= 0x10_0000_0000_0000,
                        p >= 8192,
                ;
                assert(magnitude(bits) >= FAR);
            }
            return (true, if minus { -FAR } else { FAR });
        }
        let p: u64 = two(k);
        proof {
            if k < 12 {
                lemma_pow2_strictly_increases(k as nat, 12);
            }
            assert(0 <= s * p <= 0x20_0000_0000_0000 * 4096) by (nonlinear_arith)
                requires
                    0 <= s <= 0x20_0000_0000_0000,
                    0 <= p <= 4096,
            ;
        }
        let m: i128 = (s as i128) * (p as i128);
        return (true, if minus { -m } else { m });
    }
    let k: u64 = if e == 0 { 1074 } else { 1075 - e };
    if k >= 53 {
        proof {
            if k > 53 {
                lemma_pow2_strictly_increases(53, k as nat);
            }
            let p = pow2(k as nat) as int;
            assert(s as int / p == 0 && s as int % p == s) by (nonlinear_arith)
                requires
                    0 <= s < p,
            ;
        }
        return (s == 0, 0);
    }
    let p: u64 = two(k);
    proof {
        lemma_pow2_pos(k as nat);
        assert(0 <= s as int / p as int <= s) by (nonlinear_arith)
            requires
                s >= 0,
                p >= 1,
        ;
    }
    let m: i128 = (s / p) as i128;
    (s % p == 0, if minus { -m } else { m })
}

/// Whether there is nothing after the point.
pub fn is_whole(bits: u64) -> (r: bool)
    ensures
        r == whole(bits),
{
    read(bits).0
}

/// The number as an `i64`, cut off at the ends of one.
pub fn to_i64(bits: u64) -> (r: i64)
    ensures
        r == cast_i64(bits),
{
    let n: i128 = read(bits).1;
    if n < i64::MIN as i128 {
        i64::MIN
    } else if n > i64::MAX as i128 {
        i64::MAX
    } else {
        n as i64
    }
}

/// The number as a `u64`, cut off at the ends of one.
pub fn to_u64(bits: u64) -> (r: u64)
    ensures
        r == cast_u64(bits),
{
    let n: i128 = read(bits).1;
    if n < 0 {
        0
    } else if n > u64::MAX as i128 {
        u64::MAX
    } else {
        n as u64
    }
}

/// The number as a `usize`, cut off at the ends of one.
pub fn to_usize(bits: u64) -> (r: usize)
    ensures
        r == cast_usize(bits),
{
    let n: i128 = read(bits).1;
    if n < 0 {
        0
    } else if n > usize::MAX as i128 {
        usize::MAX
    } else {
        n as usize
    }
}

/// Whether the number is zero, of either sign.
pub fn is_zero(bits: u64) -> (r: bool)
    ensures
        r == zero(bits),
{
    bits == 0 || bits == 0x8000_0000_0000_0000
}

/// The distance between two doubles at this magnitude, for the magnitudes at
/// which they are at least one apart.
pub open spec fn spacing(m: nat) -> nat
    decreases m,
{
    if m < PAST { 1 } else { 2 * spacing(m / 2) }
}

/// The nearest double to a magnitude, and the one with the even significand when
/// two are as near.
pub open spec fn nearest(m: nat) -> nat {
    let apart = spacing(m);
    let below = m / apart;
    let over = m % apart;
    if 2 * over > apart || (2 * over == apart && below % 2 == 1) {
        (below + 1) * apart
    } else {
        below * apart
    }
}

/// The integer that is left of an integer turned into a double.
pub open spec fn rounded(n: int) -> int {
    if n < 0 { -(nearest((-n) as nat) as int) } else { nearest(n as nat) as int }
}

proof fn lemma_halves(m: nat, u: nat)
    requires
        u > 0,
    ensures
        (m / u) / 2 == m / (2 * u),
{
    vstd::arithmetic::div_mod::lemma_div_denominator(m as int, u as int, 2);
    assert(u * 2 == 2 * u);
}

proof fn lemma_spacing(m: nat, k: nat)
    requires
        m / pow2(k) >= PAST,
    ensures
        spacing(m) == pow2(k + 1) * spacing(m / pow2(k + 1)),
    decreases k,
{
    lemma_pow2_pos(k);
    lemma_pow2_adds(k, 1);
    lemma2_to64();
    vstd::arithmetic::div_mod::lemma_div_is_ordered_by_denominator(m as int, 1, pow2(k) as int);
    assert(m / 1 == m);
    if k == 0 {
        assert(spacing(m) == 2 * spacing(m / 2));
    } else {
        let j = (k - 1) as nat;
        lemma_pow2_pos(j);
        lemma_pow2_adds(j, 1);
        lemma_halves(m, pow2(j));
        assert(m / pow2(j) >= PAST);
        lemma_spacing(m, j);
        assert(spacing(m) == pow2(k) * spacing(m / pow2(k)));
        let q = m / pow2(k);
        assert(spacing(q) == 2 * spacing(q / 2));
        lemma_halves(m, pow2(k));
        let w = spacing(m / pow2(k + 1));
        assert(pow2(k) * (2 * w) == (pow2(k) * 2) * w) by (nonlinear_arith);
    }
}

/// Whether these are the bits of the double an integer rounds to. Zero is the one
/// number two doubles stand for, and an integer becomes the one without a sign.
pub open spec fn is_double(bits: u64, n: int) -> bool {
    whole(bits) && integral(bits) == rounded(n) && (n == 0 ==> bits == 0)
}

/// The bits of the double an integer rounds to.
///
/// A double holds every integer up to 2^53 as it is, and past that the nearest
/// one it has.
pub fn double(n: i128) -> (r: u64)
    requires
        -0x1_0000_0000_0000_0000 <= n <= 0x1_0000_0000_0000_0000,
    ensures
        is_double(r, n as int),
{
    let minus: bool = n < 0;
    let m: u128 = if minus { (-n) as u128 } else { n as u128 };
    if m == 0 {
        proof {
            lemma2_to64();
            lemma_pow2_pos(1074);
            assert(0int % (pow2(1074) as int) == 0 && 0int / (pow2(1074) as int) == 0) by (nonlinear_arith)
                requires
                    pow2(1074) > 0,
            ;
            assert(whole(0) && integral(0) == rounded(0));
        }
        return 0;
    }
    let mut q: u128 = m;
    let mut u: u128 = 1;
    let mut k: u64 = 0;
    proof {
        lemma2_to64();
        assert(m as nat / pow2(0) == m) by (nonlinear_arith)
            requires
                pow2(0) == 1,
        ;
    }
    while q >= PAST as u128
        invariant
            0 < m <= 0x1_0000_0000_0000_0000,
            k <= 12,
            u == pow2(k as nat),
            q == m as nat / pow2(k as nat),
            q >= 1,
            k > 0 ==> m as nat / pow2((k - 1) as nat) >= PAST,
        decreases q,
    {
        proof {
            lemma2_to64();
            lemma2_to64_rest();
            lemma_pow2_pos(k as nat);
            lemma_pow2_adds(k as nat, 1);
            lemma_halves(m as nat, u as nat);
            if k >= 12 {
                assert(m / 4096 <= 0x10_0000_0000_0000);
            }
            if k < 11 {
                lemma_pow2_strictly_increases(k as nat, 11);
            }
        }
        u = u * 2;
        q = q / 2;
        k += 1;
    }
    proof {
        lemma2_to64();
        lemma_pow2_pos(k as nat);
        if k > 0 {
            lemma_spacing(m as nat, (k - 1) as nat);
            assert(spacing(q as nat) == 1);
            assert(pow2(k as nat) * 1 == pow2(k as nat)) by (nonlinear_arith);
        } else {
            assert(q == m);
        }
        assert(spacing(m as nat) == u);
        if k < 12 {
            lemma_pow2_strictly_increases(k as nat, 12);
        }
    }
    let over: u128 = m % u;
    let mut s: u64 = q as u64;
    if 2 * over > u || (2 * over == u && q % 2 == 1) {
        s = s + 1;
    }
    let ghost v = s * pow2(k as nat);
    proof {
        assert(v == nearest(m as nat));
        if k == 0 {
            assert(over == 0);
        }
    }
    let mut p: i64 = k as i64;
    if s == PAST as u64 {
        proof {
            lemma_pow2_adds(k as nat, 1);
            let w = pow2(k as nat) as int;
            assert(0x20_0000_0000_0000 * w == 0x10_0000_0000_0000 * (w * 2)) by (nonlinear_arith);
        }
        s = HIDDEN;
        p = p + 1;
    }
    proof {
        if k > 0 {
            let w = pow2((k - 1) as nat);
            lemma_pow2_pos((k - 1) as nat);
            lemma_pow2_adds((k - 1) as nat, 1);
            lemma_halves(m as nat, w);
            assert(q >= 0x10_0000_0000_0000);
        }
        if p == 0 {
            assert(s * pow2(0) == s);
            assert(v * pow2(0) == v);
        }
    }
    while s < HIDDEN
        invariant
            1 <= s < PAST,
            s < HIDDEN ==> p <= 0,
            -52 <= p <= 13,
            p >= 0 ==> s * pow2(p as nat) == v,
            p <= 0 ==> s == v * pow2((-p) as nat),
            p < 0 ==> s >= pow2((-p) as nat),
        decreases PAST - s,
    {
        proof {
            lemma2_to64();
            let j = (-p) as nat;
            lemma_pow2_adds(j, 1);
            let w = pow2(j) as int;
            assert(v * w * 2 == v * (w * 2)) by (nonlinear_arith);
            if p == -52 {
                assert(pow2(52) == 0x10_0000_0000_0000) by {
                    lemma2_to64_rest();
                }
            }
            if p == 0 {
                assert(s >= 1 && pow2(1) == 2);
            }
        }
        s = s * 2;
        p = p - 1;
    }
    let e: u64 = (p + 1075) as u64;
    let bits: u64 = e * HIDDEN + (s - HIDDEN);
    let made: u64 = if minus { bits + 0x8000_0000_0000_0000 } else { bits };
    proof {
        let f = (s - HIDDEN) as int;
        assert(bits as int / HIDDEN as int == e && bits as int % HIDDEN as int == f) by (nonlinear_arith)
            requires
                bits == e * HIDDEN + f,
                0 <= f < HIDDEN,
        ;
        assert(made as int / HIDDEN as int == if minus { e + 2048 } else { e as int });
        assert(fraction(made) == f);
        assert(exponent(made) == e);
        assert(significand(made) == s);
        assert(power(made) == p);
        if p < 0 {
            let w = pow2((-p) as nat) as int;
            lemma_pow2_pos((-p) as nat);
            assert(s as int % w == 0 && s as int / w == v) by (nonlinear_arith)
                requires
                    s == v * w,
                    w > 0,
            ;
        }
        assert(magnitude(made) == v);
    }
    made
}

/// A whole number that is within what a double holds exactly is the number it
/// rounds to, so nothing is lost by turning it into a double.
pub proof fn law_exact(n: int)
    requires
        -(PAST as int) <= n <= PAST,
    ensures
        rounded(n) == n,
{
    let m: nat = if n < 0 { (-n) as nat } else { n as nat };
    if m < PAST {
        assert(spacing(m) == 1);
    } else {
        assert(spacing((m / 2) as nat) == 1);
        assert(spacing(m) == 2);
    }
    assert(nearest(m) == m);
}

proof fn lemma_spacing_small(m: nat)
    ensures
        spacing(m) > 0,
        spacing(m) <= m || spacing(m) == 1,
    decreases m,
{
    if m >= PAST {
        lemma_spacing_small(m / 2);
    }
}

/// Turning an integer into a double moves it by no more than half the distance between two
/// doubles where it is, and that distance is no more than the integer itself.
pub proof fn law_rounding_is_near(n: int)
    ensures
        ({
            let m = if n < 0 { (-n) as nat } else { n as nat };
            &&& 2 * (rounded(n) - n) <= spacing(m)
            &&& 2 * (n - rounded(n)) <= spacing(m)
            &&& spacing(m) <= m || spacing(m) == 1
        }),
{
    let m = if n < 0 { (-n) as nat } else { n as nat };
    lemma_spacing_small(m);
    let apart = spacing(m);
    let below = m / apart;
    let over = m % apart;
    vstd::arithmetic::div_mod::lemma_fundamental_div_mod(m as int, apart as int);
    vstd::arithmetic::div_mod::lemma_mod_bound(m as int, apart as int);
    assert(m == apart * below + over);
    assert((below + 1) * apart == apart * below + apart) by (nonlinear_arith);
    assert(below * apart == apart * below) by (nonlinear_arith);
}

/// The other sign of a double is the negative of its number, and as whole as it is.
pub proof fn law_a_sign_turns_a_number_round(bits: u64)
    requires
        bits < 0x8000_0000_0000_0000,
    ensures
        ({
            let other = (bits + 0x8000_0000_0000_0000) as u64;
            &&& integral(other) == -integral(bits)
            &&& whole(other) == whole(bits)
            &&& integral(bits) >= 0
        }),
{
    let other = (bits + 0x8000_0000_0000_0000) as u64;
    assert(exponent(other) == exponent(bits));
    assert(fraction(other) == fraction(bits));
    assert(power(other) == power(bits) && significand(other) == significand(bits));
    let k = if power(bits) >= 0 { power(bits) as nat } else { (-power(bits)) as nat };
    vstd::arithmetic::power2::lemma_pow2_pos(k);
    let s = significand(bits);
    let p = pow2(k) as int;
    assert(s >= 0);
    assert(s * p >= 0) by (nonlinear_arith)
        requires
            s >= 0,
            p > 0,
    ;
    assert(s / p >= 0) by (nonlinear_arith)
        requires
            s >= 0,
            p > 0,
    ;
}

/// One more in the exponent is twice the number: a whole double doubled is whole, and twice what it
/// was.
pub proof fn law_one_more_exponent_is_twice(bits: u64)
    requires
        1 <= exponent(bits) < 2046,
        whole(bits),
    ensures
        ({
            let twice = (bits + 0x10_0000_0000_0000) as u64;
            &&& bits + 0x10_0000_0000_0000 <= u64::MAX
            &&& whole(twice)
            &&& integral(twice) == 2 * integral(bits)
        }),
{
    let twice = (bits + 0x10_0000_0000_0000) as u64;
    let e = exponent(bits);
    let s = significand(bits);
    assert(exponent(twice) == e + 1);
    assert(fraction(twice) == fraction(bits));
    assert(negative(twice) == negative(bits));
    if e >= 1075 {
        let k = (e - 1075) as nat;
        vstd::arithmetic::power2::lemma_pow2_unfold(k + 1);
        let p = pow2(k) as int;
        assert(pow2(k + 1) == 2 * p);
        assert(s * (2 * p) == 2 * (s * p)) by (nonlinear_arith);
    } else {
        let k = (1075 - e) as nat;
        vstd::arithmetic::power2::lemma_pow2_unfold(k);
        vstd::arithmetic::power2::lemma_pow2_pos((k - 1) as nat);
        let half = pow2((k - 1) as nat) as int;
        assert(pow2(k) == 2 * half);
        vstd::arithmetic::div_mod::lemma_fundamental_div_mod(s, 2 * half);
        let q = s / (2 * half);
        assert(s == (2 * half) * q);
        assert(s == (2 * q) * half) by (nonlinear_arith)
            requires
                s == (2 * half) * q,
        ;
        vstd::arithmetic::div_mod::lemma_div_multiples_vanish(2 * q, half);
        vstd::arithmetic::div_mod::lemma_mod_multiples_basic(2 * q, half);
        assert(half * (2 * q) == (2 * q) * half) by (nonlinear_arith);
        if e + 1 == 1075 {
            assert(k == 1);
            vstd::arithmetic::power2::lemma2_to64();
            assert(half == 1);
            assert(s * 1 == s);
        }
    }
}

/// Where doubles are one apart the next double is the next number, and nothing and one are the
/// doubles they are.
pub proof fn law_the_next_double_is_the_next_number(bits: u64)
    ensures
        bits < 0x8000_0000_0000_0000 && exponent(bits) == 1075 && fraction(bits) + 1 < 0x10_0000_0000_0000 ==> whole(bits)
            && whole((bits + 1) as u64) && integral((bits + 1) as u64) == integral(bits) + 1,
        whole(0) && integral(0) == 0,
        bits == 0x4330_0000_0000_0000 ==> whole(bits) && integral(bits) == 0x10_0000_0000_0000,
{
    vstd::arithmetic::power2::lemma2_to64();
    if bits < 0x8000_0000_0000_0000 && exponent(bits) == 1075 && fraction(bits) + 1 < 0x10_0000_0000_0000 {
        let next = (bits + 1) as u64;
        assert(exponent(next) == 1075);
        assert(fraction(next) == fraction(bits) + 1);
        assert(significand(bits) * 1 == significand(bits));
        assert(significand(next) * 1 == significand(next));
    }
    assert(exponent(0) == 0 && fraction(0) == 0);
    assert(significand(0) == 0 && power(0) == -1074);
    vstd::arithmetic::power2::lemma_pow2_pos(1074);
    vstd::arithmetic::div_mod::lemma_div_basics(pow2(1074) as int);
    vstd::arithmetic::div_mod::lemma_small_mod(0, pow2(1074));
    if bits == 0x4330_0000_0000_0000 {
        assert(exponent(bits) == 1075 && fraction(bits) == 0);
    }
}

/// A double is whole exactly when nothing of it is cut off: moved up to where doubles are one apart,
/// it is the number it was as many times over as it was moved.
pub proof fn law_a_whole_number_loses_nothing(bits: u64, k: nat)
    requires
        bits < 0x8000_0000_0000_0000,
        1 <= exponent(bits) <= 1075,
        k == 1075 - exponent(bits),
    ensures
        ({
            let up = (bits + k * 0x10_0000_0000_0000) as u64;
            &&& exponent(up) == 1075
            &&& whole(bits) <==> integral(up) == integral(bits) * pow2(k)
        }),
{
    let up = (bits + k * 0x10_0000_0000_0000) as u64;
    assert(bits + k * 0x10_0000_0000_0000 < 0x8000_0000_0000_0000);
    assert(exponent(up) == 1075);
    assert(fraction(up) == fraction(bits));
    let s = significand(bits);
    assert(significand(up) == s);
    vstd::arithmetic::power2::lemma2_to64();
    assert(s * 1 == s);
    assert(integral(up) == s);
    vstd::arithmetic::power2::lemma_pow2_pos(k);
    let p = pow2(k) as int;
    if k == 0 {
        assert(s * p == s);
        assert((s * p) * p == s);
    } else {
        vstd::arithmetic::div_mod::lemma_fundamental_div_mod(s, p);
        assert(p * (s / p) == (s / p) * p) by (nonlinear_arith);
    }
}

/// A number cast to an integer is the number with what is after its point cut off, where the integer
/// holds that, and the nearest end of what the integer holds where it does not; an infinity is the
/// end it is at, and what is no number is nothing.
pub proof fn law_a_cast_is_the_number_within_reach(bits: u64)
    ensures
        nan(bits) ==> cast_i64(bits) == 0 && cast_u64(bits) == 0 && cast_usize(bits) == 0,
        finite(bits) && i64::MIN <= integral(bits) <= i64::MAX ==> cast_i64(bits) == integral(bits),
        finite(bits) && integral(bits) > i64::MAX ==> cast_i64(bits) == i64::MAX,
        finite(bits) && integral(bits) < i64::MIN ==> cast_i64(bits) == i64::MIN,
        finite(bits) && 0 <= integral(bits) <= u64::MAX ==> cast_u64(bits) == integral(bits),
        finite(bits) && integral(bits) > u64::MAX ==> cast_u64(bits) == u64::MAX,
        finite(bits) && integral(bits) < 0 ==> cast_u64(bits) == 0 && cast_usize(bits) == 0,
        finite(bits) && 0 <= integral(bits) <= usize::MAX ==> cast_usize(bits) == integral(bits),
        finite(bits) && integral(bits) > usize::MAX ==> cast_usize(bits) == usize::MAX,
        !finite(bits) && !nan(bits) && bits < 0x8000_0000_0000_0000 ==> cast_i64(bits) == i64::MAX && cast_u64(bits)
            == u64::MAX,
        !finite(bits) && !nan(bits) && bits >= 0x8000_0000_0000_0000 ==> cast_i64(bits) == i64::MIN && cast_u64(bits) == 0,
        whole(bits) ==> finite(bits),
        zero(bits) ==> whole(bits) && integral(bits) == 0,
{
    if zero(bits) {
        law_the_next_double_is_the_next_number(0);
        if bits != 0 {
            law_a_sign_turns_a_number_round(0);
        }
    }
}

/// An integer no further than 2^53 from nothing is the double it becomes.
pub proof fn law_small_integers_are_doubles(bits: u64, n: int)
    requires
        is_double(bits, n),
        -9_007_199_254_740_992 <= n <= 9_007_199_254_740_992,
    ensures
        whole(bits),
        integral(bits) == n,
        n == 0 ==> bits == 0,
{
    law_exact(n);
}

/// Doubles are as far apart as it takes for 2^52 of them and fewer than 2^53 to be under a number of
/// 2^53 or more, and one apart under that.
pub proof fn law_doubles_spread_out(m: nat)
    ensures
        m < 9_007_199_254_740_992 ==> spacing(m) == 1,
        m >= 9_007_199_254_740_992 ==> spacing(m) > 1 && 4_503_599_627_370_496 <= m / spacing(m) < 9_007_199_254_740_992,
        spacing(2 * m) == (if 2 * m < 9_007_199_254_740_992 { 1 } else { 2 * spacing(m) }),
    decreases m,
{
    lemma_spacing_small(m);
    if m >= PAST {
        law_doubles_spread_out(m / 2);
        lemma_spacing_small(m / 2);
        let half = spacing(m / 2);
        vstd::arithmetic::div_mod::lemma_div_denominator(m as int, 2, half as int);
        assert(m / (2 * half) == (m / 2) / half);
        if m / 2 < PAST {
            assert(half == 1);
            assert((m / 2) / half == m / 2);
        }
    }
    assert((2 * m) / 2 == m);
}

/// Rounding gives a double, the nearest there is, and the even one of two that are as near.
pub proof fn law_rounding_gives_the_nearest(m: nat)
    ensures
        ({
            let r = rounded(m as int);
            let apart = spacing(m) as int;
            &&& apart > 0
            &&& r % apart == 0
            &&& r >= 0
            &&& 2 * (r - m) == apart || 2 * (m - r) == apart ==> (r / apart) % 2 == 0
            &&& rounded(-(m as int)) == -r
        }),
{
    lemma_spacing_small(m);
    let apart = spacing(m) as int;
    let below = m as int / apart;
    let over = m as int % apart;
    vstd::arithmetic::div_mod::lemma_fundamental_div_mod(m as int, apart);
    vstd::arithmetic::div_mod::lemma_mod_bound(m as int, apart);
    let r = rounded(m as int);
    assert(below >= 0) by (nonlinear_arith)
        requires
            below == m as int / apart,
            apart > 0,
            m >= 0,
    ;
    assert((below + 1) * apart == apart * below + apart && below * apart == apart * below && below * apart >= 0)
        by (nonlinear_arith)
        requires
            below >= 0,
            apart > 0,
    ;
    let q = if 2 * over > apart || (2 * over == apart && below % 2 == 1) { below + 1 } else { below };
    assert(r == q * apart);
    vstd::arithmetic::div_mod::lemma_mod_multiples_basic(q, apart);
    vstd::arithmetic::div_mod::lemma_div_multiples_vanish(q, apart);
    assert(apart * q == q * apart) by (nonlinear_arith);
    assert(r / apart == q);
}

} // verus!

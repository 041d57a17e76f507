//! Conversion between arbitrary-precision reals and IEEE-754 doubles, by bit
//! pattern. A double is carried as the `u64` that `f64::to_bits` gives.

use vstd::prelude::*;
use vstd::arithmetic::power2::{
    lemma2_to64, lemma2_to64_rest, lemma_pow2_adds, lemma_pow2_pos, lemma_pow2_strictly_increases,
    pow2,
};
use vstd::arithmetic::div_mod::lemma_fundamental_div_mod_converse;
use vstd::bits::lemma_u64_shl_is_mul;
use crate::bigreal::{
    BigReal, RealModel, MAX_WORDS, magnitude, is_normal, top_model, word_bit_length, zero_model,
    lemma_bit_length_full, lemma_leading_zeros, lemma_magnitude_bound, lemma_magnitude_zero,
    lemma_top_magnitude, lemma_word_bit_length_bounds,
};

verus! {

/// Sign bit of a double.
pub const SIGN_BIT: u64 = 0x8000_0000_0000_0000;

/// Bit pattern of positive infinity; every finite magnitude lies below it.
pub const INFINITY_BITS: u64 = 0x7FF0_0000_0000_0000;

/// The hidden bit of a normal double, and the count of fraction patterns.
pub const HIDDEN_BIT: u64 = 0x10_0000_0000_0000;

/// `m / 2^s` rounded to the nearest integer, a tie going to the even one.
pub open spec fn round_half_even(m: nat, s: nat) -> nat {
    if s == 0 {
        m
    } else {
        let q = m / pow2(s);
        let r = m % pow2(s);
        let half = pow2((s - 1) as nat);
        if r > half || (r == half && q % 2 == 1) {
            q + 1
        } else {
            q
        }
    }
}

/// Bits of the double below the sign that is nearest to a normal real, before
/// the clamp to infinity. With `lead` the exponent of the mantissa's leading
/// bit, a real in the normal range of doubles keeps 53 bits and adds its
/// biased exponent; the hidden bit carries one into the exponent field, and a
/// mantissa that rounds up to `2^53` carries two. Below the normal range the
/// mantissa loses one more bit for each step of `lead` under -1022.
pub open spec fn double_magnitude(m: RealModel) -> nat {
    let lead = m.exponent - 1;
    let width = 64 * m.words.len();
    if lead >= -1022 {
        ((lead + 1022) * pow2(52) + round_half_even(magnitude(m.words), (width - 53) as nat)) as nat
    } else {
        round_half_even(magnitude(m.words), (width - 53 + (-1022 - lead)) as nat)
    }
}

/// The double nearest to a real, ties to even, as a bit pattern. Zero and
/// reals that are subnormal at the smallest exponent give a signed zero;
/// whatever rounds to `2^1024` or more gives a signed infinity.
pub open spec fn double_bits(m: RealModel) -> u64 {
    let sign: nat = if m.negative { SIGN_BIT as nat } else { 0 };
    if !is_normal(m) {
        sign as u64
    } else if double_magnitude(m) >= INFINITY_BITS {
        (sign + INFINITY_BITS) as u64
    } else {
        (sign + double_magnitude(m)) as u64
    }
}

/// Splitting a mantissa `top * base + low` at `t` bits above `base`: the
/// quotient and remainder by `2^t * base` come from the top word alone, but
/// for the low words that join the remainder.
proof fn lemma_split_round(top: nat, low: nat, base: nat, t: nat, sticky: bool)
    requires
        t >= 1,
        low < base,
        sticky <==> low > 0,
    ensures
        ({
            let m = top * base + low;
            let d = pow2(t) * base;
            let q = top / pow2(t);
            let rem = top % pow2(t);
            let half = pow2((t - 1) as nat);
            &&& m / d == q
            &&& m % d == rem * base + low
            &&& (rem * base + low > half * base <==> rem > half || (rem == half && sticky))
            &&& (rem * base + low == half * base <==> rem == half && !sticky)
        }),
{
    let m = top * base + low;
    let p = pow2(t);
    let d = p * base;
    let q = top / p;
    let rem = top % p;
    let half = pow2((t - 1) as nat);
    lemma_pow2_pos(t);
    vstd::arithmetic::div_mod::lemma_fundamental_div_mod(top as int, p as int);
    vstd::arithmetic::div_mod::lemma_mod_bound(top as int, p as int);
    assert(top == p * q + rem);
    assert(m == q * d + (rem * base + low)) by (nonlinear_arith)
        requires
            m == top * base + low,
            top == p * q + rem,
            d == p * base,
    ;
    assert(rem * base + low < d) by (nonlinear_arith)
        requires
            rem < p,
            low < base,
            d == p * base,
    ;
    assert(d > 0) by (nonlinear_arith)
        requires
            p > 0,
            base > 0,
            d == p * base,
    ;
    lemma_fundamental_div_mod_converse(m as int, d as int, q as int, (rem * base + low) as int);
    assert(rem * base + low > half * base <==> rem > half || (rem == half && low > 0))
        by (nonlinear_arith)
        requires
            low < base,
    ;
    assert(rem * base + low == half * base <==> rem == half && low == 0) by (nonlinear_arith)
        requires
            low < base,
    ;
}

/// A mantissa below half of the last place kept rounds to zero.
proof fn lemma_round_small(m: nat, s: nat)
    requires
        s >= 1,
        m < pow2((s - 1) as nat),
    ensures
        round_half_even(m, s) == 0,
{
    vstd::arithmetic::power2::lemma_pow2_unfold(s);
    vstd::arithmetic::div_mod::lemma_basic_div(m as int, pow2(s) as int);
    vstd::arithmetic::div_mod::lemma_small_mod(m, pow2(s));
}

/// Whether any of the first `n` words is nonzero.
fn any_nonzero(words: &Vec<u64>, n: usize) -> (found: bool)
    requires
        n <= words.len(),
    ensures
        found <==> exists|i: int| 0 <= i < n && words@[i] != 0,
{
    let mut i: usize = 0;
    while i < n
        invariant
            i <= n <= words.len(),
            forall|j: int| 0 <= j < i ==> words@[j] == 0,
        decreases n - i,
    {
        if words[i] != 0 {
            return true;
        }
        i = i + 1;
    }
    false
}

/// What is left of a top word once its lowest `t` bits are rounded away,
/// `sticky` telling whether anything nonzero lies below the word.
pub open spec fn rounded_top(top: u64, t: nat, sticky: bool) -> nat {
    let q = top as nat / pow2(t);
    let rem = top as nat % pow2(t);
    let half = pow2((t - 1) as nat);
    if rem > half || (rem == half && (sticky || q % 2 == 1)) {
        q + 1
    } else {
        q
    }
}

/// Rounds the lowest `t` bits of `top` away, to nearest and ties to even.
pub fn round_top(top: u64, t: u32, sticky: bool) -> (sig: u64)
    requires
        1 <= t <= 64,
    ensures
        sig == rounded_top(top, t as nat, sticky),
        sig <= top / 2 + 1,
{
    proof {
        lemma2_to64();
        lemma2_to64_rest();
    }
    if t == 64 {
        proof {
            vstd::arithmetic::div_mod::lemma_basic_div(top as int, pow2(64) as int);
            vstd::arithmetic::div_mod::lemma_small_mod(top as nat, pow2(64));
        }
        let half: u64 = 0x8000_0000_0000_0000;
        if top > half || (top == half && sticky) {
            1
        } else {
            0
        }
    } else {
        let d: u64 = 1u64 << t;
        let half: u64 = 1u64 << (t - 1);
        proof {
            vstd::bits::lemma_u64_pow2_no_overflow(t as nat);
            vstd::bits::lemma_u64_pow2_no_overflow((t - 1) as nat);
            lemma_u64_shl_is_mul(1, t as u64);
            lemma_u64_shl_is_mul(1, (t - 1) as u64);
            vstd::arithmetic::power2::lemma_pow2_unfold(t as nat);
            vstd::arithmetic::div_mod::lemma_fundamental_div_mod(top as int, d as int);
            vstd::arithmetic::div_mod::lemma_mod_bound(top as int, d as int);
        }
        let q = top / d;
        let rem = top % d;
        assert(q <= top / 2) by (nonlinear_arith)
            requires
                top == d * q + rem,
                d >= 2,
                rem >= 0,
                q >= 0,
        ;
        if rem > half || (rem == half && (sticky || q % 2 == 1)) {
            q + 1
        } else {
            q
        }
    }
}

/// The double nearest to `v`, ties to even, as the bit pattern of
/// `f64::to_bits`: the sign bit, then the magnitude assembled from the
/// re-biased exponent and the top bits of the mantissa.
pub fn to_double(v: &BigReal) -> (bits: u64)
    ensures
        bits == double_bits(v@),
{
    let parts = v.parts();
    let len = parts.words.len();
    let sign: u64 = if parts.negative { SIGN_BIT } else { 0 };
    if parts.bits == 0 || parts.bits != 64 * len {
        return sign;
    }
    let top = parts.words[len - 1];
    let lead: i64 = parts.exponent as i64 - 1;
    let ghost low_words = parts.words@.drop_last();
    let ghost low = magnitude(low_words);
    let ghost base = pow2((64 * (len - 1)) as nat);
    let ghost mant = magnitude(parts.words@);
    proof {
        lemma_bit_length_full(parts.words@);
        lemma_magnitude_bound(low_words);
        lemma_magnitude_bound(parts.words@);
        lemma2_to64();
        lemma2_to64_rest();
        assert(mant == top * base + low);
    }
    if lead < -1075 {
        proof {
            let s = (64 * len - 53 + (-1022 - lead)) as nat;
            if s - 1 > 64 * len {
                lemma_pow2_strictly_increases((64 * len) as nat, (s - 1) as nat);
            }
            lemma_round_small(mant, s);
        }
        return sign;
    }
    let sticky = any_nonzero(&parts.words, len - 1);
    let t: u32 = if lead >= -1022 { 11 } else { (11 + (-1022 - lead)) as u32 };
    let sig = round_top(top, t, sticky);
    proof {
        lemma_magnitude_zero(low_words);
        if sticky {
            let i = choose|i: int| 0 <= i < len - 1 && parts.words@[i] != 0;
            assert(low_words[i] == parts.words@[i]);
        } else {
            assert forall|i: int| 0 <= i < low_words.len() implies low_words[i] == 0 by {
                assert(low_words[i] == parts.words@[i]);
            }
        }
        let s = (64 * (len - 1) + t) as nat;
        lemma_pow2_adds(t as nat, (64 * (len - 1)) as nat);
        lemma_pow2_adds((t - 1) as nat, (64 * (len - 1)) as nat);
        lemma_split_round(top as nat, low, base, t as nat, sticky);
        assert(round_half_even(mant, s) == sig);
    }
    if lead > 1023 {
        proof {
            assert(sig >= HIDDEN_BIT) by {
                vstd::arithmetic::div_mod::lemma_div_is_ordered(
                    0x8000_0000_0000_0000,
                    top as int,
                    pow2(11) as int,
                );
            }
            assert((lead + 1022) * pow2(52) >= 2046 * pow2(52)) by (nonlinear_arith)
                requires
                    lead >= 1024,
            ;
        }
        return sign + INFINITY_BITS;
    }
    let biased: u64 = if lead >= -1022 { (lead + 1022) as u64 } else { 0 };
    let mag: u64 = biased * HIDDEN_BIT + sig;
    if mag >= INFINITY_BITS {
        sign + INFINITY_BITS
    } else {
        sign + mag
    }
}

/// The real that a double denotes, at `len` words, or `None` where the double
/// is an infinity or not a number, or `len` is not a mantissa length. A
/// normal double gives its 53 bits at the top of the mantissa; a subnormal
/// one gives its fraction, shifted up until the top bit is set.
pub open spec fn real_of_double(bits: u64, len: nat) -> Option<RealModel> {
    let negative = bits >= SIGN_BIT;
    let below: nat = if negative { (bits - SIGN_BIT) as nat } else { bits as nat };
    let biased = below / (HIDDEN_BIT as nat);
    let fraction = below % (HIDDEN_BIT as nat);
    if biased == 2047 || len < 1 || len > MAX_WORDS {
        None
    } else if below == 0 {
        Some(zero_model(len, negative))
    } else if biased >= 1 {
        Some(top_model(len, ((HIDDEN_BIT + fraction) * 2048) as u64, negative, biased - 1022))
    } else {
        let shift = 64 - word_bit_length(fraction as u64);
        Some(
            top_model(len, (fraction * pow2(shift as nat)) as u64, negative, -1010 - shift),
        )
    }
}

/// The fraction of a subnormal double has between 1 and 52 bits, and shifted
/// up by the bits it lacks of 64 it fills a word to the top.
proof fn lemma_fraction_width(fraction: u64)
    requires
        1 <= fraction < HIDDEN_BIT,
    ensures
        1 <= word_bit_length(fraction) <= 52,
        pow2(63) <= fraction * pow2((64 - word_bit_length(fraction)) as nat) < pow2(64),
{
    let width = word_bit_length(fraction);
    lemma_word_bit_length_bounds(fraction);
    lemma2_to64();
    lemma2_to64_rest();
    if width - 1 > 52 {
        lemma_pow2_strictly_increases(52, (width - 1) as nat);
    }
    let shift = (64 - width) as nat;
    lemma_pow2_adds(width, shift);
    lemma_pow2_adds((width - 1) as nat, shift);
    lemma_pow2_pos(shift);
    assert(fraction * pow2(shift) < pow2(64)) by (nonlinear_arith)
        requires
            fraction < pow2(width),
            pow2(shift) > 0,
            pow2(width) * pow2(shift) == pow2(64),
    ;
    assert(fraction * pow2(shift) >= pow2(63)) by (nonlinear_arith)
        requires
            fraction >= pow2((width - 1) as nat),
            pow2((width - 1) as nat) * pow2(shift) == pow2(63),
    ;
}

/// The real that the double `bits` denotes, with a mantissa of `len` words.
pub fn from_double(bits: u64, len: usize) -> (r: Option<BigReal>)
    ensures
        crate::engine::option_model(r) == real_of_double(bits, len as nat),
{
    let negative = bits >= SIGN_BIT;
    let below: u64 = if negative { bits - SIGN_BIT } else { bits };
    let biased = below / HIDDEN_BIT;
    let fraction = below % HIDDEN_BIT;
    if biased == 2047 || len < 1 || len > MAX_WORDS {
        return None;
    }
    if below == 0 {
        return Some(BigReal::signed_zero(len, negative));
    }
    if biased >= 1 {
        let top = (HIDDEN_BIT + fraction) * 2048;
        return Some(BigReal::from_top(len, top, negative, (biased as i32) - 1022));
    }
    let shift: u32 = fraction.leading_zeros();
    proof {
        lemma_leading_zeros(fraction);
        lemma_fraction_width(fraction);
        lemma2_to64_rest();
        lemma_u64_shl_is_mul(fraction, shift as u64);
    }
    let top = fraction << shift;
    Some(BigReal::from_top(len, top, negative, -1010 - (shift as i32)))
}

/// A mantissa that is `q * 2^t` in the top word and zero below rounds, at
/// `t` bits above the low words, to `q` exactly.
proof fn lemma_round_exact(len: nat, q: nat, t: nat, top: u64, negative: bool, exponent: int)
    requires
        len >= 1,
        1 <= t,
        top == q * pow2(t),
    ensures
        round_half_even(
            magnitude(top_model(len, top, negative, exponent).words),
            (64 * (len - 1) + t) as nat,
        ) == q,
{
    let base = pow2((64 * (len - 1)) as nat);
    let mant = magnitude(top_model(len, top, negative, exponent).words);
    lemma_top_magnitude(len, top, negative, exponent);
    lemma_pow2_pos((64 * (len - 1)) as nat);
    lemma_pow2_pos(t);
    lemma_pow2_pos((t - 1) as nat);
    lemma_pow2_adds(t, (64 * (len - 1)) as nat);
    lemma_pow2_adds((t - 1) as nat, (64 * (len - 1)) as nat);
    lemma_fundamental_div_mod_converse(top as int, pow2(t) as int, q as int, 0);
    lemma_split_round(top as nat, 0, base, t, false);
    assert(mant == top * base + 0);
    assert(0 * base == 0);
    assert(pow2((t - 1) as nat) * base > 0) by (nonlinear_arith)
        requires
            pow2((t - 1) as nat) > 0,
            base > 0,
    ;
}

/// Fidelity of the conversion: a double that denotes a real comes back, bit
/// for bit, from the real it denotes, at every mantissa length.
pub proof fn lemma_double_round_trip(bits: u64, len: nat)
    requires
        real_of_double(bits, len) is Some,
    ensures
        double_bits(real_of_double(bits, len)->Some_0) == bits,
{
    let negative = bits >= SIGN_BIT;
    let below: nat = if negative { (bits - SIGN_BIT) as nat } else { bits as nat };
    let biased = below / (HIDDEN_BIT as nat);
    let fraction = below % (HIDDEN_BIT as nat);
    let m = real_of_double(bits, len)->Some_0;
    lemma2_to64();
    lemma2_to64_rest();
    vstd::arithmetic::div_mod::lemma_fundamental_div_mod(below as int, HIDDEN_BIT as int);
    assert(below == HIDDEN_BIT * biased + fraction);
    if below == 0 {
    } else if biased >= 1 {
        let q = (HIDDEN_BIT + fraction) as nat;
        let top = (q * 2048) as u64;
        lemma_round_exact(len, q, 11, top, negative, biased - 1022);
        assert((biased - 1) * pow2(52) + q == below) by (nonlinear_arith)
            requires
                pow2(52) == HIDDEN_BIT,
                q == HIDDEN_BIT + fraction,
                below == HIDDEN_BIT * biased + fraction,
        ;
        assert(double_magnitude(m) == below);
    } else {
        let f = fraction as u64;
        let shift = (64 - word_bit_length(f)) as nat;
        lemma_fraction_width(f);
        let top = (fraction * pow2(shift)) as u64;
        lemma_round_exact(len, fraction, shift, top, negative, -1010 - shift);
        assert(double_magnitude(m) == below);
    }
}

} // verus!

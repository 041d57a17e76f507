//! Finite arbitrary-precision reals held as plain words.
//!
//! A value is a sign, a binary exponent and a little-endian mantissa of 64-bit
//! words. With `L = 64 * words.len()` the value denoted is
//! `(-1)^negative * magnitude(words) * 2^(exponent - L)`.

use vstd::prelude::*;
use vstd::arithmetic::power2::{lemma2_to64, lemma2_to64_rest, lemma_pow2_adds, lemma_pow2_pos, pow2};

verus! {

/// Largest mantissa length, in words, that a value may carry.
pub const MAX_WORDS: usize = 32768;

/// Smallest exponent a value may carry; only subnormal values carry it with
/// a mantissa whose top bit is clear.
pub const EXPONENT_MIN: i32 = -2147483648;

/// The parts of a real as they cross the boundary to the arithmetic back end.
pub struct RawParts {
    pub words: Vec<u64>,
    pub bits: usize,
    pub negative: bool,
    pub exponent: i32,
}

/// Mathematical content of a real: mantissa words (least significant first),
/// the count of significant mantissa bits, sign and exponent.
pub struct RealModel {
    pub words: Seq<u64>,
    pub bits: nat,
    pub negative: bool,
    pub exponent: int,
}

impl View for RawParts {
    type V = RealModel;

    open spec fn view(&self) -> RealModel {
        RealModel {
            words: self.words@,
            bits: self.bits as nat,
            negative: self.negative,
            exponent: self.exponent as int,
        }
    }
}

/// The natural number spelled by little-endian 64-bit words.
pub open spec fn magnitude(words: Seq<u64>) -> nat
    decreases words.len(),
{
    if words.len() == 0 {
        0
    } else {
        magnitude(words.drop_last()) + (words.last() as nat) * pow2((64 * (words.len() - 1)) as nat)
    }
}

/// Number of bits needed to write `w`: zero for zero, 64 when the top bit is set.
pub open spec fn word_bit_length(w: u64) -> nat
    decreases w,
{
    if w == 0 {
        0
    } else {
        1 + word_bit_length(w / 2)
    }
}

/// Position of the highest set bit of the whole mantissa, counted from one;
/// zero when every word is zero.
pub open spec fn bit_length(words: Seq<u64>) -> nat
    decreases words.len(),
{
    if words.len() == 0 {
        0
    } else if words.last() != 0 {
        (64 * (words.len() - 1)) as nat + word_bit_length(words.last())
    } else {
        bit_length(words.drop_last())
    }
}

/// Validity of the parts of a real: a mantissa of at most `MAX_WORDS` words
/// (a zero may have none), a bit count that is the mantissa's true bit
/// length, and a mantissa that is either full (top bit set), zero, or
/// subnormal at the smallest exponent.
pub open spec fn valid(m: RealModel) -> bool {
    &&& m.words.len() <= MAX_WORDS
    &&& m.bits == bit_length(m.words)
    &&& (m.bits == 64 * m.words.len() || m.bits == 0 || m.exponent == EXPONENT_MIN)
    &&& EXPONENT_MIN <= m.exponent <= 2147483647
}

/// A real is normal when its mantissa is full: not zero, and with the top
/// bit set.
pub open spec fn is_normal(m: RealModel) -> bool {
    m.bits > 0 && m.bits == 64 * m.words.len()
}

/// The bit length of a word lies between 0 and 64, and `w` lies between the
/// powers of two that its bit length names.
pub proof fn lemma_word_bit_length_bounds(w: u64)
    ensures
        word_bit_length(w) <= 64,
        word_bit_length(w) == 64 <==> w >= 0x8000_0000_0000_0000u64,
        word_bit_length(w) == 0 <==> w == 0,
        w < pow2(word_bit_length(w)),
        w != 0 ==> w >= pow2((word_bit_length(w) - 1) as nat),
{
    lemma2_to64();
    lemma2_to64_rest();
    lemma_word_bit_length_induct(w, 64);
}

/// The same for a word below `2^k`, by induction on the word.
proof fn lemma_word_bit_length_induct(w: u64, k: nat)
    requires
        w < pow2(k),
    ensures
        word_bit_length(w) <= k,
        w < pow2(word_bit_length(w)),
        w != 0 ==> w >= pow2((word_bit_length(w) - 1) as nat),
        k >= 1 ==> (word_bit_length(w) == k <==> w >= pow2((k - 1) as nat)),
        word_bit_length(w) == 0 <==> w == 0,
    decreases w,
{
    reveal(pow2);
    if w == 0 {
        lemma_pow2_pos(0);
        if k >= 1 {
            lemma_pow2_pos((k - 1) as nat);
        }
    } else {
        lemma2_to64();
        assert(k >= 1);
        let h = (w / 2) as u64;
        vstd::arithmetic::power2::lemma_pow2_unfold(k);
        assert(h < pow2((k - 1) as nat));
        lemma_word_bit_length_induct(h, (k - 1) as nat);
        let b = word_bit_length(h);
        vstd::arithmetic::power2::lemma_pow2_unfold(b + 1);
        if h != 0 {
            vstd::arithmetic::power2::lemma_pow2_unfold(b);
        }
        if k >= 2 {
            vstd::arithmetic::power2::lemma_pow2_unfold((k - 1) as nat);
        }
    }
}

/// The mantissa with its sign.
pub open spec fn signed_magnitude(m: RealModel) -> int {
    if m.negative {
        -(magnitude(m.words) as int)
    } else {
        magnitude(m.words) as int
    }
}

/// Exponent of the lowest bit of the mantissa: the real denoted is
/// `signed_magnitude * 2^unit_exponent`.
pub open spec fn unit_exponent(m: RealModel) -> int {
    m.exponent - 64 * m.words.len()
}

/// The real denoted by `m`, in units of `2^k`, for `k` at most its unit
/// exponent.
pub open spec fn scaled(m: RealModel, k: int) -> int {
    signed_magnitude(m) * pow2((unit_exponent(m) - k) as nat)
}

/// Whether the real denoted by `a` lies below the one denoted by `b`: both
/// are compared in units of the smaller of their unit exponents.
pub open spec fn less(a: RealModel, b: RealModel) -> bool {
    let k = if unit_exponent(a) <= unit_exponent(b) {
        unit_exponent(a)
    } else {
        unit_exponent(b)
    };
    scaled(a, k) < scaled(b, k)
}

/// The mantissa of `words` is below `2^(64 * len)`.
pub proof fn lemma_magnitude_bound(words: Seq<u64>)
    ensures
        magnitude(words) < pow2((64 * words.len()) as nat),
    decreases words.len(),
{
    if words.len() == 0 {
        lemma2_to64();
    } else {
        let low = words.drop_last();
        let k = (64 * low.len()) as nat;
        lemma_magnitude_bound(low);
        lemma_pow2_adds(64, k);
        lemma2_to64_rest();
        lemma_pow2_pos(k);
        let top = words.last() as nat;
        assert(top * pow2(k) + pow2(k) <= pow2(64) * pow2(k)) by (nonlinear_arith)
            requires
                top + 1 <= pow2(64),
        ;
    }
}

/// The mantissa is zero exactly when every word is zero.
pub proof fn lemma_magnitude_zero(words: Seq<u64>)
    ensures
        magnitude(words) == 0 <==> (forall|i: int| 0 <= i < words.len() ==> words[i] == 0),
    decreases words.len(),
{
    if words.len() > 0 {
        let low = words.drop_last();
        let k = (64 * low.len()) as nat;
        lemma_magnitude_zero(low);
        lemma_pow2_pos(k);
        let top = words.last() as nat;
        assert(top * pow2(k) == 0 <==> top == 0) by (nonlinear_arith)
            requires
                pow2(k) > 0,
        ;
        if magnitude(words) == 0 {
            assert forall|i: int| 0 <= i < words.len() implies words[i] == 0 by {
                if i < low.len() {
                    assert(low[i] == words[i]);
                }
            }
        }
        if forall|i: int| 0 <= i < words.len() ==> words[i] == 0 {
            assert forall|i: int| 0 <= i < low.len() implies low[i] == 0 by {
                assert(low[i] == words[i]);
            }
        }
    }
}

/// The bit length never exceeds the mantissa's width, and reaches it exactly
/// when the top bit of the top word is set.
pub proof fn lemma_bit_length_full(words: Seq<u64>)
    ensures
        bit_length(words) <= 64 * words.len(),
        words.len() > 0 ==> (bit_length(words) == 64 * words.len() <==> words.last()
            >= 0x8000_0000_0000_0000u64),
    decreases words.len(),
{
    if words.len() > 0 {
        lemma_word_bit_length_bounds(words.last());
        lemma_bit_length_full(words.drop_last());
    }
}

/// Dropping zero words from the top leaves the bit length unchanged.
pub proof fn lemma_bit_length_prefix(words: Seq<u64>, n: int)
    requires
        0 <= n <= words.len(),
        forall|i: int| n <= i < words.len() ==> words[i] == 0,
    ensures
        bit_length(words) == bit_length(words.subrange(0, n)),
    decreases words.len(),
{
    if n == words.len() {
        assert(words.subrange(0, n) =~= words);
    } else {
        let low = words.drop_last();
        lemma_bit_length_prefix(low, n);
        assert(low.subrange(0, n) =~= words.subrange(0, n));
    }
}

/// `leading_zeros` counts the bits that `word_bit_length` leaves out.
pub proof fn lemma_leading_zeros(w: u64)
    ensures
        word_bit_length(w) == 64 - vstd::std_specs::bits::u64_leading_zeros(w),
    decreases w,
{
    reveal(vstd::std_specs::bits::u64_leading_zeros);
    if w != 0 {
        lemma_leading_zeros(w / 2);
    }
}

/// The model of a normal real at `len` words whose mantissa is `top` in the
/// top word and zero below.
pub open spec fn top_model(len: nat, top: u64, negative: bool, exponent: int) -> RealModel {
    RealModel {
        words: Seq::new(len, |i: int| if i == len - 1 { top } else { 0u64 }),
        bits: 64 * len,
        negative,
        exponent,
    }
}

/// The model of four at `len` words: the top bit of the mantissa alone, at
/// exponent three.
pub open spec fn four_model(len: nat) -> RealModel {
    top_model(len, 0x8000_0000_0000_0000u64, false, 3)
}

/// The model of zero, with its sign, at `len` words.
pub open spec fn zero_model(len: nat, negative: bool) -> RealModel {
    RealModel { words: Seq::new(len, |i: int| 0u64), bits: 0, negative, exponent: 0 }
}

/// A finite real whose parts are valid.
pub struct BigReal {
    parts: RawParts,
}

impl View for BigReal {
    type V = RealModel;

    closed spec fn view(&self) -> RealModel {
        self.parts@
    }
}

impl BigReal {
    #[verifier::type_invariant]
    spec fn well_formed(self) -> bool {
        valid(self.parts@)
    }

    /// Accepts the parts exactly when they are valid.
    pub fn from_parts(parts: RawParts) -> (r: Option<BigReal>)
        ensures
            r is Some <==> valid(parts@),
            r matches Some(v) ==> v@ == parts@,
    {
        let len = parts.words.len();
        if len > MAX_WORDS {
            return None;
        }
        let mut n: usize = len;
        while n > 0 && parts.words[n - 1] == 0
            invariant
                n <= len,
                len == parts.words.len(),
                forall|i: int| n <= i < len ==> parts.words[i] == 0,
            decreases n,
        {
            n = n - 1;
        }
        proof {
            lemma_bit_length_prefix(parts.words@, n as int);
        }
        let ghost kept = parts.words@.subrange(0, n as int);
        let length: usize = if n == 0 {
            0
        } else {
            let top = parts.words[n - 1];
            proof {
                assert(kept.last() == top);
                lemma_leading_zeros(top);
                lemma_word_bit_length_bounds(top);
            }
            let lead: u32 = top.leading_zeros();
            64 * (n - 1) + (64 - lead as usize)
        };
        assert(length == bit_length(parts.words@));
        if parts.bits != length {
            return None;
        }
        if !(parts.bits == 64 * len || parts.bits == 0 || parts.exponent == EXPONENT_MIN) {
            return None;
        }
        Some(BigReal { parts })
    }

    /// The parts of this real; they are valid.
    pub fn parts(&self) -> (r: &RawParts)
        ensures
            r@ == self@,
            valid(self@),
    {
        proof {
            use_type_invariant(self);
        }
        &self.parts
    }

    /// Positive zero with a mantissa of `len` words.
    pub fn zero(len: usize) -> (r: BigReal)
        requires
            len <= MAX_WORDS,
        ensures
            r@ == zero_model(len as nat, false),
    {
        BigReal::signed_zero(len, false)
    }

    /// The normal real at `len` words whose mantissa is `top` in the top word
    /// and zero below; `top` must have its top bit set.
    pub fn from_top(len: usize, top: u64, negative: bool, exponent: i32) -> (r: BigReal)
        requires
            1 <= len <= MAX_WORDS,
            top >= 0x8000_0000_0000_0000u64,
        ensures
            r@ == top_model(len as nat, top, negative, exponent as int),
    {
        let mut words = zero_words(len);
        words.set(len - 1, top);
        proof {
            assert(words@ =~= top_model(len as nat, top, negative, exponent as int).words);
            lemma_bit_length_full(words@);
        }
        BigReal { parts: RawParts { words, bits: 64 * len, negative, exponent } }
    }

    /// Zero, with its sign, at `len` words.
    pub fn signed_zero(len: usize, negative: bool) -> (r: BigReal)
        requires
            len <= MAX_WORDS,
        ensures
            r@ == zero_model(len as nat, negative),
    {
        let words = zero_words(len);
        proof {
            lemma_bit_length_prefix(words@, 0);
            assert(words@ =~= Seq::new(len as nat, |i: int| 0u64));
        }
        BigReal { parts: RawParts { words, bits: 0, negative, exponent: 0 } }
    }

    /// Four with a mantissa of `len` words.
    pub fn four(len: usize) -> (r: BigReal)
        requires
            1 <= len <= MAX_WORDS,
        ensures
            r@ == four_model(len as nat),
    {
        BigReal::from_top(len, 0x8000_0000_0000_0000, false, 3)
    }
}

/// The mantissa of a top-only real is its top word, shifted up past the
/// words below.
pub proof fn lemma_top_magnitude(len: nat, top: u64, negative: bool, exponent: int)
    requires
        len >= 1,
    ensures
        magnitude(top_model(len, top, negative, exponent).words) == top * pow2(
            (64 * (len - 1)) as nat,
        ),
        magnitude(top_model(len, top, negative, exponent).words.drop_last()) == 0,
{
    let words = top_model(len, top, negative, exponent).words;
    let low = words.drop_last();
    assert forall|i: int| 0 <= i < low.len() implies low[i] == 0 by {
        assert(low[i] == words[i]);
    }
    lemma_magnitude_zero(low);
}

/// `four_model` denotes four: its mantissa times `2^3` is four times `2^(64 * len)`.
pub proof fn lemma_four_denotes_four(len: nat)
    requires
        len >= 1,
    ensures
        magnitude(four_model(len).words) * pow2(3) == 4 * pow2(64 * len),
{
    let words = four_model(len).words;
    let k = (64 * (len - 1)) as nat;
    lemma_top_magnitude(len, 0x8000_0000_0000_0000u64, false, 3);
    lemma2_to64();
    lemma2_to64_rest();
    lemma_pow2_adds(64, k);
    assert(magnitude(words) == 0x8000_0000_0000_0000 * pow2(k));
    assert(pow2(64) == 2 * 0x8000_0000_0000_0000);
    assert((0x8000_0000_0000_0000 * pow2(k)) * 8 == 4 * (pow2(64) * pow2(k))) by (nonlinear_arith)
        requires
            pow2(64) == 2 * 0x8000_0000_0000_0000,
    ;
}

/// A complex value as the models of its two parts.
pub struct ComplexModel {
    pub re: RealModel,
    pub im: RealModel,
}

/// A complex value: a real and an imaginary part.
pub struct BigComplex {
    pub re: BigReal,
    pub im: BigReal,
}

impl View for BigComplex {
    type V = ComplexModel;

    open spec fn view(&self) -> ComplexModel {
        ComplexModel { re: self.re@, im: self.im@ }
    }
}

/// A vector of `len` zero words.
pub fn zero_words(len: usize) -> (words: Vec<u64>)
    ensures
        words@.len() == len,
        forall|i: int| 0 <= i < len ==> words@[i] == 0,
{
    let mut words: Vec<u64> = Vec::new();
    let mut i: usize = 0;
    while i < len
        invariant
            i <= len,
            words@.len() == i,
            forall|j: int| 0 <= j < i ==> words@[j] == 0,
        decreases len - i,
    {
        words.push(0);
        i = i + 1;
    }
    words
}

} // verus!

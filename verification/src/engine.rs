//! Arithmetic at a fixed precision, rounding to nearest with ties to even.
//!
//! The arithmetic itself is done by the `astro_float` crate. Each call into it
//! is one small function below whose contract is taken on trust; what such a
//! call returns is named by a specification function without a body, and the
//! verified functions state their results over those names. Nothing that
//! comes back is believed to be a real before its parts have been checked.
//!
//! The back end reports a failed allocation instead of aborting. Such a
//! failure can strike any call, so every contract here leaves room for it:
//! a result is either `OutOfMemory` or what the names say.

use vstd::prelude::*;
use astro_float::{BigFloat, Consts, Error, Radix, RoundingMode, Sign};
use crate::bigreal::{
    less, valid, BigComplex, BigReal, ComplexModel, RawParts, RealModel, MAX_WORDS,
};
use crate::literal::{decimal_literal, is_decimal_literal};

verus! {

/// Largest precision, in bits, that a context accepts.
pub const MAX_PRECISION: usize = 1048576;

/// The constants cache of `astro_float`, carried through unread.
#[verifier::external_type_specification]
#[verifier::external_body]
pub struct ExConsts(astro_float::Consts);

/// What came back from one call into the arithmetic back end: the parts of a
/// finite result if there is one, and whether the back end reported that it
/// could not allocate.
pub struct RawOutcome {
    pub value: Option<RawParts>,
    pub out_of_memory: bool,
}

impl View for RawOutcome {
    type V = Option<RealModel>;

    open spec fn view(&self) -> Option<RealModel> {
        match self.value {
            Some(parts) => Some(parts@),
            None => None,
        }
    }
}

/// The finite result of `a * b` rounded to `precision` bits, or `None` where
/// the product leaves the exponent range.
pub uninterp spec fn rounded_product(a: RealModel, b: RealModel, precision: nat) -> Option<RealModel>;

/// `BigFloat::mul` with rounding to nearest, ties to even, on operands rebuilt
/// from their parts by `BigFloat::from_raw_parts` and taken apart again by
/// `BigFloat::as_raw_parts`. Claimed: unless the back end reports an
/// allocation failure, the parts returned depend on the operands' parts and
/// the precision alone.
#[verifier::external_body]
fn raw_product(a: &RawParts, b: &RawParts, precision: usize) -> (r: RawOutcome)
    requires
        valid(a@),
        valid(b@),
        1 <= precision <= MAX_PRECISION,
    ensures
        r.out_of_memory || r@ == rounded_product(a@, b@, precision as nat),
{
    let sa = if a.negative { Sign::Neg } else { Sign::Pos };
    let sb = if b.negative { Sign::Neg } else { Sign::Pos };
    let x = BigFloat::from_raw_parts(&a.words, a.bits, sa, a.exponent, false);
    let y = BigFloat::from_raw_parts(&b.words, b.bits, sb, b.exponent, false);
    let z = x.mul(&y, precision, RoundingMode::ToEven);
    let value = z.as_raw_parts().map(
        |(m, n, s, e, _)| RawParts { words: m.to_vec(), bits: n, negative: s.is_negative(), exponent: e },
    );
    RawOutcome { value, out_of_memory: matches!(z.err(), Some(Error::MemoryAllocation)) }
}

/// The finite result of `a + b` rounded to `precision` bits, or `None` where
/// the sum leaves the exponent range.
pub uninterp spec fn rounded_sum(a: RealModel, b: RealModel, precision: nat) -> Option<RealModel>;

/// `BigFloat::add` with rounding to nearest, ties to even, on operands rebuilt
/// from their parts. Claimed: unless the back end reports an allocation
/// failure, the parts returned depend on the operands' parts and the
/// precision alone.
#[verifier::external_body]
fn raw_sum(a: &RawParts, b: &RawParts, precision: usize) -> (r: RawOutcome)
    requires
        valid(a@),
        valid(b@),
        1 <= precision <= MAX_PRECISION,
    ensures
        r.out_of_memory || r@ == rounded_sum(a@, b@, precision as nat),
{
    let sa = if a.negative { Sign::Neg } else { Sign::Pos };
    let sb = if b.negative { Sign::Neg } else { Sign::Pos };
    let x = BigFloat::from_raw_parts(&a.words, a.bits, sa, a.exponent, false);
    let y = BigFloat::from_raw_parts(&b.words, b.bits, sb, b.exponent, false);
    let z = x.add(&y, precision, RoundingMode::ToEven);
    let value = z.as_raw_parts().map(
        |(m, n, s, e, _)| RawParts { words: m.to_vec(), bits: n, negative: s.is_negative(), exponent: e },
    );
    RawOutcome { value, out_of_memory: matches!(z.err(), Some(Error::MemoryAllocation)) }
}

/// The finite result of `a - b` rounded to `precision` bits, or `None` where
/// the difference leaves the exponent range.
pub uninterp spec fn rounded_difference(a: RealModel, b: RealModel, precision: nat) -> Option<RealModel>;

/// `BigFloat::sub` with rounding to nearest, ties to even, on operands rebuilt
/// from their parts. Claimed: unless the back end reports an allocation
/// failure, the parts returned depend on the operands' parts and the
/// precision alone.
#[verifier::external_body]
fn raw_difference(a: &RawParts, b: &RawParts, precision: usize) -> (r: RawOutcome)
    requires
        valid(a@),
        valid(b@),
        1 <= precision <= MAX_PRECISION,
    ensures
        r.out_of_memory || r@ == rounded_difference(a@, b@, precision as nat),
{
    let sa = if a.negative { Sign::Neg } else { Sign::Pos };
    let sb = if b.negative { Sign::Neg } else { Sign::Pos };
    let x = BigFloat::from_raw_parts(&a.words, a.bits, sa, a.exponent, false);
    let y = BigFloat::from_raw_parts(&b.words, b.bits, sb, b.exponent, false);
    let z = x.sub(&y, precision, RoundingMode::ToEven);
    let value = z.as_raw_parts().map(
        |(m, n, s, e, _)| RawParts { words: m.to_vec(), bits: n, negative: s.is_negative(), exponent: e },
    );
    RawOutcome { value, out_of_memory: matches!(z.err(), Some(Error::MemoryAllocation)) }
}

/// The finite result of `a * b` at the full width of the product, or `None`
/// where the product leaves the exponent range.
pub uninterp spec fn exact_product(a: RealModel, b: RealModel) -> Option<RealModel>;

/// `BigFloat::mul_full_prec` on operands rebuilt from their parts. Claimed:
/// unless the back end reports an allocation failure, the parts returned
/// depend on the operands' parts alone.
#[verifier::external_body]
fn raw_exact_product(a: &RawParts, b: &RawParts) -> (r: RawOutcome)
    requires
        valid(a@),
        valid(b@),
    ensures
        r.out_of_memory || r@ == exact_product(a@, b@),
{
    let sa = if a.negative { Sign::Neg } else { Sign::Pos };
    let sb = if b.negative { Sign::Neg } else { Sign::Pos };
    let x = BigFloat::from_raw_parts(&a.words, a.bits, sa, a.exponent, false);
    let y = BigFloat::from_raw_parts(&b.words, b.bits, sb, b.exponent, false);
    let z = x.mul_full_prec(&y);
    let value = z.as_raw_parts().map(
        |(m, n, s, e, _)| RawParts { words: m.to_vec(), bits: n, negative: s.is_negative(), exponent: e },
    );
    RawOutcome { value, out_of_memory: matches!(z.err(), Some(Error::MemoryAllocation)) }
}

/// The finite real that the decimal literal `text` gives at `precision` bits,
/// or `None` where it gives none.
pub uninterp spec fn parsed_decimal(text: Seq<char>, precision: nat) -> Option<RealModel>;

/// `BigFloat::parse` in radix ten with rounding to nearest, ties to even.
/// Claimed: unless the back end reports an allocation failure, the parts
/// returned depend on the text and the precision alone, whatever the cache
/// holds.
#[verifier::external_body]
fn raw_parse(text: &str, precision: usize, cache: &mut Consts) -> (r: RawOutcome)
    requires
        1 <= precision <= MAX_PRECISION,
    ensures
        r.out_of_memory || r@ == parsed_decimal(text@, precision as nat),
{
    let z = BigFloat::parse(text, Radix::Dec, precision, RoundingMode::ToEven, cache);
    let value = z.as_raw_parts().map(
        |(m, n, s, e, _)| RawParts { words: m.to_vec(), bits: n, negative: s.is_negative(), exponent: e },
    );
    RawOutcome { value, out_of_memory: matches!(z.err(), Some(Error::MemoryAllocation)) }
}

/// `BigFloat::cmp` on operands rebuilt from their parts. Claimed of an answer
/// that is there: it is positive exactly where the first operand denotes the
/// greater real, and negative exactly where it denotes the smaller. Nothing
/// is claimed of when the answer is missing, which the back end lets happen
/// only where an operand could not be rebuilt for want of memory.
#[verifier::external_body]
fn raw_compare(a: &RawParts, b: &RawParts) -> (r: Option<i128>)
    requires
        valid(a@),
        valid(b@),
    ensures
        r matches Some(c) ==> (c > 0 <==> less(b@, a@)) && (c < 0 <==> less(a@, b@)),
{
    let sa = if a.negative { Sign::Neg } else { Sign::Pos };
    let sb = if b.negative { Sign::Neg } else { Sign::Pos };
    let x = BigFloat::from_raw_parts(&a.words, a.bits, sa, a.exponent, false);
    let y = BigFloat::from_raw_parts(&b.words, b.bits, sb, b.exponent, false);
    x.cmp(&y).map(i128::from)
}

/// `Consts::new`: a fresh constants cache, or `None` where it could not be
/// allocated.
#[verifier::external_body]
fn new_cache() -> (r: Option<Consts>) {
    Consts::new().ok()
}

/// A fault of the arithmetic back end.
#[derive(Clone, Copy, Debug, PartialEq, Eq, Structural)]
pub enum ArithmeticFault {
    /// The result left the exponent range.
    Overflow,
    /// The back end could not allocate.
    OutOfMemory,
    /// The back end returned parts that are not a valid real.
    Invalid,
}

/// How an outcome of the back end is read, allocation failures aside: no
/// finite result is an overflow, and parts must be valid to be a real.
pub open spec fn checked(outcome: Option<RealModel>) -> Result<RealModel, ArithmeticFault> {
    match outcome {
        None => Err(ArithmeticFault::Overflow),
        Some(m) => if valid(m) {
            Ok(m)
        } else {
            Err(ArithmeticFault::Invalid)
        },
    }
}

/// How an outcome of a rounded operation is read: as `checked` reads it, and
/// the real must carry at least `precision` bits of mantissa.
pub open spec fn checked_at(outcome: Option<RealModel>, precision: nat) -> Result<
    RealModel,
    ArithmeticFault,
> {
    match checked(outcome) {
        Ok(m) => if 64 * m.words.len() >= precision {
            Ok(m)
        } else {
            Err(ArithmeticFault::Invalid)
        },
        Err(f) => Err(f),
    }
}

/// The model of an optional real.
pub open spec fn option_model(r: Option<BigReal>) -> Option<RealModel> {
    match r {
        Some(v) => Some(v@),
        None => None,
    }
}

/// The model of a result that holds a real.
pub open spec fn result_model<E>(r: Result<BigReal, E>) -> Result<RealModel, E> {
    match r {
        Ok(v) => Ok(v@),
        Err(e) => Err(e),
    }
}

/// Reads an outcome of the back end: an allocation failure first, then
/// overflow, then the validity of the parts.
pub fn check_outcome(outcome: RawOutcome) -> (r: Result<BigReal, ArithmeticFault>)
    ensures
        outcome.out_of_memory ==> r == Err::<BigReal, ArithmeticFault>(ArithmeticFault::OutOfMemory),
        !outcome.out_of_memory ==> result_model(r) == checked(outcome@),
{
    if outcome.out_of_memory {
        return Err(ArithmeticFault::OutOfMemory);
    }
    match outcome.value {
        None => Err(ArithmeticFault::Overflow),
        Some(parts) => match BigReal::from_parts(parts) {
            Some(v) => Ok(v),
            None => Err(ArithmeticFault::Invalid),
        },
    }
}

/// Whether `r` is what the back end was expected to give: either it reported
/// an allocation failure, or the result is the expected one.
pub open spec fn agrees(
    r: Result<BigReal, ArithmeticFault>,
    expected: Result<RealModel, ArithmeticFault>,
) -> bool {
    r == Err::<BigReal, ArithmeticFault>(ArithmeticFault::OutOfMemory) || result_model(r)
        == expected
}

/// `a + b` rounded once.
pub open spec fn sum_spec(a: RealModel, b: RealModel, precision: nat) -> Result<
    RealModel,
    ArithmeticFault,
> {
    checked_at(rounded_sum(a, b, precision), precision)
}

/// `a - b` rounded once.
pub open spec fn difference_spec(a: RealModel, b: RealModel, precision: nat) -> Result<
    RealModel,
    ArithmeticFault,
> {
    checked_at(rounded_difference(a, b, precision), precision)
}

/// `a * b` rounded once.
pub open spec fn product_spec(a: RealModel, b: RealModel, precision: nat) -> Result<
    RealModel,
    ArithmeticFault,
> {
    checked_at(rounded_product(a, b, precision), precision)
}

/// `a * a` rounded once.
pub open spec fn square_spec(a: RealModel, precision: nat) -> Result<RealModel, ArithmeticFault> {
    product_spec(a, a, precision)
}

/// Real part of the complex square: `re^2 - im^2`, both squares exact and
/// their difference rounded once.
pub open spec fn square_real_spec(z: ComplexModel, precision: nat) -> Result<
    RealModel,
    ArithmeticFault,
> {
    match checked(exact_product(z.re, z.re)) {
        Err(f) => Err(f),
        Ok(x) => match checked(exact_product(z.im, z.im)) {
            Err(f) => Err(f),
            Ok(y) => difference_spec(x, y, precision),
        },
    }
}

/// Imaginary part of the complex square: `2 * re * im`, the product rounded
/// once and then doubled.
pub open spec fn square_imag_spec(z: ComplexModel, precision: nat) -> Result<
    RealModel,
    ArithmeticFault,
> {
    match product_spec(z.re, z.im, precision) {
        Err(f) => Err(f),
        Ok(x) => sum_spec(x, x, precision),
    }
}

/// The complex square: the real part first, then the imaginary part.
pub open spec fn complex_square_spec(z: ComplexModel, precision: nat) -> Result<
    ComplexModel,
    ArithmeticFault,
> {
    match square_real_spec(z, precision) {
        Err(f) => Err(f),
        Ok(re) => match square_imag_spec(z, precision) {
            Err(f) => Err(f),
            Ok(im) => Ok(ComplexModel { re, im }),
        },
    }
}

/// The model of a result that holds a complex value.
pub open spec fn complex_model<E>(r: Result<BigComplex, E>) -> Result<ComplexModel, E> {
    match r {
        Ok(z) => Ok(z@),
        Err(e) => Err(e),
    }
}

/// Whether `r` is what the back end was expected to give, for a complex
/// value: either it reported an allocation failure, or the result is the
/// expected one.
pub open spec fn complex_agrees(
    r: Result<BigComplex, ArithmeticFault>,
    expected: Result<ComplexModel, ArithmeticFault>,
) -> bool {
    r == Err::<BigComplex, ArithmeticFault>(ArithmeticFault::OutOfMemory) || complex_model(r)
        == expected
}

/// `re^2 + im^2`, each operation rounded once at full precision.
pub open spec fn squared_modulus_spec(z: ComplexModel, precision: nat) -> Result<
    RealModel,
    ArithmeticFault,
> {
    match product_spec(z.re, z.re, precision) {
        Err(f) => Err(f),
        Ok(x) => match product_spec(z.im, z.im, precision) {
            Err(f) => Err(f),
            Ok(y) => sum_spec(x, y, precision),
        },
    }
}

/// Why a context could not be made.
#[derive(Clone, Copy, Debug, PartialEq, Eq, Structural)]
pub enum ConfigError {
    /// The precision is zero or above `MAX_PRECISION`.
    Precision,
    /// The constants cache could not be allocated.
    OutOfMemory,
}

/// Why a literal gave no real.
#[derive(Clone, Copy, Debug, PartialEq, Eq, Structural)]
pub enum ParseError {
    /// The text is not a decimal literal.
    Syntax,
    /// The literal is well formed, but the back end gave no valid finite real.
    Fault(ArithmeticFault),
}

/// What parsing gives, allocation failures aside: a syntax error for text
/// that is no decimal literal; else the real that the back end gives, which
/// must have at least `precision` bits of mantissa.
pub open spec fn parse_spec(text: Seq<char>, precision: nat) -> Result<RealModel, ParseError> {
    if !decimal_literal(text) {
        Err(ParseError::Syntax)
    } else {
        match checked_at(parsed_decimal(text, precision), precision) {
            Ok(m) => Ok(m),
            Err(f) => Err(ParseError::Fault(f)),
        }
    }
}

/// The precision of all arithmetic, in bits, with the constants cache that
/// the back end needs. Rounding is to nearest with ties to even throughout.
pub struct PrecisionContext {
    precision: Precision,
    cache: Consts,
}

/// A precision within the accepted range.
struct Precision {
    bits: usize,
}

impl Precision {
    #[verifier::type_invariant]
    spec fn well_formed(self) -> bool {
        1 <= self.bits <= MAX_PRECISION
    }

    /// The bits, with the bounds that the invariant gives.
    fn get(&self) -> (p: usize)
        ensures
            p == self.bits,
            1 <= p <= MAX_PRECISION,
    {
        proof {
            use_type_invariant(self);
        }
        self.bits
    }
}

impl PrecisionContext {
    /// The precision in bits.
    pub closed spec fn bits(&self) -> nat {
        self.precision.bits as nat
    }

    /// A context of `precision` bits; the precision must lie between one and
    /// `MAX_PRECISION`.
    pub fn new(precision: usize) -> (r: Result<PrecisionContext, ConfigError>)
        ensures
            !(1 <= precision <= MAX_PRECISION) ==> r == Err::<PrecisionContext, ConfigError>(
                ConfigError::Precision,
            ),
            1 <= precision <= MAX_PRECISION ==> r != Err::<PrecisionContext, ConfigError>(
                ConfigError::Precision,
            ),
            r matches Ok(ctx) ==> ctx.bits() == precision,
    {
        if precision < 1 || precision > MAX_PRECISION {
            return Err(ConfigError::Precision);
        }
        match new_cache() {
            Some(cache) => Ok(PrecisionContext { precision: Precision { bits: precision }, cache }),
            None => Err(ConfigError::OutOfMemory),
        }
    }

    /// The precision in bits.
    pub fn precision(&self) -> (p: usize)
        ensures
            p == self.bits(),
            1 <= p <= MAX_PRECISION,
    {
        self.precision.get()
    }

    /// Number of 64-bit words that hold a mantissa of this precision.
    pub fn words(&self) -> (n: usize)
        ensures
            n == (self.bits() + 63) / 64,
            1 <= n <= MAX_WORDS,
    {
        (self.precision.get() + 63) / 64
    }

    /// Reads a decimal literal at this precision. Text that is not a decimal
    /// literal is refused before the back end sees it; a real that comes
    /// back carries at least the precision's bits of mantissa.
    pub fn parse(&mut self, text: &str) -> (r: Result<BigReal, ParseError>)
        ensures
            final(self).bits() == old(self).bits(),
            !decimal_literal(text@) ==> r == Err::<BigReal, ParseError>(ParseError::Syntax),
            r == Err::<BigReal, ParseError>(ParseError::Fault(ArithmeticFault::OutOfMemory))
                || result_model(r) == parse_spec(text@, old(self).bits()),
            r matches Ok(v) ==> 64 * v@.words.len() >= old(self).bits(),
    {
        if !is_decimal_literal(text) {
            return Err(ParseError::Syntax);
        }
        let precision = self.precision.get();
        let outcome = raw_parse(text, precision, &mut self.cache);
        match self.at_precision(check_outcome(outcome)) {
            Ok(v) => Ok(v),
            Err(f) => Err(ParseError::Fault(f)),
        }
    }

    /// Holds a result of the back end to this precision: a real with fewer
    /// bits of mantissa is no result.
    fn at_precision(&self, r: Result<BigReal, ArithmeticFault>) -> (checked: Result<
        BigReal,
        ArithmeticFault,
    >)
        ensures
            checked == (match r {
                Ok(v) => if 64 * v@.words.len() >= self.bits() {
                    r
                } else {
                    Err(ArithmeticFault::Invalid)
                },
                Err(_) => r,
            }),
    {
        match r {
            Ok(v) => if v.parts().words.len() >= self.words() {
                Ok(v)
            } else {
                Err(ArithmeticFault::Invalid)
            },
            Err(f) => Err(f),
        }
    }

    /// `a + b`, rounded once.
    pub fn add(&self, a: &BigReal, b: &BigReal) -> (r: Result<BigReal, ArithmeticFault>)
        ensures
            agrees(r, sum_spec(a@, b@, self.bits())),
            r matches Ok(v) ==> 64 * v@.words.len() >= self.bits(),
    {
        self.at_precision(check_outcome(raw_sum(a.parts(), b.parts(), self.precision.get())))
    }

    /// `a - b`, rounded once.
    pub fn sub(&self, a: &BigReal, b: &BigReal) -> (r: Result<BigReal, ArithmeticFault>)
        ensures
            agrees(r, difference_spec(a@, b@, self.bits())),
            r matches Ok(v) ==> 64 * v@.words.len() >= self.bits(),
    {
        self.at_precision(
            check_outcome(raw_difference(a.parts(), b.parts(), self.precision.get())),
        )
    }

    /// `a * b`, rounded once.
    pub fn mul(&self, a: &BigReal, b: &BigReal) -> (r: Result<BigReal, ArithmeticFault>)
        ensures
            agrees(r, product_spec(a@, b@, self.bits())),
            r matches Ok(v) ==> 64 * v@.words.len() >= self.bits(),
    {
        self.at_precision(check_outcome(raw_product(a.parts(), b.parts(), self.precision.get())))
    }

    /// `a * a`, computed as `mul(a, a)`.
    pub fn square(&self, a: &BigReal) -> (r: Result<BigReal, ArithmeticFault>)
        ensures
            agrees(r, square_spec(a@, self.bits())),
            r matches Ok(v) ==> 64 * v@.words.len() >= self.bits(),
    {
        self.mul(a, a)
    }

    /// The square of `z = re + im i`: `(re^2 - im^2, 2 re im)`, each part
    /// rounded once after it is combined.
    pub fn complex_square(&self, z: &BigComplex) -> (r: Result<BigComplex, ArithmeticFault>)
        ensures
            complex_agrees(r, complex_square_spec(z@, self.bits())),
            r matches Ok(w) ==> 64 * w@.re.words.len() >= self.bits() && 64 * w@.im.words.len()
                >= self.bits(),
    {
        let re2 = match check_outcome(raw_exact_product(z.re.parts(), z.re.parts())) {
            Ok(v) => v,
            Err(f) => return Err(f),
        };
        let im2 = match check_outcome(raw_exact_product(z.im.parts(), z.im.parts())) {
            Ok(v) => v,
            Err(f) => return Err(f),
        };
        let re = match self.sub(&re2, &im2) {
            Ok(v) => v,
            Err(f) => return Err(f),
        };
        let cross = match self.mul(&z.re, &z.im) {
            Ok(v) => v,
            Err(f) => return Err(f),
        };
        let im = match self.add(&cross, &cross) {
            Ok(v) => v,
            Err(f) => return Err(f),
        };
        Ok(BigComplex { re, im })
    }

    /// The squared modulus of `z`, `re^2 + im^2`, at full precision.
    pub fn squared_modulus(&self, z: &BigComplex) -> (r: Result<BigReal, ArithmeticFault>)
        ensures
            agrees(r, squared_modulus_spec(z@, self.bits())),
            r matches Ok(v) ==> 64 * v@.words.len() >= self.bits(),
    {
        let x = match self.mul(&z.re, &z.re) {
            Ok(v) => v,
            Err(f) => return Err(f),
        };
        let y = match self.mul(&z.im, &z.im) {
            Ok(v) => v,
            Err(f) => return Err(f),
        };
        self.add(&x, &y)
    }
}

/// Whether `a` has reached `b`: `Some(true)` where `a` is not below `b`,
/// `Some(false)` where it is, `None` where the back end could not tell
/// because it could not allocate.
pub fn reaches(a: &BigReal, b: &BigReal) -> (r: Option<bool>)
    ensures
        r matches Some(reached) ==> reached == !less(a@, b@),
{
    reached(raw_compare(a.parts(), b.parts()))
}

/// Reads the answer of a comparison of `a` with `b`: a missing answer stays
/// missing; an answer that is there tells that `a` has reached `b` exactly
/// when it is not negative.
pub fn reached(answer: Option<i128>) -> (r: Option<bool>)
    ensures
        r == (match answer {
            Some(c) => Some(c >= 0),
            None => None,
        }),
{
    match answer {
        Some(c) => Some(c >= 0),
        None => None,
    }
}

} // verus!

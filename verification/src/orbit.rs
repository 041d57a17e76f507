//! The reference orbit: the iterates of `z -> z^2 + c` from `z = 0`, each
//! recorded as a pair of doubles until the squared modulus of the next
//! iterate reaches four or the iteration count is spent.

use vstd::prelude::*;
use crate::bigreal::{four_model, less, zero_model, BigComplex, BigReal, ComplexModel, RealModel};
use crate::double::{double_bits, to_double};
use crate::literal::{decimal_literal, is_decimal_literal};
use crate::engine::{
    complex_agrees, complex_square_spec, parse_spec, reaches, squared_modulus_spec, sum_spec,
    ArithmeticFault, ParseError, PrecisionContext,
};

verus! {

/// Precision, in bits, of `calc_reference_point`.
pub const DEFAULT_PRECISION: usize = 310;

/// Where the iteration that fills an orbit stands.
#[derive(Clone, Copy, Debug, PartialEq, Eq, Structural)]
pub enum IterationState {
    /// Nothing is recorded yet.
    Init,
    /// Samples are being recorded.
    Iterating,
    /// Ended because the iterate after the last sample has bailed out.
    Bailed,
    /// Ended because the iteration count is spent.
    Exhausted,
}

/// One sample of an orbit: an iterate taken down to doubles, as bit patterns.
#[derive(Clone, Copy, Debug, PartialEq, Eq, Structural)]
pub struct OrbitSample {
    pub re: u64,
    pub im: u64,
}

/// The samples of an orbit: doubles as bit patterns, real and imaginary part
/// of each iterate in turn, with the state of the iteration that recorded
/// them.
pub struct ReferenceOrbit {
    vec: Vec<u64>,
    state: IterationState,
}

impl View for ReferenceOrbit {
    type V = Seq<u64>;

    closed spec fn view(&self) -> Seq<u64> {
        self.vec@
    }
}

/// `Vec::shrink_to_fit`: gives unused capacity back and leaves the contents
/// as they are.
#[verifier::external_body]
fn release_capacity(v: &mut Vec<u64>)
    ensures
        final(v)@ == old(v)@,
{
    v.shrink_to_fit();
}

impl ReferenceOrbit {
    /// The state of the iteration.
    pub closed spec fn state_spec(&self) -> IterationState {
        self.state
    }

    /// An empty orbit, with room for `size` doubles where the room can be
    /// had.
    pub fn new(size: usize) -> (r: ReferenceOrbit)
        ensures
            r@ == Seq::<u64>::empty(),
            r.state_spec() == IterationState::Init,
    {
        let mut orbit = ReferenceOrbit { vec: Vec::new(), state: IterationState::Init };
        orbit.reserve(size);
        orbit
    }

    /// Makes room for `additional` more doubles and tells whether it was had:
    /// always for none, never past the address space. Samples and state stay.
    pub fn reserve(&mut self, additional: usize) -> (done: bool)
        ensures
            final(self)@ == old(self)@,
            final(self).state_spec() == old(self).state_spec(),
            additional == 0 ==> done,
            done && additional > 0 ==> addressable(old(self)@.len() + additional),
    {
        if additional == 0 {
            return true;
        }
        let limit: usize = (isize::MAX as usize) / 8;
        let len = self.vec.len();
        if len > limit || additional > limit - len {
            return false;
        }
        room_was_had(self.vec.try_reserve(additional))
    }

    /// Appends one sample; the iteration is under way.
    pub fn push(&mut self, re: u64, im: u64)
        ensures
            final(self)@ == old(self)@.push(re).push(im),
            final(self).state_spec() == IterationState::Iterating,
    {
        self.vec.push(re);
        self.vec.push(im);
        self.state = IterationState::Iterating;
    }

    /// Ends the iteration: by bailout, or because the count is spent. The
    /// samples stay as they are.
    pub fn finish(&mut self, bailed: bool)
        ensures
            final(self)@ == old(self)@,
            final(self).state_spec() == ended(bailed),
    {
        self.state = if bailed { IterationState::Bailed } else { IterationState::Exhausted };
    }

    /// Keeps the first `size` doubles, all of them where there are no more,
    /// and gives unused capacity back. The state stays as it is.
    pub fn shrink(&mut self, size: usize)
        ensures
            size <= old(self)@.len() ==> final(self)@ == old(self)@.subrange(0, size as int),
            size > old(self)@.len() ==> final(self)@ == old(self)@,
            final(self).state_spec() == old(self).state_spec(),
    {
        self.vec.truncate(size);
        release_capacity(&mut self.vec);
    }

    /// Number of doubles held: twice the number of samples.
    pub fn len(&self) -> (n: usize)
        ensures
            n == self@.len(),
    {
        self.vec.len()
    }

    /// The state of the iteration.
    pub fn state(&self) -> (state: IterationState)
        ensures
            state == self.state_spec(),
    {
        self.state
    }

    /// Sample `index`, where the orbit holds that many.
    pub fn sample(&self, index: usize) -> (r: Option<OrbitSample>)
        ensures
            r == (if 2 * index + 1 < self@.len() {
                Some(OrbitSample { re: self@[2 * index], im: self@[2 * index + 1] })
            } else {
                None
            }),
    {
        let len = self.vec.len();
        if index < len / 2 {
            Some(OrbitSample { re: self.vec[2 * index], im: self.vec[2 * index + 1] })
        } else {
            None
        }
    }

    /// The doubles held, in order.
    pub fn doubles(&self) -> (v: &Vec<u64>)
        ensures
            v@ == self@,
    {
        &self.vec
    }

    /// Hands the doubles over.
    pub fn into_doubles(self) -> (v: Vec<u64>)
        ensures
            v@ == self@,
    {
        self.vec
    }
}

/// Number of 64-bit words of a mantissa of `precision` bits.
pub open spec fn words_for(precision: nat) -> nat {
    (precision + 63) / 64
}

/// The starting point of every orbit: zero.
pub open spec fn origin(precision: nat) -> ComplexModel {
    ComplexModel {
        re: zero_model(words_for(precision), false),
        im: zero_model(words_for(precision), false),
    }
}

/// The next iterate: the complex square of `z`, then `c` added to each part.
pub open spec fn next_spec(z: ComplexModel, c: ComplexModel, precision: nat) -> Result<
    ComplexModel,
    ArithmeticFault,
> {
    match complex_square_spec(z, precision) {
        Err(f) => Err(f),
        Ok(w) => match sum_spec(w.re, c.re, precision) {
            Err(f) => Err(f),
            Ok(re) => match sum_spec(w.im, c.im, precision) {
                Err(f) => Err(f),
                Ok(im) => Ok(ComplexModel { re, im }),
            },
        },
    }
}

/// Whether `z` has bailed out: its squared modulus, at full precision, is
/// not below four.
pub open spec fn bails_spec(z: ComplexModel, precision: nat) -> Result<bool, ArithmeticFault> {
    match squared_modulus_spec(z, precision) {
        Err(f) => Err(f),
        Ok(m) => Ok(!less(m, four_model(words_for(precision)))),
    }
}

/// The state in which an iteration ends.
pub open spec fn ended(bailed: bool) -> IterationState {
    if bailed {
        IterationState::Bailed
    } else {
        IterationState::Exhausted
    }
}

/// A finished orbit: its doubles and how it ended.
pub struct OrbitModel {
    pub samples: Seq<u64>,
    pub state: IterationState,
}

/// The orbit recorded from `z` on, after the doubles in `recorded`, with
/// `remaining` samples still allowed: `z` is recorded, the next iterate and
/// its squared modulus are computed, and the orbit ends there where that
/// iterate has bailed out.
pub open spec fn run(
    z: ComplexModel,
    c: ComplexModel,
    precision: nat,
    remaining: nat,
    recorded: Seq<u64>,
) -> Result<OrbitModel, ArithmeticFault>
    decreases remaining,
{
    if remaining == 0 {
        Ok(OrbitModel { samples: recorded, state: IterationState::Exhausted })
    } else {
        let samples = recorded.push(double_bits(z.re)).push(double_bits(z.im));
        match next_spec(z, c, precision) {
            Err(f) => Err(f),
            Ok(next) => match bails_spec(next, precision) {
                Err(f) => Err(f),
                Ok(bailed) => if bailed {
                    Ok(OrbitModel { samples, state: IterationState::Bailed })
                } else {
                    run(next, c, precision, (remaining - 1) as nat, samples)
                },
            },
        }
    }
}

/// The orbit of `c` with at most `max_iter + 1` samples.
pub open spec fn orbit_spec(c: ComplexModel, precision: nat, max_iter: nat) -> Result<
    OrbitModel,
    ArithmeticFault,
> {
    run(origin(precision), c, precision, max_iter + 1, Seq::<u64>::empty())
}

/// Why no orbit came out.
#[derive(Clone, Copy, Debug, PartialEq, Eq, Structural)]
pub enum OrbitError {
    /// A coordinate of the center gave no real.
    Parse(ParseError),
    /// The arithmetic failed during the iteration.
    Arithmetic(ArithmeticFault),
    /// Storage for the samples could not be reserved.
    Storage,
}

/// Whether an error tells of missing memory rather than of the request.
pub open spec fn resource_failure(e: OrbitError) -> bool {
    e == OrbitError::Storage || e == OrbitError::Arithmetic(ArithmeticFault::OutOfMemory) || e
        == OrbitError::Parse(ParseError::Fault(ArithmeticFault::OutOfMemory))
}

/// What a request gives, memory permitting: the error of the first
/// coordinate that does not parse, the real one first; else the orbit, or
/// the arithmetic fault that ended it.
pub open spec fn calc_spec(re: Seq<char>, im: Seq<char>, max_iter: nat, precision: nat) -> Result<
    OrbitModel,
    OrbitError,
> {
    match parse_spec(re, precision) {
        Err(e) => Err(OrbitError::Parse(e)),
        Ok(c_re) => match parse_spec(im, precision) {
            Err(e) => Err(OrbitError::Parse(e)),
            Ok(c_im) => match orbit_spec(ComplexModel { re: c_re, im: c_im }, precision, max_iter) {
                Err(f) => Err(OrbitError::Arithmetic(f)),
                Ok(orbit) => Ok(orbit),
            },
        },
    }
}

/// The model of a result that holds an orbit.
pub open spec fn orbit_model(r: Result<ReferenceOrbit, OrbitError>) -> Result<OrbitModel, OrbitError> {
    match r {
        Ok(orbit) => Ok(OrbitModel { samples: orbit@, state: orbit.state_spec() }),
        Err(e) => Err(e),
    }
}

/// The `k`-th iterate from the origin, where every step up to it was computed.
pub open spec fn iterate(c: ComplexModel, precision: nat, k: nat) -> Result<
    ComplexModel,
    ArithmeticFault,
>
    decreases k,
{
    if k == 0 {
        Ok(origin(precision))
    } else {
        match iterate(c, precision, (k - 1) as nat) {
            Err(f) => Err(f),
            Ok(z) => next_spec(z, c, precision),
        }
    }
}

/// The `k`-th iterate exists and its squared modulus is below four.
#[verifier::opaque]
pub open spec fn stays(c: ComplexModel, precision: nat, k: nat) -> bool {
    iterate(c, precision, k) matches Ok(z) && bails_spec(z, precision) == Ok::<
        bool,
        ArithmeticFault,
    >(false)
}

/// The `k`-th iterate exists and its squared modulus has reached four.
#[verifier::opaque]
pub open spec fn leaves(c: ComplexModel, precision: nat, k: nat) -> bool {
    iterate(c, precision, k) matches Ok(z) && bails_spec(z, precision) == Ok::<
        bool,
        ArithmeticFault,
    >(true)
}

/// Sample `k` of `samples` is the `k`-th iterate taken down to doubles.
#[verifier::opaque]
pub open spec fn records(samples: Seq<u64>, c: ComplexModel, precision: nat, k: nat) -> bool {
    iterate(c, precision, k) matches Ok(z) && samples[2 * (k as int)] == double_bits(z.re)
        && samples[2 * (k as int) + 1] == double_bits(z.im)
}

/// One step of a run that gives an orbit: the next iterate and its bailout
/// test both exist, and the run ends there or goes on from that iterate.
proof fn lemma_run_step(
    z: ComplexModel,
    c: ComplexModel,
    precision: nat,
    remaining: nat,
    recorded: Seq<u64>,
)
    requires
        remaining >= 1,
        run(z, c, precision, remaining, recorded) is Ok,
    ensures
        next_spec(z, c, precision) is Ok,
        bails_spec(next_spec(z, c, precision)->Ok_0, precision) is Ok,
        run(z, c, precision, remaining, recorded) == (if bails_spec(
            next_spec(z, c, precision)->Ok_0,
            precision,
        )->Ok_0 {
            Ok::<OrbitModel, ArithmeticFault>(
                OrbitModel {
                    samples: recorded.push(double_bits(z.re)).push(double_bits(z.im)),
                    state: IterationState::Bailed,
                },
            )
        } else {
            run(
                next_spec(z, c, precision)->Ok_0,
                c,
                precision,
                (remaining - 1) as nat,
                recorded.push(double_bits(z.re)).push(double_bits(z.im)),
            )
        }),
{
}

/// What holds of a run that starts at iterate `start` with `2 * start` doubles
/// recorded and ends in `orbit`.
proof fn lemma_run(
    c: ComplexModel,
    precision: nat,
    start: nat,
    z: ComplexModel,
    remaining: nat,
    recorded: Seq<u64>,
    orbit: OrbitModel,
)
    requires
        remaining >= 1,
        iterate(c, precision, start) == Ok::<ComplexModel, ArithmeticFault>(z),
        recorded.len() == 2 * start,
        run(z, c, precision, remaining, recorded) == Ok::<OrbitModel, ArithmeticFault>(orbit),
    ensures
        orbit.samples.len() % 2 == 0,
        start + 1 <= orbit.samples.len() / 2 <= start + remaining,
        orbit.samples.subrange(0, 2 * (start as int)) == recorded,
        forall|k: nat|
            start <= k < orbit.samples.len() / 2 ==> records(orbit.samples, c, precision, k),
        forall|k: nat| start < k < orbit.samples.len() / 2 ==> stays(c, precision, k),
        orbit.state == IterationState::Bailed ==> leaves(c, precision, orbit.samples.len() / 2),
        orbit.state == IterationState::Exhausted ==> orbit.samples.len() / 2 == start + remaining
            && stays(c, precision, orbit.samples.len() / 2),
        orbit.state == IterationState::Bailed || orbit.state == IterationState::Exhausted,
    decreases remaining,
{
    let samples = orbit.samples;
    let extended = recorded.push(double_bits(z.re)).push(double_bits(z.im));
    let cut = 2 * (start as int);
    lemma_run_step(z, c, precision, remaining, recorded);
    let next = next_spec(z, c, precision)->Ok_0;
    let bailed = bails_spec(next, precision)->Ok_0;
    assert(iterate(c, precision, start + 1) == Ok::<ComplexModel, ArithmeticFault>(next));
    assert(extended.len() == cut + 2);
    assert(extended.subrange(0, cut) =~= recorded);
    assert(extended[cut] == double_bits(z.re) && extended[cut + 1] == double_bits(z.im));
    if bailed {
        assert(orbit == (OrbitModel { samples: extended, state: IterationState::Bailed }));
        assert(leaves(c, precision, start + 1)) by {
            reveal(leaves);
        }
        assert(records(samples, c, precision, start)) by {
            reveal(records);
        }
    } else if remaining == 1 {
        assert(run(next, c, precision, 0, extended) == Ok::<OrbitModel, ArithmeticFault>(
            OrbitModel { samples: extended, state: IterationState::Exhausted },
        ));
        assert(orbit == (OrbitModel { samples: extended, state: IterationState::Exhausted }));
        assert(stays(c, precision, start + 1)) by {
            reveal(stays);
        }
        assert(records(samples, c, precision, start)) by {
            reveal(records);
        }
    } else {
        lemma_run(c, precision, start + 1, next, (remaining - 1) as nat, extended, orbit);
        assert(samples.subrange(0, cut + 2) == extended);
        assert(samples.subrange(0, cut) =~= samples.subrange(0, cut + 2).subrange(0, cut));
        assert(samples[cut] == samples.subrange(0, cut + 2)[cut]);
        assert(samples[cut + 1] == samples.subrange(0, cut + 2)[cut + 1]);
        assert(records(samples, c, precision, start)) by {
            reveal(records);
        }
        assert(stays(c, precision, start + 1)) by {
            reveal(stays);
        }
    }
}

/// An orbit holds at least one sample and at most `max_iter + 1`, two
/// doubles each.
pub proof fn lemma_orbit_length(c: ComplexModel, precision: nat, max_iter: nat, orbit: OrbitModel)
    requires
        orbit_spec(c, precision, max_iter) == Ok::<OrbitModel, ArithmeticFault>(orbit),
    ensures
        orbit.samples.len() % 2 == 0,
        1 <= orbit.samples.len() / 2 <= max_iter + 1,
{
    lemma_run(c, precision, 0, origin(precision), max_iter + 1, Seq::<u64>::empty(), orbit);
}

/// The bailout property. Sample `k` of an orbit is the `k`-th iterate taken
/// down to doubles, and every iterate recorded after the origin has a
/// squared modulus below four. An orbit ends as bailed exactly when the
/// iterate right after its last sample is the first whose squared modulus
/// has reached four; that iterate is not recorded. It ends as exhausted
/// exactly when it holds `max_iter + 1` samples and the iterate after the
/// last is still below four. An orbit of fewer samples has bailed.
pub proof fn lemma_bailout(c: ComplexModel, precision: nat, max_iter: nat, orbit: OrbitModel)
    requires
        orbit_spec(c, precision, max_iter) == Ok::<OrbitModel, ArithmeticFault>(orbit),
    ensures
        forall|k: nat| k < orbit.samples.len() / 2 ==> records(orbit.samples, c, precision, k),
        forall|k: nat| 1 <= k < orbit.samples.len() / 2 ==> stays(c, precision, k),
        orbit.state == IterationState::Bailed <==> leaves(c, precision, orbit.samples.len() / 2),
        orbit.state == IterationState::Exhausted <==> orbit.samples.len() / 2 == max_iter + 1
            && stays(c, precision, orbit.samples.len() / 2),
        orbit.samples.len() / 2 <= max_iter ==> orbit.state == IterationState::Bailed,
{
    lemma_run(c, precision, 0, origin(precision), max_iter + 1, Seq::<u64>::empty(), orbit);
    assert(!(stays(c, precision, orbit.samples.len() / 2) && leaves(
        c,
        precision,
        orbit.samples.len() / 2,
    ))) by {
        reveal(stays);
        reveal(leaves);
    }
}

/// What `calc` promises of its result.
pub open spec fn calc_outcome(
    r: Result<ReferenceOrbit, OrbitError>,
    re: Seq<char>,
    im: Seq<char>,
    max_iter: nat,
    precision: nat,
) -> bool {
    (r matches Err(e) && resource_failure(e)) || orbit_model(r) == calc_spec(
        re,
        im,
        max_iter,
        precision,
    )
}

/// Determinism: two outcomes of the same request at the same precision,
/// neither of them a failure for want of memory, hold the same doubles or the
/// same error.
pub proof fn lemma_deterministic(
    first: Result<ReferenceOrbit, OrbitError>,
    second: Result<ReferenceOrbit, OrbitError>,
    re: Seq<char>,
    im: Seq<char>,
    max_iter: nat,
    precision: nat,
)
    requires
        calc_outcome(first, re, im, max_iter, precision),
        calc_outcome(second, re, im, max_iter, precision),
        !(first matches Err(e) && resource_failure(e)),
        !(second matches Err(e) && resource_failure(e)),
    ensures
        orbit_model(first) == orbit_model(second),
{
}

/// A center whose real part is no decimal literal gives a syntax error,
/// whatever else is asked.
pub proof fn lemma_malformed_center(re: Seq<char>, im: Seq<char>, max_iter: nat, precision: nat)
    requires
        !decimal_literal(re),
    ensures
        calc_spec(re, im, max_iter, precision) == Err::<OrbitModel, OrbitError>(
            OrbitError::Parse(ParseError::Syntax),
        ),
{
}

/// The iterate after `z` in the orbit of `c`.
pub fn next(ctx: &PrecisionContext, z: &BigComplex, c: &BigComplex) -> (r: Result<
    BigComplex,
    ArithmeticFault,
>)
    ensures
        complex_agrees(r, next_spec(z@, c@, ctx.bits())),
{
    let w = match ctx.complex_square(z) {
        Ok(w) => w,
        Err(f) => return Err(f),
    };
    let re = match ctx.add(&w.re, &c.re) {
        Ok(v) => v,
        Err(f) => return Err(f),
    };
    let im = match ctx.add(&w.im, &c.im) {
        Ok(v) => v,
        Err(f) => return Err(f),
    };
    Ok(BigComplex { re, im })
}

/// Whether `z` has bailed out: whether its squared modulus has reached four.
pub fn bailed(ctx: &PrecisionContext, z: &BigComplex) -> (r: Result<bool, ArithmeticFault>)
    ensures
        r == Err::<bool, ArithmeticFault>(ArithmeticFault::OutOfMemory) || r == bails_spec(
            z@,
            ctx.bits(),
        ),
{
    let m = match ctx.squared_modulus(z) {
        Ok(v) => v,
        Err(f) => return Err(f),
    };
    let four = BigReal::four(ctx.words());
    match reaches(&m, &four) {
        Some(reached) => Ok(reached),
        None => Err(ArithmeticFault::OutOfMemory),
    }
}

/// Computes the reference orbit of the center `(center_re, center_im)`, given
/// as decimal literals, with at most `max_iteration + 1` samples.
pub fn calc(ctx: &mut PrecisionContext, center_re: &str, center_im: &str, max_iteration: usize) -> (r:
    Result<ReferenceOrbit, OrbitError>)
    ensures
        final(ctx).bits() == old(ctx).bits(),
        calc_outcome(r, center_re@, center_im@, max_iteration as nat, old(ctx).bits()),
        !decimal_literal(center_re@) ==> r == Err::<ReferenceOrbit, OrbitError>(
            OrbitError::Parse(ParseError::Syntax),
        ),
        !decimal_literal(center_im@) ==> r matches Err(OrbitError::Parse(_)),
        r matches Ok(orbit) ==> 2 <= orbit@.len() <= 2 * (max_iteration + 1) && orbit@.len() % 2
            == 0,
        r matches Ok(orbit) ==> orbit.state_spec() == IterationState::Bailed || orbit.state_spec()
            == IterationState::Exhausted,
{
    let c_re = match ctx.parse(center_re) {
        Ok(v) => v,
        Err(e) => return Err(OrbitError::Parse(e)),
    };
    let c_im = match ctx.parse(center_im) {
        Ok(v) => v,
        Err(e) => return Err(OrbitError::Parse(e)),
    };
    if max_iteration >= usize::MAX / 2 {
        return Err(OrbitError::Storage);
    }
    let mut orbit = ReferenceOrbit::new(0);
    if !orbit.reserve((max_iteration + 1) * 2) {
        return Err(OrbitError::Storage);
    }
    let words = ctx.words();
    let c = BigComplex { re: c_re, im: c_im };
    let mut z = BigComplex { re: BigReal::zero(words), im: BigReal::zero(words) };
    let mut n: usize = 0;
    let ghost precision = ctx.bits();
    while n <= max_iteration
        invariant
            n <= max_iteration + 1,
            max_iteration < usize::MAX / 2,
            precision == ctx.bits(),
            precision == old(ctx).bits(),
            parse_spec(center_re@, precision) == Ok::<RealModel, ParseError>(c@.re),
            parse_spec(center_im@, precision) == Ok::<RealModel, ParseError>(c@.im),
            orbit@.len() == 2 * n,
            orbit_spec(c@, precision, max_iteration as nat) == run(
                z@,
                c@,
                precision,
                (max_iteration + 1 - n) as nat,
                orbit@,
            ),
        decreases max_iteration + 1 - n,
    {
        orbit.push(to_double(&z.re), to_double(&z.im));
        let after = match next(ctx, &z, &c) {
            Ok(w) => w,
            Err(f) => return Err(OrbitError::Arithmetic(f)),
        };
        let stop = match bailed(ctx, &after) {
            Ok(b) => b,
            Err(f) => return Err(OrbitError::Arithmetic(f)),
        };
        z = after;
        n = n + 1;
        if stop {
            let ghost samples = orbit@;
            orbit.finish(true);
            orbit.shrink(n * 2);
            assert(orbit@ =~= samples);
            return Ok(orbit);
        }
    }
    let ghost samples = orbit@;
    orbit.finish(false);
    orbit.shrink(n * 2);
    assert(orbit@ =~= samples);
    Ok(orbit)
}

/// The reference orbit of a center at `DEFAULT_PRECISION` bits.
pub fn calc_reference_point(center_re_str: String, center_im_str: String, max_iteration: usize) -> (r:
    Result<ReferenceOrbit, OrbitError>)
    ensures
        calc_outcome(
            r,
            center_re_str@,
            center_im_str@,
            max_iteration as nat,
            DEFAULT_PRECISION as nat,
        ),
        !decimal_literal(center_re_str@) ==> r == Err::<ReferenceOrbit, OrbitError>(
            OrbitError::Parse(ParseError::Syntax),
        ),
        !decimal_literal(center_im_str@) ==> r is Err,
        r matches Ok(orbit) ==> 2 <= orbit@.len() <= 2 * (max_iteration + 1) && orbit@.len() % 2
            == 0,
{
    if !is_decimal_literal(center_re_str.as_str()) {
        return Err(OrbitError::Parse(ParseError::Syntax));
    }
    let mut ctx = match PrecisionContext::new(DEFAULT_PRECISION) {
        Ok(ctx) => ctx,
        Err(_) => return Err(OrbitError::Storage),
    };
    calc(&mut ctx, center_re_str.as_str(), center_im_str.as_str(), max_iteration)
}

/// Whether `count` doubles, eight bytes each, fit the address space: no
/// allocation holds more than `isize::MAX` bytes.
pub open spec fn addressable(count: int) -> bool {
    count * 8 <= isize::MAX
}

/// Reads the answer to a request for room: whether the room was had.
pub fn room_was_had(answer: Result<(), std::collections::TryReserveError>) -> (done: bool)
    ensures
        done == (answer is Ok),
{
    match answer {
        Ok(_) => true,
        Err(_) => false,
    }
}

} // verus!

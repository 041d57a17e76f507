use reference_orbit::engine::{ArithmeticFault, ParseError, PrecisionContext};
use reference_orbit::bigreal::BigComplex;
use reference_orbit::double::{from_double, to_double};
use reference_orbit::orbit::{
    bailed, calc_reference_point, next, room_was_had, IterationState, OrbitError, OrbitSample,
    ReferenceOrbit,
};

fn doubles(bits: &[u64]) -> Vec<f64> {
    bits.iter().map(|b| f64::from_bits(*b)).collect()
}

#[test]
fn origin_never_bails() {
    let mut ctx = PrecisionContext::new(310).expect("context");
    let orbit = reference_orbit::orbit::calc(&mut ctx, "0", "0", 5).expect("orbit");
    assert_eq!(orbit.len(), 12);
    assert_eq!(doubles(orbit.doubles()), vec![0.0; 12]);
    assert_eq!(orbit.state(), IterationState::Exhausted);
}

#[test]
fn center_one_bails_at_two() {
    let mut ctx = PrecisionContext::new(310).expect("context");
    let orbit = reference_orbit::orbit::calc(&mut ctx, "1", "0", 10).expect("orbit");
    assert_eq!(doubles(orbit.doubles()), vec![0.0, 0.0, 1.0, 0.0]);
    assert_eq!(orbit.state(), IterationState::Bailed);
    assert_eq!(orbit.sample(0), Some(OrbitSample { re: 0, im: 0 }));
    assert_eq!(orbit.sample(1), Some(OrbitSample { re: 1.0f64.to_bits(), im: 0 }));
    assert_eq!(orbit.sample(2), None);
}

#[test]
fn malformed_center_is_a_parse_error() {
    let mut ctx = PrecisionContext::new(310).expect("context");
    let r = reference_orbit::orbit::calc(&mut ctx, "abc", "0", 10);
    assert!(matches!(r, Err(OrbitError::Parse(ParseError::Syntax))));
}

#[test]
fn reference_point_of_minus_three_quarters() {
    let orbit = calc_reference_point("-0.75".to_string(), "0.1".to_string(), 3).expect("orbit");
    // z1 = c; z2 = c^2 + c
    let d = doubles(orbit.doubles());
    assert_eq!(d.len(), 8);
    assert_eq!(&d[0..4], &[0.0, 0.0, -0.75, 0.1]);
    assert_eq!(d[4], 0.75 * 0.75 - 0.01 - 0.75);
    assert!((d[5] - (2.0 * -0.75 * 0.1 + 0.1)).abs() < 1e-16);
}

#[test]
fn the_second_coordinate_is_checked_too() {
    let mut ctx = PrecisionContext::new(310).expect("context");
    let r = reference_orbit::orbit::calc(&mut ctx, "0", "1.5xyz", 10);
    assert!(matches!(r, Err(OrbitError::Parse(ParseError::Syntax))));
    let r = calc_reference_point("".to_string(), "0".to_string(), 10);
    assert!(matches!(r, Err(OrbitError::Parse(ParseError::Syntax))));
    let r = calc_reference_point("0".to_string(), "zero".to_string(), 10);
    assert!(matches!(r, Err(OrbitError::Parse(ParseError::Syntax))));
}

#[test]
fn zero_iterations_give_one_sample() {
    let mut ctx = PrecisionContext::new(310).expect("context");
    for (re, im) in [("0", "0"), ("1", "0"), ("5", "5"), ("-0.75", "0.1")] {
        let orbit = reference_orbit::orbit::calc(&mut ctx, re, im, 0).expect("orbit");
        assert_eq!(doubles(orbit.doubles()), vec![0.0, 0.0]);
    }
}

#[test]
fn the_length_stays_within_its_bounds() {
    let mut ctx = PrecisionContext::new(310).expect("context");
    let centers = [("0", "0"), ("1", "0"), ("-2", "0"), ("0.3", "0.5"), ("-0.75", "0.1"), ("3", "3"), ("0", "1")];
    for (re, im) in centers {
        for max_iter in [0usize, 1, 2, 7, 50] {
            let orbit = reference_orbit::orbit::calc(&mut ctx, re, im, max_iter).expect("orbit");
            assert_eq!(orbit.len() % 2, 0);
            let samples = orbit.len() / 2;
            assert!(1 <= samples && samples <= max_iter + 1);
        }
    }
}

#[test]
fn a_far_center_bails_at_once() {
    let mut ctx = PrecisionContext::new(310).expect("context");
    let orbit = reference_orbit::orbit::calc(&mut ctx, "3", "0", 100).expect("orbit");
    assert_eq!(doubles(orbit.doubles()), vec![0.0, 0.0]);
    // |c|^2 = 4 exactly reaches the threshold
    let orbit = reference_orbit::orbit::calc(&mut ctx, "2", "0", 100).expect("orbit");
    assert_eq!(doubles(orbit.doubles()), vec![0.0, 0.0]);
    let orbit = reference_orbit::orbit::calc(&mut ctx, "-2", "0", 100).expect("orbit");
    assert_eq!(doubles(orbit.doubles()), vec![0.0, 0.0]);
}

#[test]
fn bounded_orbits_run_to_the_end() {
    let mut ctx = PrecisionContext::new(1000).expect("context");
    // c = i: 0, i, -1 + i, -i, -1 + i, ...
    let orbit = reference_orbit::orbit::calc(&mut ctx, "0", "1", 6).expect("orbit");
    assert_eq!(
        doubles(orbit.doubles()),
        vec![0.0, 0.0, 0.0, 1.0, -1.0, 1.0, 0.0, -1.0, -1.0, 1.0, 0.0, -1.0, -1.0, 1.0]
    );
    // c = -1: 0, -1, 0, -1, ...
    let orbit = reference_orbit::orbit::calc(&mut ctx, "-1", "0", 4).expect("orbit");
    assert_eq!(doubles(orbit.doubles()), vec![0.0, 0.0, -1.0, 0.0, 0.0, 0.0, -1.0, 0.0, 0.0, 0.0]);
}

#[test]
fn the_bailing_iterate_is_not_recorded() {
    let mut ctx = PrecisionContext::new(310).expect("context");
    // c = 0.5: 0, 0.5, 0.75, 1.0625, 1.62890625, then 3.1533... whose square exceeds four
    let orbit = reference_orbit::orbit::calc(&mut ctx, "0.5", "0", 100).expect("orbit");
    assert_eq!(
        doubles(orbit.doubles()),
        vec![0.0, 0.0, 0.5, 0.0, 0.75, 0.0, 1.0625, 0.0, 1.62890625, 0.0]
    );
}

#[test]
fn the_same_request_gives_the_same_bits() {
    let mut first = PrecisionContext::new(310).expect("context");
    let mut second = PrecisionContext::new(310).expect("context");
    let a = reference_orbit::orbit::calc(&mut first, "-0.743643887037151", "0.13182590420533", 200).expect("orbit");
    let b = reference_orbit::orbit::calc(&mut second, "-0.743643887037151", "0.13182590420533", 200).expect("orbit");
    let c = reference_orbit::orbit::calc(&mut first, "-0.743643887037151", "0.13182590420533", 200).expect("orbit");
    assert_eq!(a.doubles(), b.doubles());
    assert_eq!(a.doubles(), c.doubles());
    assert_eq!(a.len(), 402);
}

#[test]
fn samples_follow_the_double_iteration_closely() {
    let mut ctx = PrecisionContext::new(310).expect("context");
    let orbit = reference_orbit::orbit::calc(&mut ctx, "-0.75", "0.1", 20).expect("orbit");
    let d = doubles(orbit.doubles());
    let (mut x, mut y) = (0.0f64, 0.0f64);
    for k in 0..d.len() / 2 {
        assert!((d[2 * k] - x).abs() < 1e-12 && (d[2 * k + 1] - y).abs() < 1e-12);
        let (nx, ny) = (x * x - y * y - 0.75, 2.0 * x * y + 0.1);
        x = nx;
        y = ny;
    }
}

#[test]
fn the_sample_buffer() {
    let mut orbit = ReferenceOrbit::new(8);
    assert_eq!(orbit.len(), 0);
    assert_eq!(orbit.state(), IterationState::Init);
    assert_eq!(orbit.sample(0), None);
    assert_eq!(ReferenceOrbit::new(usize::MAX).len(), 0);
    orbit.push(1, 2);
    assert_eq!(orbit.state(), IterationState::Iterating);
    orbit.push(3, 4);
    orbit.push(5, 6);
    assert_eq!(orbit.len(), 6);
    assert_eq!(orbit.sample(2), Some(OrbitSample { re: 5, im: 6 }));
    assert_eq!(orbit.sample(3), None);
    assert_eq!(orbit.sample(usize::MAX), None);
    orbit.finish(true);
    assert_eq!(orbit.state(), IterationState::Bailed);
    orbit.finish(false);
    assert_eq!(orbit.state(), IterationState::Exhausted);
    assert_eq!(orbit.doubles(), &vec![1, 2, 3, 4, 5, 6]);
    assert!(orbit.reserve(100));
    orbit.shrink(10);
    assert_eq!(orbit.len(), 6);
    orbit.shrink(4);
    assert_eq!(orbit.doubles(), &vec![1, 2, 3, 4]);
    orbit.shrink(0);
    assert_eq!(orbit.into_doubles(), Vec::<u64>::new());
}

#[test]
fn a_step_and_its_bailout_test() {
    let ctx = PrecisionContext::new(310).expect("context");
    let complex = |re: f64, im: f64| BigComplex {
        re: from_double(re.to_bits(), 5).expect("a finite double"),
        im: from_double(im.to_bits(), 5).expect("a finite double"),
    };
    let after = next(&ctx, &complex(1.0, 2.0), &complex(0.5, -0.25)).expect("step");
    assert_eq!(
        (f64::from_bits(to_double(&after.re)), f64::from_bits(to_double(&after.im))),
        (-2.5, 3.75)
    );
    assert_eq!(bailed(&ctx, &after), Ok(true));
    assert_eq!(bailed(&ctx, &complex(1.0, 1.0)), Ok(false));
    assert_eq!(bailed(&ctx, &complex(2.0, 0.0)), Ok(true));
    assert_eq!(bailed(&ctx, &complex(0.0, -1.9999999)), Ok(false));
}

#[test]
fn an_overflow_ends_the_request_with_an_error() {
    let mut ctx = PrecisionContext::new(310).expect("context");
    let r = reference_orbit::orbit::calc(&mut ctx, "1e400000000", "0", 10);
    assert!(matches!(r, Err(OrbitError::Arithmetic(ArithmeticFault::Overflow))));
    let r = reference_orbit::orbit::calc(&mut ctx, "0", "-1e400000000", 0);
    assert!(matches!(r, Err(OrbitError::Arithmetic(ArithmeticFault::Overflow))));
    let r = reference_orbit::orbit::calc(&mut ctx, "1e999999999999", "0", 10);
    assert!(matches!(r, Err(OrbitError::Parse(ParseError::Fault(ArithmeticFault::Overflow)))));
    // the context is as good as before
    let orbit = reference_orbit::orbit::calc(&mut ctx, "1", "0", 10).expect("orbit");
    assert_eq!(orbit.len(), 4);
}

#[test]
fn an_orbit_that_cannot_be_stored_is_refused() {
    let mut ctx = PrecisionContext::new(310).expect("context");
    let r = reference_orbit::orbit::calc(&mut ctx, "0", "0", usize::MAX);
    assert!(matches!(r, Err(OrbitError::Storage)));
    let r = reference_orbit::orbit::calc(&mut ctx, "0", "0", usize::MAX / 2);
    assert!(matches!(r, Err(OrbitError::Storage)));
    let r = calc_reference_point("3".to_string(), "0".to_string(), usize::MAX - 1);
    assert!(matches!(r, Err(OrbitError::Storage)));
}

#[test]
fn an_orbit_tells_how_it_ended() {
    let mut ctx = PrecisionContext::new(310).expect("context");
    // c = 0.5 bails after five samples, whatever the bound above that
    for max_iter in [4usize, 5, 100] {
        let orbit = reference_orbit::orbit::calc(&mut ctx, "0.5", "0", max_iter).expect("orbit");
        assert_eq!((orbit.len(), orbit.state()), (10, IterationState::Bailed));
    }
    // with a bound below that it is cut short
    let orbit = reference_orbit::orbit::calc(&mut ctx, "0.5", "0", 3).expect("orbit");
    assert_eq!((orbit.len(), orbit.state()), (8, IterationState::Exhausted));
    let orbit = reference_orbit::orbit::calc(&mut ctx, "0", "1", 50).expect("orbit");
    assert_eq!((orbit.len(), orbit.state()), (102, IterationState::Exhausted));
    let orbit = reference_orbit::orbit::calc(&mut ctx, "3", "0", 0).expect("orbit");
    assert_eq!((orbit.len(), orbit.state()), (2, IterationState::Bailed));
}

#[test]
fn room_is_had_for_nothing_and_never_past_the_address_space() {
    let mut orbit = ReferenceOrbit::new(0);
    assert!(orbit.reserve(0));
    orbit.push(1, 2);
    assert!(orbit.reserve(0));
    assert!(orbit.reserve(6));
    assert!(!orbit.reserve(usize::MAX));
    assert!(!orbit.reserve(usize::MAX - 2));
    assert!(!orbit.reserve(isize::MAX as usize / 8));
    assert!(!orbit.reserve(isize::MAX as usize / 8 - 1));
    assert_eq!(orbit.doubles(), &vec![1, 2]);
    assert_eq!(orbit.state(), IterationState::Iterating);
}

#[test]
fn the_answer_to_a_request_for_room_is_read() {
    let mut v: Vec<u64> = Vec::new();
    assert!(room_was_had(v.try_reserve(4)));
    assert!(room_was_had(Ok(())));
    assert!(!room_was_had(v.try_reserve(usize::MAX)));
}

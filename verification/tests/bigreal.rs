use reference_orbit::bigreal::{zero_words, BigReal, RawParts, EXPONENT_MIN, MAX_WORDS};

fn accepted(words: Vec<u64>, bits: usize, exponent: i32) -> bool {
    BigReal::from_parts(RawParts { words, bits, negative: false, exponent }).is_some()
}

#[test]
fn normal_parts_are_valid() {
    assert!(accepted(vec![0x8000_0000_0000_0000], 64, 0));
    assert!(accepted(vec![0, 0, u64::MAX], 192, -17));
    assert!(accepted(vec![1, 0x8000_0000_0000_0000], 128, i32::MAX));
}

#[test]
fn zero_parts_are_valid() {
    assert!(accepted(vec![], 0, 0));
    assert!(accepted(vec![0, 0, 0], 0, 0));
    assert!(accepted(vec![0], 0, 12));
}

#[test]
fn the_bit_count_must_be_the_bit_length() {
    assert!(!accepted(vec![0x8000_0000_0000_0000], 63, 0));
    assert!(!accepted(vec![0, 0], 1, EXPONENT_MIN));
    assert!(!accepted(vec![1], 0, 0));
    assert!(!accepted(vec![], 64, 0));
    assert!(!accepted(vec![u64::MAX, 0], 128, 0));
}

#[test]
fn a_short_mantissa_needs_the_smallest_exponent() {
    assert!(accepted(vec![1], 1, EXPONENT_MIN));
    assert!(accepted(vec![u64::MAX, 0x7FFF_FFFF_FFFF_FFFF], 127, EXPONENT_MIN));
    assert!(accepted(vec![5, 0], 3, EXPONENT_MIN));
    assert!(!accepted(vec![1], 1, EXPONENT_MIN + 1));
    assert!(!accepted(vec![5, 0], 3, 0));
}

#[test]
fn a_mantissa_may_not_be_too_long() {
    let mut words = zero_words(MAX_WORDS);
    assert_eq!(words.len(), MAX_WORDS);
    assert!(accepted(words.clone(), 0, 0));
    words.push(0);
    assert!(!accepted(words, 0, 0));
}

#[test]
fn parts_are_kept_as_given() {
    let v = BigReal::from_parts(RawParts {
        words: vec![7, 0x8000_0000_0000_0001],
        bits: 128,
        negative: true,
        exponent: -3,
    })
    .expect("valid parts");
    let parts = v.parts();
    assert_eq!(parts.words, vec![7, 0x8000_0000_0000_0001]);
    assert_eq!((parts.bits, parts.negative, parts.exponent), (128, true, -3));
    let top = BigReal::from_top(3, 0xC000_0000_0000_0000, false, 2);
    assert_eq!(top.parts().words, vec![0, 0, 0xC000_0000_0000_0000]);
    assert_eq!((top.parts().bits, top.parts().exponent), (192, 2));
}

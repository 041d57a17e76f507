//! The binary frame of a calculation result: one tag byte, then each double
//! as eight bytes, least significant first, real and imaginary parts
//! interleaved in sample order.

use vstd::prelude::*;

verus! {

/// Tag byte of a calculation result.
pub const CALCULATION_RESULT: u8 = 0x03;

/// The `count` lowest bytes of `x`, least significant first.
pub open spec fn low_bytes(x: nat, count: nat) -> Seq<u8>
    decreases count,
{
    if count == 0 {
        Seq::<u8>::empty()
    } else {
        seq![(x % 256) as u8] + low_bytes(x / 256, (count - 1) as nat)
    }
}

/// The number that little-endian bytes spell.
pub open spec fn number_of(bytes: Seq<u8>) -> nat
    decreases bytes.len(),
{
    if bytes.len() == 0 {
        0
    } else {
        bytes[0] as nat + 256 * number_of(bytes.subrange(1, bytes.len() as int))
    }
}

/// The bytes of a sequence of doubles, eight for each.
pub open spec fn payload(doubles: Seq<u64>) -> Seq<u8>
    decreases doubles.len(),
{
    if doubles.len() == 0 {
        Seq::<u8>::empty()
    } else {
        payload(doubles.drop_last()) + low_bytes(doubles.last() as nat, 8)
    }
}

/// The frame of a calculation result.
pub open spec fn encoded(doubles: Seq<u64>) -> Seq<u8> {
    seq![CALCULATION_RESULT] + payload(doubles)
}

/// The doubles that a payload holds, for a payload of whole doubles.
pub open spec fn doubles_of(bytes: Seq<u8>) -> Seq<u64>
    decreases bytes.len(),
{
    if bytes.len() < 8 {
        Seq::<u64>::empty()
    } else {
        doubles_of(bytes.subrange(0, bytes.len() - 8)).push(
            number_of(bytes.subrange(bytes.len() - 8, bytes.len() as int)) as u64,
        )
    }
}

/// What a frame decodes to: its doubles, where it starts with the tag and
/// holds whole doubles after it.
pub open spec fn decoded(frame: Seq<u8>) -> Option<Seq<u64>> {
    if frame.len() >= 1 && frame[0] == CALCULATION_RESULT && (frame.len() - 1) % 8 == 0 {
        Some(doubles_of(frame.subrange(1, frame.len() as int)))
    } else {
        None
    }
}

/// `low_bytes` gives as many bytes as it is asked for.
pub proof fn lemma_low_bytes_len(x: nat, count: nat)
    ensures
        low_bytes(x, count).len() == count,
    decreases count,
{
    if count > 0 {
        lemma_low_bytes_len(x / 256, (count - 1) as nat);
    }
}

/// A payload holds eight bytes for each double.
pub proof fn lemma_payload_len(doubles: Seq<u64>)
    ensures
        payload(doubles).len() == 8 * doubles.len(),
    decreases doubles.len(),
{
    if doubles.len() > 0 {
        lemma_payload_len(doubles.drop_last());
        lemma_low_bytes_len(doubles.last() as nat, 8);
    }
}

/// Appends the eight bytes of `x` to `out`.
fn push_double(out: &mut Vec<u8>, x: u64)
    ensures
        final(out)@ == old(out)@ + low_bytes(x as nat, 8),
{
    let mut rest: u64 = x;
    let mut i: usize = 0;
    let ghost start = out@;
    while i < 8
        invariant
            i <= 8,
            start + low_bytes(x as nat, 8) == out@ + low_bytes(rest as nat, (8 - i) as nat),
        decreases 8 - i,
    {
        let ghost before = out@;
        out.push((rest % 256) as u8);
        proof {
            assert(before + low_bytes(rest as nat, (8 - i) as nat) =~= out@ + low_bytes(
                (rest / 256) as nat,
                (8 - i - 1) as nat,
            ));
        }
        rest = rest / 256;
        i = i + 1;
    }
    assert(out@ + low_bytes(rest as nat, 0) =~= out@);
}

/// Frames a calculation result.
pub fn encode_result(doubles: &Vec<u64>) -> (frame: Vec<u8>)
    ensures
        frame@ == encoded(doubles@),
{
    let mut frame: Vec<u8> = Vec::new();
    frame.push(CALCULATION_RESULT);
    let mut i: usize = 0;
    while i < doubles.len()
        invariant
            i <= doubles.len(),
            frame@ == encoded(doubles@.subrange(0, i as int)),
        decreases doubles.len() - i,
    {
        let ghost before = frame@;
        push_double(&mut frame, doubles[i]);
        proof {
            let taken = doubles@.subrange(0, i + 1);
            assert(taken.drop_last() =~= doubles@.subrange(0, i as int));
            assert(taken.last() == doubles@[i as int]);
            assert(frame@ =~= encoded(taken));
        }
        i = i + 1;
    }
    assert(doubles@.subrange(0, i as int) =~= doubles@);
    frame
}

/// Little-endian bytes spell the number they were taken from, as far as
/// they reach.
pub proof fn lemma_number_of_low_bytes(x: nat, count: nat)
    ensures
        number_of(low_bytes(x, count)) == x % vstd::arithmetic::power::pow(256, count) as nat,
    decreases count,
{
    reveal(vstd::arithmetic::power::pow);
    lemma_low_bytes_len(x, count);
    if count > 0 {
        let bytes = low_bytes(x, count);
        let rest = low_bytes(x / 256, (count - 1) as nat);
        lemma_number_of_low_bytes(x / 256, (count - 1) as nat);
        lemma_low_bytes_len(x / 256, (count - 1) as nat);
        assert(bytes.subrange(1, bytes.len() as int) =~= rest);
        let scale = vstd::arithmetic::power::pow(256, (count - 1) as nat);
        vstd::arithmetic::power::lemma_pow_positive(256, (count - 1) as nat);
        vstd::arithmetic::div_mod::lemma_fundamental_div_mod(x as int, 256);
        vstd::arithmetic::div_mod::lemma_fundamental_div_mod((x / 256) as int, scale);
        vstd::arithmetic::div_mod::lemma_mod_bound((x / 256) as int, scale);
        let q = (x / 256) / (scale as nat);
        let r = (x / 256) % (scale as nat);
        assert(x == q * (256 * scale) + (256 * r + x % 256)) by (nonlinear_arith)
            requires
                x == 256 * (x / 256) + x % 256,
                x / 256 == scale * q + r,
        ;
        vstd::arithmetic::div_mod::lemma_fundamental_div_mod_converse(
            x as int,
            256 * scale,
            q as int,
            (256 * r + x % 256) as int,
        );
    } else {
        assert(x % 1 == 0);
    }
}

/// The eight bytes of a double spell it.
pub proof fn lemma_double_bytes(x: u64)
    ensures
        low_bytes(x as nat, 8).len() == 8,
        number_of(low_bytes(x as nat, 8)) == x,
{
    lemma_low_bytes_len(x as nat, 8);
    lemma_number_of_low_bytes(x as nat, 8);
    vstd::arithmetic::power::lemma_pow_multiplies(256, 4, 2);
    vstd::arithmetic::power::lemma_pow_multiplies(256, 2, 2);
    vstd::arithmetic::power::lemma_pow1(256);
    vstd::arithmetic::power::lemma_pow_adds(256, 1, 1);
    reveal(vstd::arithmetic::power::pow);
    assert(vstd::arithmetic::power::pow(256, 2) == 65536);
    assert(vstd::arithmetic::power::pow(256, 4) == 65536 * 65536) by {
        vstd::arithmetic::power::lemma_pow_adds(256, 2, 2);
    }
    assert(vstd::arithmetic::power::pow(256, 8) == 0x1_0000_0000_0000_0000) by {
        vstd::arithmetic::power::lemma_pow_adds(256, 4, 4);
    }
    vstd::arithmetic::div_mod::lemma_small_mod(x as nat, 0x1_0000_0000_0000_0000);
}

/// A payload gives back the doubles it was made from.
pub proof fn lemma_doubles_of_payload(doubles: Seq<u64>)
    ensures
        doubles_of(payload(doubles)) == doubles,
    decreases doubles.len(),
{
    lemma_payload_len(doubles);
    if doubles.len() > 0 {
        let bytes = payload(doubles);
        let front = payload(doubles.drop_last());
        let tail = low_bytes(doubles.last() as nat, 8);
        lemma_payload_len(doubles.drop_last());
        lemma_double_bytes(doubles.last());
        lemma_doubles_of_payload(doubles.drop_last());
        assert(bytes.subrange(0, bytes.len() - 8) =~= front);
        assert(bytes.subrange(bytes.len() - 8, bytes.len() as int) =~= tail);
        assert(doubles_of(bytes) =~= doubles);
    } else {
        assert(doubles_of(payload(doubles)) =~= doubles);
    }
}

/// Framing loses nothing: a frame decodes to the doubles it was made from.
pub proof fn lemma_frame_round_trip(doubles: Seq<u64>)
    ensures
        decoded(encoded(doubles)) == Some(doubles),
{
    let frame = encoded(doubles);
    lemma_payload_len(doubles);
    lemma_doubles_of_payload(doubles);
    assert(frame.subrange(1, frame.len() as int) =~= payload(doubles));
}

/// The number spelled by eight bytes, written out.
proof fn lemma_number_of_eight(s: Seq<u8>)
    requires
        s.len() == 8,
    ensures
        number_of(s) == s[0] + 256 * (s[1] + 256 * (s[2] + 256 * (s[3] + 256 * (s[4] + 256 * (s[5]
            + 256 * (s[6] + 256 * s[7])))))),
{
    let t1 = s.subrange(1, 8);
    let t2 = t1.subrange(1, 7);
    let t3 = t2.subrange(1, 6);
    let t4 = t3.subrange(1, 5);
    let t5 = t4.subrange(1, 4);
    let t6 = t5.subrange(1, 3);
    let t7 = t6.subrange(1, 2);
    let t8 = t7.subrange(1, 1);
    assert(number_of(t8) == 0);
    assert(number_of(t7) == t7[0] + 256 * number_of(t8));
    assert(number_of(t6) == t6[0] + 256 * number_of(t7));
    assert(number_of(t5) == t5[0] + 256 * number_of(t6));
    assert(number_of(t4) == t4[0] + 256 * number_of(t5));
    assert(number_of(t3) == t3[0] + 256 * number_of(t4));
    assert(number_of(t2) == t2[0] + 256 * number_of(t3));
    assert(number_of(t1) == t1[0] + 256 * number_of(t2));
    assert(number_of(s) == s[0] + 256 * number_of(t1));
}

/// The double spelled by the eight bytes at `at`.
fn read_double(bytes: &Vec<u8>, at: usize) -> (x: u64)
    requires
        at + 8 <= bytes.len(),
    ensures
        x == number_of(bytes@.subrange(at as int, at + 8)),
{
    proof {
        lemma_number_of_eight(bytes@.subrange(at as int, at + 8));
    }
    let b0 = bytes[at] as u64;
    let b1 = bytes[at + 1] as u64;
    let b2 = bytes[at + 2] as u64;
    let b3 = bytes[at + 3] as u64;
    let b4 = bytes[at + 4] as u64;
    let b5 = bytes[at + 5] as u64;
    let b6 = bytes[at + 6] as u64;
    let b7 = bytes[at + 7] as u64;
    b0 + 256 * (b1 + 256 * (b2 + 256 * (b3 + 256 * (b4 + 256 * (b5 + 256 * (b6 + 256 * b7))))))
}

/// The doubles of an optional vector.
pub open spec fn optional_doubles(r: Option<Vec<u64>>) -> Option<Seq<u64>> {
    match r {
        Some(v) => Some(v@),
        None => None,
    }
}

/// Takes a frame apart: the doubles it holds, where it is the frame of a
/// calculation result.
pub fn decode_result(frame: &Vec<u8>) -> (r: Option<Vec<u64>>)
    ensures
        optional_doubles(r) == decoded(frame@),
{
    let len = frame.len();
    if len < 1 || frame[0] != CALCULATION_RESULT || (len - 1) % 8 != 0 {
        return None;
    }
    let count = (len - 1) / 8;
    let mut doubles: Vec<u64> = Vec::new();
    let mut i: usize = 0;
    let ghost body = frame@.subrange(1, len as int);
    while i < count
        invariant
            i <= count,
            len == frame.len(),
            len == 8 * count + 1,
            body == frame@.subrange(1, len as int),
            doubles@ == doubles_of(body.subrange(0, 8 * i)),
        decreases count - i,
    {
        let x = read_double(frame, 1 + 8 * i);
        proof {
            let taken = body.subrange(0, 8 * (i + 1));
            assert(taken.subrange(0, taken.len() - 8) =~= body.subrange(0, 8 * i));
            assert(taken.subrange(taken.len() - 8, taken.len() as int) =~= frame@.subrange(
                1 + 8 * i,
                1 + 8 * i + 8,
            ));
        }
        doubles.push(x);
        i = i + 1;
    }
    assert(body.subrange(0, 8 * (i as int)) =~= body);
    Some(doubles)
}

} // verus!

//! Key material: the command line's key and the key bytes it stands for.
use rand::rngs::StdRng;
use rand::{Rng, SeedableRng};
use vstd::prelude::*;

use vstd::string::StrSliceExecFns;

use crate::packet::RND_BUF_SIZE;
use crate::text::{
    capitals, digit_value, letter_case_makes_no_difference, number, numbers_are_read_by_place,
    parse_number, written, written_numbers_are_read_back,
};

verus! {

/// How many key bytes the first draw from the generator yields; a second draw yields
/// the rest.
pub const FIRST_DRAW: usize = 4096;

/// The bytes that `rand::Rng::fill` writes to a slice of `len` bytes, on a
/// `rand::rngs::StdRng` that `SeedableRng::seed_from_u64` made from `seed` and that has
/// since filled slices of the lengths in `drawn`.
pub uninterp spec fn std_rng_fill(seed: u64, drawn: Seq<nat>, len: nat) -> Seq<u8>;

/// The key bytes that a key stands for.
pub open spec fn key_stream(input: u64) -> Seq<u8> {
    std_rng_fill(input, seq![], FIRST_DRAW as nat) + std_rng_fill(
        input,
        seq![FIRST_DRAW as nat],
        (RND_BUF_SIZE - FIRST_DRAW) as nat,
    )
}

/// Seeds a `rand::rngs::StdRng` by `SeedableRng::seed_from_u64` and calls `Rng::fill`
/// twice, on `buf` up to `split` and on what is left of it. Claimed: the bytes depend
/// on nothing but the seed and the lengths drawn, and all of `buf` is written. The
/// generator's algorithm is not stated.
#[verifier::external_body]
fn fill_from_seed(seed: u64, buf: &mut [u8], split: usize)
    requires
        split <= old(buf)@.len(),
    ensures
        final(buf)@.len() == old(buf)@.len(),
        final(buf)@.take(split as int) == std_rng_fill(seed, seq![], split as nat),
        final(buf)@.skip(split as int) == std_rng_fill(
            seed,
            seq![split as nat],
            (old(buf)@.len() - split) as nat,
        ),
{
    let mut rng = StdRng::seed_from_u64(seed);
    rng.fill(&mut buf[..split]);
    rng.fill(&mut buf[split..]);
}

/// The key bytes for a key. Equal keys give equal bytes, on every machine.
pub fn generate_random_buf(input: u64) -> (buffer: [u8; RND_BUF_SIZE])
    ensures
        buffer@ == key_stream(input),
        buffer@.take(4096) == std_rng_fill(input, seq![], 4096),
        buffer@.skip(4096) == std_rng_fill(input, seq![4096nat], 3),
{
    let mut buffer = [0u8; RND_BUF_SIZE];
    fill_from_seed(input, &mut buffer, FIRST_DRAW);
    assert(buffer@ =~= buffer@.take(FIRST_DRAW as int) + buffer@.skip(FIRST_DRAW as int));
    buffer
}

/// The key that a text stands for: a hexadecimal number behind `0x`, else a decimal
/// number, and 0 where it is neither.
pub open spec fn key_of(s: Seq<char>) -> u64 {
    let value = if s.len() >= 2 && s[0] == '0' && s[1] == 'x' {
        number(s.skip(2), 16, u64::MAX as nat)
    } else {
        number(s, 10, u64::MAX as nat)
    };
    match value {
        Some(key) => key as u64,
        None => 0,
    }
}

/// Reads the key of the command line.
pub fn parse_obfuscation_key(s: &str) -> (key: u64)
    ensures
        key == key_of(s@),
{
    let len: usize = s.unicode_len();
    let value: Option<u64> = if len >= 2 && s.get_char(0) == '0' && s.get_char(1) == 'x' {
        assert(s@.subrange(2, len as int) =~= s@.skip(2));
        parse_number(s.substring_char(2, len), 16, u64::MAX)
    } else {
        parse_number(s, 10, u64::MAX)
    };
    match value {
        Some(key) => key,
        None => 0,
    }
}

/// Every key can be written in decimal, and in hexadecimal behind `0x`, in small or in
/// capital letters.
pub proof fn written_keys_are_read_back(key: u64)
    ensures
        key_of(written(key as nat, 10)) == key,
        key_of(seq!['0', 'x'] + written(key as nat, 16)) == key,
        key_of(seq!['0', 'x'] + capitals(written(key as nat, 16))) == key,
{
    written_numbers_are_read_back(key as nat, 10, u64::MAX as nat);
    written_numbers_are_read_back(key as nat, 16, u64::MAX as nat);
    let decimal = written(key as nat, 10);
    if decimal.len() >= 2 && decimal[1] == 'x' {
        assert(decimal.contains('x'));
    }
    let hex = written(key as nat, 16);
    letter_case_makes_no_difference(hex, capitals(hex), 16, u64::MAX as nat);
    assert((seq!['0', 'x'] + hex).skip(2) =~= hex);
    assert((seq!['0', 'x'] + capitals(hex)).skip(2) =~= capitals(hex));
}

/// The key bytes are two draws, of 4096 and of 3 bytes, from the generator that the whole
/// key seeds.
pub proof fn the_whole_key_seeds_the_generator(key: u64)
    ensures
        key_stream(key) == std_rng_fill(key, seq![], 4096) + std_rng_fill(key, seq![4096nat], 3),
{
}

/// Decimal digits, and hexadecimal ones behind `0x`, are read as the key that they stand
/// for by their places. A number that exceeds 64 bits is read as 0.
pub proof fn keys_are_read_by_place(s: Seq<char>, digits: Seq<nat>, radix: nat, value: nat)
    requires
        radix == 10 || radix == 16,
        s.len() == digits.len() > 0,
        forall|i: int|
            0 <= i < digits.len() ==> digit_value(#[trigger] s[i], radix) == Some(digits[i]),
        value == digits.fold_left(0nat, |sum: nat, digit: nat| sum * radix + digit),
    ensures
        radix == 10 && value <= 0xffff_ffff_ffff_ffff ==> key_of(s) == value,
        radix == 10 && value > 0xffff_ffff_ffff_ffff ==> key_of(s) == 0,
        radix == 16 && value <= 0xffff_ffff_ffff_ffff ==> key_of(seq!['0', 'x'] + s) == value,
        radix == 16 && value > 0xffff_ffff_ffff_ffff ==> key_of(seq!['0', 'x'] + s) == 0,
{
    numbers_are_read_by_place(s, digits, radix, u64::MAX as nat, value);
    if s.len() >= 2 {
        assert(digit_value(s[1], radix) == Some(digits[1]));
    }
    assert((seq!['0', 'x'] + s).skip(2) =~= s);
}

/// Whatever stands behind `0x` is read as a hexadecimal number, and whatever does not
/// start with `0x` as a decimal one, of 64 bits each. What is no such number is read as 0.
pub proof fn keys_are_numbers_or_zero(s: Seq<char>)
    ensures
        number(s, 16, 0xffff_ffff_ffff_ffff) matches Some(key) ==> key_of(seq!['0', 'x'] + s)
            == key,
        number(s, 16, 0xffff_ffff_ffff_ffff) is None ==> key_of(seq!['0', 'x'] + s) == 0,
        !(s.len() >= 2 && s[0] == '0' && s[1] == 'x') ==> {
            &&& number(s, 10, 0xffff_ffff_ffff_ffff) matches Some(key) ==> key_of(s) == key
            &&& number(s, 10, 0xffff_ffff_ffff_ffff) is None ==> key_of(s) == 0
        },
{
    assert((seq!['0', 'x'] + s).skip(2) =~= s);
}

} // verus!

//! Reading text: splitting, trimming and numbers.
use vstd::arithmetic::div_mod::{
    lemma_div_decreases, lemma_div_pos_is_pos, lemma_fundamental_div_mod,
    lemma_fundamental_div_mod_converse, lemma_mod_bound,
};
use vstd::prelude::*;
use vstd::string::StrSliceExecFns;

verus! {

/// Whether a character has the Unicode property `White_Space`.
pub open spec fn is_white_space(c: char) -> bool {
    let code = c as u32;
    ||| 0x09 <= code <= 0x0d
    ||| code == 0x20
    ||| code == 0x85
    ||| code == 0xa0
    ||| code == 0x1680
    ||| 0x2000 <= code <= 0x200a
    ||| code == 0x2028
    ||| code == 0x2029
    ||| code == 0x202f
    ||| code == 0x205f
    ||| code == 0x3000
}

/// A text without the white space it starts with.
pub open spec fn trimmed_start(s: Seq<char>) -> Seq<char>
    decreases s.len(),
{
    if s.len() > 0 && is_white_space(s[0]) {
        trimmed_start(s.skip(1))
    } else {
        s
    }
}

/// A text without the white space it ends with.
pub open spec fn trimmed_end(s: Seq<char>) -> Seq<char>
    decreases s.len(),
{
    if s.len() > 0 && is_white_space(s.last()) {
        trimmed_end(s.drop_last())
    } else {
        s
    }
}

/// A text without the white space around it.
pub open spec fn trimmed(s: Seq<char>) -> Seq<char> {
    trimmed_end(trimmed_start(s))
}

/// The parts of a text between the occurrences of a separator: always one more than
/// there are separators.
pub open spec fn parts(s: Seq<char>, separator: char) -> Seq<Seq<char>>
    decreases s.len(),
{
    if s.len() == 0 {
        seq![Seq::empty()]
    } else if s.last() == separator {
        parts(s.drop_last(), separator).push(Seq::empty())
    } else {
        let before = parts(s.drop_last(), separator);
        before.drop_last().push(before.last().push(s.last()))
    }
}

/// Texts put together, with a separator between each and the next.
pub open spec fn joined(pieces: Seq<Seq<char>>, separator: char) -> Seq<char>
    decreases pieces.len(),
{
    if pieces.len() == 0 {
        Seq::empty()
    } else if pieces.len() == 1 {
        pieces[0]
    } else {
        joined(pieces.drop_last(), separator).push(separator) + pieces.last()
    }
}

/// The texts that string slices hold.
pub open spec fn texts(slices: Seq<&str>) -> Seq<Seq<char>> {
    slices.map_values(|slice: &str| slice@)
}

/// What a character counts as a digit.
pub open spec fn digit_value(c: char, radix: nat) -> Option<nat> {
    let value = if '0' <= c <= '9' {
        c as int - '0' as int
    } else if 'a' <= c <= 'z' {
        c as int - 'a' as int + 10
    } else if 'A' <= c <= 'Z' {
        c as int - 'A' as int + 10
    } else {
        36
    };
    if value < radix && value < 36 {
        Some(value as nat)
    } else {
        None
    }
}

/// The number that a run of digits stands for.
pub open spec fn digits_value(s: Seq<char>, radix: nat) -> Option<nat>
    decreases s.len(),
{
    if s.len() == 0 {
        Some(0)
    } else {
        match (digits_value(s.drop_last(), radix), digit_value(s.last(), radix)) {
            (Some(high), Some(low)) => Some(high * radix + low),
            _ => None,
        }
    }
}

/// The number that a text stands for: digits behind an optional plus sign, at most `max`.
pub open spec fn number(s: Seq<char>, radix: nat, max: nat) -> Option<nat> {
    let digits = if s.len() > 0 && s[0] == '+' {
        s.skip(1)
    } else {
        s
    };
    match digits_value(digits, radix) {
        Some(value) if digits.len() > 0 && value <= max => Some(value),
        _ => None,
    }
}

/// The digit for a value.
pub open spec fn digit_char(value: nat) -> char {
    if value < 10 {
        ('0' as int + value) as char
    } else {
        ('a' as int + value - 10) as char
    }
}

/// A number written in digits.
pub open spec fn written(n: nat, radix: nat) -> Seq<char>
    decreases n,
{
    if radix < 2 || n < radix {
        seq![digit_char(n)]
    } else {
        proof {
            lemma_div_decreases(n as int, radix as int);
            lemma_div_pos_is_pos(n as int, radix as int);
        }
        written(n / radix, radix).push(digit_char(n % radix))
    }
}

/// The small letter for a capital one; any other character stays as it is.
pub open spec fn small(c: char) -> char {
    if 'A' <= c <= 'Z' {
        (c as int - 'A' as int + 'a' as int) as char
    } else {
        c
    }
}

/// The capital letter for a small one; any other character stays as it is.
pub open spec fn capital(c: char) -> char {
    if 'a' <= c <= 'z' {
        (c as int - 'a' as int + 'A' as int) as char
    } else {
        c
    }
}

/// A text in capital letters.
pub open spec fn capitals(s: Seq<char>) -> Seq<char> {
    s.map_values(|c: char| capital(c))
}

/// The characters of a string slice.
fn characters(s: &str) -> (chars: Vec<char>)
    ensures
        chars@ == s@,
{
    let mut chars: Vec<char> = Vec::new();
    for c in it: s.chars()
        invariant
            it.seq() == s@,
            chars@ == s@.take(it.index() as int),
    {
        chars.push(c);
        assert(chars@ =~= s@.take(it.index() + 1));
    }
    assert(s@.take(s@.len() as int) =~= s@);
    chars
}

/// Whether a character is white space.
pub fn white_space(c: char) -> (yes: bool)
    ensures
        yes == is_white_space(c),
{
    let code: u32 = c as u32;
    (0x09 <= code && code <= 0x0d) || code == 0x20 || code == 0x85 || code == 0xa0 || code == 0x1680
        || (0x2000 <= code && code <= 0x200a) || code == 0x2028 || code == 0x2029 || code == 0x202f
        || code == 0x205f || code == 0x3000
}

/// Takes the white space around a text off it.
pub fn trim<'a>(s: &'a str) -> (inner: &'a str)
    ensures
        inner@ == trimmed(s@),
{
    let chars = characters(s);
    let mut start: usize = 0;
    let mut end: usize = chars.len();
    assert(s@.skip(0) =~= s@);
    while start < end && white_space(chars[start])
        invariant
            start <= end,
            end == s@.len(),
            chars@ == s@,
            trimmed_start(s@.skip(start as int)) == trimmed_start(s@),
        ensures
            start == end || !is_white_space(s@[start as int]),
        decreases end - start,
    {
        assert(s@.skip(start as int).skip(1) =~= s@.skip(start + 1));
        start = start + 1;
    }
    let ghost rest = s@.skip(start as int);
    assert(trimmed_start(s@) == rest);
    assert(s@.subrange(start as int, end as int) =~= rest);
    while start < end && white_space(chars[end - 1])
        invariant
            start <= end <= s@.len(),
            chars@ == s@,
            trimmed_end(s@.subrange(start as int, end as int)) == trimmed_end(rest),
        ensures
            start == end || !is_white_space(s@[end - 1]),
        decreases end - start,
    {
        assert(s@.subrange(start as int, end as int).drop_last() =~= s@.subrange(
            start as int,
            end - 1,
        ));
        end = end - 1;
    }
    s.substring_char(start, end)
}

/// Cuts a text at every occurrence of a separator.
pub fn split<'a>(s: &'a str, separator: char) -> (slices: Vec<&'a str>)
    ensures
        texts(slices@) == parts(s@, separator),
        slices@.len() == parts(s@, separator).len(),
        forall|i: int|
            0 <= i < slices@.len() ==> (#[trigger] slices@[i])@ == parts(s@, separator)[i],
{
    let chars = characters(s);
    let mut slices: Vec<&'a str> = Vec::new();
    let mut start: usize = 0;
    assert(s@.take(0) =~= Seq::empty());
    assert(s@.subrange(0, 0) =~= Seq::empty());
    assert(texts(slices@).push(s@.subrange(0, 0)) =~= seq![Seq::<char>::empty()]);
    for i in 0..chars.len()
        invariant
            chars@ == s@,
            start <= i <= s@.len(),
            parts(s@.take(i as int), separator) == texts(slices@).push(
                s@.subrange(start as int, i as int),
            ),
    {
        let ghost upto = s@.take(i + 1);
        let ghost before = texts(slices@);
        assert(upto.drop_last() =~= s@.take(i as int));
        assert(before.push(s@.subrange(start as int, i as int)).drop_last() =~= before);
        if chars[i] == separator {
            let slice = s.substring_char(start, i);
            slices.push(slice);
            start = i + 1;
            assert(texts(slices@) =~= before.push(slice@));
            assert(s@.subrange(i + 1, i + 1) =~= Seq::empty());
        } else {
            assert(s@.subrange(start as int, i as int).push(s@[i as int]) =~= s@.subrange(
                start as int,
                i + 1,
            ));
        }
    }
    assert(s@.take(s@.len() as int) =~= s@);
    let ghost before = texts(slices@);
    let slice = s.substring_char(start, chars.len());
    slices.push(slice);
    assert(texts(slices@) =~= before.push(slice@));
    assert forall|i: int| 0 <= i < slices@.len() implies (#[trigger] slices@[i])@ == parts(
        s@,
        separator,
    )[i] by {
        assert(texts(slices@)[i] == slices@[i]@);
    }
    slices
}

/// What a character counts as a digit.
fn digit(c: char, radix: u32) -> (value: Option<u32>)
    requires
        radix <= 36,
    ensures
        value matches Some(v) ==> digit_value(c, radix as nat) == Some(v as nat) && v < radix,
        value is None ==> digit_value(c, radix as nat) is None,
{
    let code: u32 = c as u32;
    let value: u32 = if '0' <= c && c <= '9' {
        code - '0' as u32
    } else if 'a' <= c && c <= 'z' {
        code - 'a' as u32 + 10
    } else if 'A' <= c && c <= 'Z' {
        code - 'A' as u32 + 10
    } else {
        36
    };
    if value < radix {
        Some(value)
    } else {
        None
    }
}

/// A run of digits stands for no less than any of its beginnings.
proof fn digits_value_grows(s: Seq<char>, radix: nat, upto: int)
    requires
        0 <= upto <= s.len(),
        digits_value(s, radix) is Some,
        0 < radix,
    ensures
        digits_value(s.take(upto), radix) is Some,
        digits_value(s.take(upto), radix)->0 <= digits_value(s, radix)->0,
    decreases s.len(),
{
    if upto == s.len() {
        assert(s.take(upto) =~= s);
    } else {
        digits_value_grows(s.drop_last(), radix, upto);
        assert(s.drop_last().take(upto) =~= s.take(upto));
        let high = digits_value(s.drop_last(), radix)->0;
        assert(high <= high * radix) by (nonlinear_arith)
            requires
                0 < radix,
        ;
    }
}

/// Reads a number: digits behind an optional plus sign, at most `max`.
pub fn parse_number(s: &str, radix: u32, max: u64) -> (value: Option<u64>)
    requires
        0 < radix <= 36,
    ensures
        value matches Some(v) ==> number(s@, radix as nat, max as nat) == Some(v as nat),
        value is None ==> number(s@, radix as nat, max as nat) is None,
{
    let chars = characters(s);
    let start: usize = if chars.len() > 0 && chars[0] == '+' {
        1
    } else {
        0
    };
    let ghost digits = s@.skip(start as int);
    assert(s@.skip(0) =~= s@);
    if start == chars.len() {
        return None;
    }
    let mut value: u64 = 0;
    assert(digits.take(0) =~= Seq::empty());
    for i in start..chars.len()
        invariant
            chars@ == s@,
            0 < radix <= 36,
            start <= 1,
            start < chars.len(),
            digits == s@.skip(start as int),
            digits == (if s@.len() > 0 && s@[0] == '+' {
                s@.skip(1)
            } else {
                s@
            }),
            value <= max,
            digits_value(digits.take(i - start), radix as nat) == Some(value as nat),
    {
        let ghost upto = digits.take(i + 1 - start);
        assert(upto.drop_last() =~= digits.take(i - start));
        assert(upto.last() == s@[i as int]);
        proof {
            if digits_value(digits, radix as nat) is Some {
                digits_value_grows(digits, radix as nat, i + 1 - start);
            }
            let (v, r) = (value as int, radix as int);
            assert(0 <= v * r <= u64::MAX * 36) by (nonlinear_arith)
                requires
                    0 <= v <= u64::MAX,
                    0 <= r <= 36,
            ;
        }
        match digit(chars[i], radix) {
            Some(low) => {
                let next: u128 = value as u128 * radix as u128 + low as u128;
                if next > max as u128 {
                    return None;
                }
                value = next as u64;
            },
            None => {
                return None;
            },
        }
    }
    assert(digits.take(digits.len() as int) =~= digits);
    Some(value)
}

/// A text without the separator is its only part.
proof fn one_part(s: Seq<char>, separator: char)
    requires
        !s.contains(separator),
    ensures
        parts(s, separator) == seq![s],
    decreases s.len(),
{
    if s.len() == 0 {
        assert(s =~= Seq::empty());
    } else {
        assert(s[s.len() - 1] == s.last());
        assert forall|c: char| s.drop_last().contains(c) implies s.contains(c) by {
            let i = s.drop_last().index_of(c);
            assert(s[i] == c);
        }
        one_part(s.drop_last(), separator);
        assert(s.drop_last().push(s.last()) =~= s);
        assert(seq![s.drop_last()].drop_last().push(s) =~= seq![s]);
    }
}

/// What follows the last separator is the last part.
proof fn one_more_part(head: Seq<char>, separator: char, tail: Seq<char>)
    requires
        !tail.contains(separator),
    ensures
        parts(head.push(separator) + tail, separator) == parts(head, separator).push(tail),
    decreases tail.len(),
{
    let all = head.push(separator) + tail;
    if tail.len() == 0 {
        assert(all.drop_last() =~= head);
        assert(tail =~= Seq::empty());
    } else {
        assert(tail[tail.len() - 1] == tail.last());
        assert forall|c: char| tail.drop_last().contains(c) implies tail.contains(c) by {
            let i = tail.drop_last().index_of(c);
            assert(tail[i] == c);
        }
        one_more_part(head, separator, tail.drop_last());
        assert(all.drop_last() =~= head.push(separator) + tail.drop_last());
        assert(parts(head, separator).push(tail.drop_last()).drop_last() =~= parts(
            head,
            separator,
        ));
        assert(tail.drop_last().push(tail.last()) =~= tail);
    }
}

/// Texts that do not hold the separator, joined by it, are split into themselves.
pub proof fn split_undoes_join(pieces: Seq<Seq<char>>, separator: char)
    requires
        pieces.len() > 0,
        forall|i: int| 0 <= i < pieces.len() ==> !(#[trigger] pieces[i]).contains(separator),
    ensures
        parts(joined(pieces, separator), separator) == pieces,
    decreases pieces.len(),
{
    if pieces.len() == 1 {
        one_part(pieces[0], separator);
        assert(seq![pieces[0]] =~= pieces);
    } else {
        let before = pieces.drop_last();
        assert forall|i: int| 0 <= i < before.len() implies !(#[trigger] before[i]).contains(
            separator,
        ) by {
            assert(before[i] == pieces[i]);
        }
        split_undoes_join(before, separator);
        assert(pieces[pieces.len() - 1] == pieces.last());
        one_more_part(joined(before, separator), separator, pieces.last());
        assert(before.push(pieces.last()) =~= pieces);
    }
}

/// The parts of a text joined by the separator are the text, and none of them holds the
/// separator.
pub proof fn join_undoes_split(s: Seq<char>, separator: char)
    ensures
        joined(parts(s, separator), separator) == s,
        parts(s, separator).len() > 0,
        forall|i: int|
            0 <= i < parts(s, separator).len() ==> !(#[trigger] parts(s, separator)[i]).contains(
                separator,
            ),
    decreases s.len(),
{
    let all = parts(s, separator);
    if s.len() == 0 {
        assert(s =~= Seq::empty());
    } else {
        join_undoes_split(s.drop_last(), separator);
        let before = parts(s.drop_last(), separator);
        assert(s.drop_last().push(s.last()) =~= s);
        if s.last() == separator {
            assert(all.drop_last() =~= before);
            assert(joined(all, separator) =~= s);
        } else {
            let last = before.last().push(s.last());
            assert(all.drop_last() =~= before.drop_last());
            assert(joined(all, separator) =~= s);
            assert(before[before.len() - 1] == before.last());
            assert(!last.contains(separator)) by {
                if last.contains(separator) {
                    let i = last.index_of(separator);
                    assert(before.last()[i] == separator);
                }
            }
        }
        assert forall|i: int| 0 <= i < all.len() implies !(#[trigger] all[i]).contains(
            separator,
        ) by {
            if i < all.len() - 1 {
                assert(all[i] == before[i]);
            }
        }
    }
}

/// A number written in digits is read back, and nothing but digits is written.
pub proof fn written_numbers_are_read_back(n: nat, radix: nat, max: nat)
    requires
        2 <= radix <= 36,
        n <= max,
    ensures
        number(written(n, radix), radix, max) == Some(n),
        forall|c: char| #[trigger]
            written(n, radix).contains(c) ==> digit_value(c, radix) is Some,
{
    digits_are_read_back(n, radix);
}

proof fn digits_are_read_back(n: nat, radix: nat)
    requires
        2 <= radix <= 36,
    ensures
        written(n, radix).len() > 0,
        written(n, radix)[0] != '+',
        digits_value(written(n, radix), radix) == Some(n),
        forall|c: char| #[trigger]
            written(n, radix).contains(c) ==> digit_value(c, radix) is Some,
    decreases n,
{
    let all = written(n, radix);
    if n < radix {
        assert(all.drop_last() =~= Seq::empty());
        assert(digits_value(all.drop_last(), radix) == Some(0nat));
        assert(0 * radix == 0);
    } else {
        lemma_div_decreases(n as int, radix as int);
        lemma_div_pos_is_pos(n as int, radix as int);
        lemma_mod_bound(n as int, radix as int);
        lemma_fundamental_div_mod(n as int, radix as int);
        digits_are_read_back(n / radix, radix);
        assert(all.drop_last() =~= written(n / radix, radix));
        assert((n / radix) * radix == radix * (n / radix)) by (nonlinear_arith);
        assert forall|c: char| #[trigger] all.contains(c) implies digit_value(c, radix) is Some by {
            let i = all.index_of(c);
            if i < all.len() - 1 {
                assert(written(n / radix, radix)[i] == c);
                assert(written(n / radix, radix).contains(c));
            } else {
                assert(c == digit_char(n % radix));
            }
        }
    }
}

proof fn digits_read_alike(s: Seq<char>, t: Seq<char>, radix: nat)
    requires
        s.len() == t.len(),
        forall|i: int| 0 <= i < s.len() ==> small(#[trigger] s[i]) == small(t[i]),
    ensures
        digits_value(s, radix) == digits_value(t, radix),
    decreases s.len(),
{
    if s.len() > 0 {
        assert forall|i: int| 0 <= i < s.drop_last().len() implies small(
            #[trigger] s.drop_last()[i],
        ) == small(t.drop_last()[i]) by {
            assert(s.drop_last()[i] == s[i]);
        }
        digits_read_alike(s.drop_last(), t.drop_last(), radix);
        assert(s[s.len() - 1] == s.last());
        assert(digit_value(s.last(), radix) == digit_value(t.last(), radix));
    }
}

/// Texts that differ in nothing but small and capital letters are read as the same
/// number.
pub proof fn letter_case_makes_no_difference(s: Seq<char>, t: Seq<char>, radix: nat, max: nat)
    requires
        s.len() == t.len(),
        forall|i: int| 0 <= i < s.len() ==> small(#[trigger] s[i]) == small(t[i]),
    ensures
        number(s, radix, max) == number(t, radix, max),
{
    digits_read_alike(s, t, radix);
    if s.len() > 0 {
        assert(small(s[0]) == small(t[0]));
        assert forall|i: int| 0 <= i < s.skip(1).len() implies small(#[trigger] s.skip(1)[i])
            == small(t.skip(1)[i]) by {
            assert(s.skip(1)[i] == s[i + 1]);
        }
        digits_read_alike(s.skip(1), t.skip(1), radix);
    }
}

/// Text that neither starts nor ends with white space is not trimmed.
pub proof fn trim_keeps_dense_text(s: Seq<char>)
    requires
        s.len() > 0 ==> !is_white_space(s[0]) && !is_white_space(s.last()),
    ensures
        trimmed(s) == s,
{
}

/// Neither end of a trimmed text is white space.
pub proof fn trim_leaves_dense_text(s: Seq<char>)
    ensures
        trimmed(s).len() > 0 ==> !is_white_space(trimmed(s)[0]) && !is_white_space(
            trimmed(s).last(),
        ),
{
    trimmed_start_is_dense(s);
    trimmed_end_is_dense(trimmed_start(s));
}

proof fn trimmed_start_is_dense(s: Seq<char>)
    ensures
        trimmed_start(s).len() > 0 ==> !is_white_space(trimmed_start(s)[0]),
    decreases s.len(),
{
    if s.len() > 0 && is_white_space(s[0]) {
        trimmed_start_is_dense(s.skip(1));
    }
}

proof fn trimmed_end_is_dense(s: Seq<char>)
    ensures
        trimmed_end(s).len() > 0 ==> !is_white_space(trimmed_end(s).last()) && trimmed_end(s)[0]
            == s[0],
    decreases s.len(),
{
    if s.len() > 0 && is_white_space(s.last()) {
        trimmed_end_is_dense(s.drop_last());
    }
}

/// A decimal digit counts as itself, and the letters, small or capital, count on from 10.
/// A character is no digit of a radix that does not exceed what it counts as.
pub proof fn digits_count_from_zero(c: char, radix: nat, value: nat)
    ensures
        digit_value(c, radix) == Some(value) <==> value < radix && {
            ||| value < 10 && c as int == 0x30 + value
            ||| 10 <= value < 36 && c as int == 0x41 + value - 10
            ||| 10 <= value < 36 && c as int == 0x61 + value - 10
        },
{
}

proof fn digits_add_up_by_place(s: Seq<char>, digits: Seq<nat>, radix: nat)
    requires
        s.len() == digits.len(),
        forall|i: int|
            0 <= i < digits.len() ==> digit_value(#[trigger] s[i], radix) == Some(digits[i]),
    ensures
        digits_value(s, radix) == Some(
            digits.fold_left(0nat, |sum: nat, digit: nat| sum * radix + digit),
        ),
    decreases s.len(),
{
    if s.len() > 0 {
        assert forall|i: int| 0 <= i < digits.drop_last().len() implies digit_value(
            #[trigger] s.drop_last()[i],
            radix,
        ) == Some(digits.drop_last()[i]) by {
            assert(s.drop_last()[i] == s[i]);
        }
        digits_add_up_by_place(s.drop_last(), digits.drop_last(), radix);
        assert(s[s.len() - 1] == s.last());
    }
}

/// Digits, with or without a plus sign before them, are read as the number they stand for
/// by their places, if that is at most `max`, and as no number else.
pub proof fn numbers_are_read_by_place(
    s: Seq<char>,
    digits: Seq<nat>,
    radix: nat,
    max: nat,
    value: nat,
)
    requires
        s.len() == digits.len() > 0,
        forall|i: int|
            0 <= i < digits.len() ==> digit_value(#[trigger] s[i], radix) == Some(digits[i]),
        value == digits.fold_left(0nat, |sum: nat, digit: nat| sum * radix + digit),
    ensures
        value <= max ==> number(s, radix, max) == Some(value),
        value <= max ==> number(seq!['+'] + s, radix, max) == Some(value),
        value > max ==> number(s, radix, max) is None,
        value > max ==> number(seq!['+'] + s, radix, max) is None,
{
    digits_add_up_by_place(s, digits, radix);
    assert(digit_value(s[0], radix) is Some);
    assert((seq!['+'] + s).skip(1) =~= s);
}

proof fn digits_are_needed(s: Seq<char>, radix: nat, at: int)
    requires
        0 <= at < s.len(),
        digit_value(s[at], radix) is None,
    ensures
        digits_value(s, radix) is None,
    decreases s.len(),
{
    if at < s.len() - 1 {
        digits_are_needed(s.drop_last(), radix, at);
    }
}

/// A text is no number if it is empty, if it is but a plus sign, or if it holds anything
/// but digits behind the plus sign it may start with.
pub proof fn nothing_but_digits_is_a_number(s: Seq<char>, radix: nat, max: nat, at: int)
    ensures
        s.len() == 0 ==> number(s, radix, max) is None,
        s == seq!['+'] ==> number(s, radix, max) is None,
        0 <= at < s.len() && digit_value(s[at], radix) is None && (at > 0 || s[0] != '+')
            ==> number(s, radix, max) is None,
{
    if 0 <= at < s.len() && digit_value(s[at], radix) is None && (at > 0 || s[0] != '+') {
        if s[0] == '+' {
            digits_are_needed(s.skip(1), radix, at - 1);
        } else {
            digits_are_needed(s, radix, at);
        }
    }
}

/// Numbers are written in the digits of their places: each below ten as the decimal digit,
/// each above as the small letter that counts on from there.
pub proof fn numbers_are_written_by_place(high: nat, low: nat, radix: nat)
    requires
        2 <= radix <= 36,
        low < radix,
    ensures
        written(low, radix).len() == 1,
        low < 10 ==> written(low, radix)[0] as int == 0x30 + low,
        low >= 10 ==> written(low, radix)[0] as int == 0x61 + low - 10,
        high > 0 ==> written(high * radix + low, radix) == written(high, radix) + written(
            low,
            radix,
        ),
{
    if high > 0 {
        let n = high * radix + low;
        lemma_fundamental_div_mod_converse(n as int, radix as int, high as int, low as int);
        assert(high * radix >= radix) by (nonlinear_arith)
            requires
                high > 0,
        ;
        assert(written(high, radix).push(digit_char(low)) =~= written(high, radix) + written(
            low,
            radix,
        ));
    }
}

/// Texts are joined by one separator between each and the next, and by none around them.
pub proof fn joins_separate_neighbours(pieces: Seq<Seq<char>>, piece: Seq<char>, separator: char)
    ensures
        joined(Seq::empty(), separator) == Seq::<char>::empty(),
        joined(seq![piece], separator) == piece,
        pieces.len() > 0 ==> joined(pieces.push(piece), separator) == joined(pieces, separator)
            + seq![separator] + piece,
{
    assert(pieces.push(piece).drop_last() =~= pieces);
    assert(joined(pieces, separator).push(separator) + piece =~= joined(pieces, separator)
        + seq![separator] + piece);
}

/// White space is what Unicode lists as such.
pub proof fn white_space_is_listed(c: char)
    ensures
        is_white_space(c) <==> seq![
            0x9u32,
            0xa,
            0xb,
            0xc,
            0xd,
            0x20,
            0x85,
            0xa0,
            0x1680,
            0x2000,
            0x2001,
            0x2002,
            0x2003,
            0x2004,
            0x2005,
            0x2006,
            0x2007,
            0x2008,
            0x2009,
            0x200a,
            0x2028,
            0x2029,
            0x202f,
            0x205f,
            0x3000,
        ].contains(c as u32),
{
    let listed = seq![
        0x9u32,
        0xa,
        0xb,
        0xc,
        0xd,
        0x20,
        0x85,
        0xa0,
        0x1680,
        0x2000,
        0x2001,
        0x2002,
        0x2003,
        0x2004,
        0x2005,
        0x2006,
        0x2007,
        0x2008,
        0x2009,
        0x200a,
        0x2028,
        0x2029,
        0x202f,
        0x205f,
        0x3000,
    ];
    let code = c as u32;
    if is_white_space(c) {
        let at: int = if code <= 0xd {
            code - 0x9
        } else if code == 0x20 {
            5
        } else if code == 0x85 {
            6
        } else if code == 0xa0 {
            7
        } else if code == 0x1680 {
            8
        } else if code <= 0x200a {
            code - 0x2000 + 9
        } else if code == 0x2028 {
            20
        } else if code == 0x2029 {
            21
        } else if code == 0x202f {
            22
        } else if code == 0x205f {
            23
        } else {
            24
        };
        assert(listed[at] == code);
    }
}

proof fn leading_space_goes(lead: Seq<char>, rest: Seq<char>)
    requires
        forall|i: int| 0 <= i < lead.len() ==> is_white_space(#[trigger] lead[i]),
    ensures
        trimmed_start(lead + rest) == trimmed_start(rest),
    decreases lead.len(),
{
    if lead.len() == 0 {
        assert(lead + rest =~= rest);
    } else {
        assert(is_white_space(lead[0]));
        assert((lead + rest).skip(1) =~= lead.skip(1) + rest);
        leading_space_goes(lead.skip(1), rest);
    }
}

proof fn trailing_space_goes(rest: Seq<char>, tail: Seq<char>)
    requires
        forall|i: int| 0 <= i < tail.len() ==> is_white_space(#[trigger] tail[i]),
    ensures
        trimmed_end(rest + tail) == trimmed_end(rest),
    decreases tail.len(),
{
    if tail.len() == 0 {
        assert(rest + tail =~= rest);
    } else {
        assert(is_white_space(tail[tail.len() - 1]));
        assert((rest + tail).drop_last() =~= rest + tail.drop_last());
        trailing_space_goes(rest, tail.drop_last());
    }
}

/// Trimming takes off all the white space before and behind a text that neither starts
/// nor ends with any, and nothing of that text.
pub proof fn trim_takes_off_surrounding_space(lead: Seq<char>, core: Seq<char>, tail: Seq<char>)
    requires
        forall|i: int| 0 <= i < lead.len() ==> is_white_space(#[trigger] lead[i]),
        forall|i: int| 0 <= i < tail.len() ==> is_white_space(#[trigger] tail[i]),
        core.len() > 0 ==> !is_white_space(core[0]) && !is_white_space(core.last()),
    ensures
        trimmed(lead + core + tail) == core,
{
    assert(lead + core + tail =~= lead + (core + tail));
    leading_space_goes(lead, core + tail);
    if core.len() == 0 {
        assert(core + tail =~= tail + core);
        leading_space_goes(tail, core);
    } else {
        trailing_space_goes(core, tail);
    }
}

} // verus!

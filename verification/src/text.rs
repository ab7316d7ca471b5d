//! Small helpers on text: characters, positions, letter case and decimal
//! numbers.

use vstd::prelude::*;

verus! {

/// The position of the first `mark` in `text`, or the length of `text`
/// where it holds none.
pub open spec fn first_index(text: Seq<char>, mark: char) -> int
    decreases text.len(),
{
    if text.len() == 0 {
        0
    } else if text[0] == mark {
        0
    } else {
        1 + first_index(text.drop_first(), mark)
    }
}

/// `first_index` is the least position that holds `mark`.
pub proof fn lemma_first_index(text: Seq<char>, mark: char)
    ensures
        0 <= first_index(text, mark) <= text.len(),
        forall|i: int| 0 <= i < first_index(text, mark) ==> text[i] != mark,
        first_index(text, mark) < text.len() ==> text[first_index(text, mark)] == mark,
        first_index(text, mark) < text.len() <==> text.contains(mark),
    decreases text.len(),
{
    if text.len() > 0 && text[0] != mark {
        let rest = text.drop_first();
        lemma_first_index(rest, mark);
        assert forall|i: int| 0 <= i < first_index(text, mark) implies text[i] != mark by {
            if i > 0 {
                assert(text[i] == rest[i - 1]);
            }
        }
        if first_index(text, mark) < text.len() {
            assert(text[first_index(text, mark)] == rest[first_index(rest, mark)]);
        }
    }
    if first_index(text, mark) < text.len() {
        assert(text[first_index(text, mark)] == mark);
    } else {
        assert(!text.contains(mark));
    }
}

/// A position that holds `mark` with none before it is the first.
pub proof fn lemma_first_index_is(text: Seq<char>, mark: char, at: int)
    requires
        0 <= at <= text.len(),
        forall|i: int| 0 <= i < at ==> text[i] != mark,
        at < text.len() ==> text[at] == mark,
    ensures
        first_index(text, mark) == at,
{
    lemma_first_index(text, mark);
}

/// The lower-case form of an ASCII capital; every other character is kept.
pub open spec fn ascii_lower(c: char) -> char {
    if 'A' <= c && c <= 'Z' {
        ((c as u8) + 32) as char
    } else {
        c
    }
}

/// `text` with its ASCII capitals in lower case.
pub open spec fn lowered(text: Seq<char>) -> Seq<char> {
    Seq::new(text.len(), |i: int| ascii_lower(text[i]))
}

/// Whether `c` is a decimal digit.
pub open spec fn is_digit(c: char) -> bool {
    '0' <= c && c <= '9'
}

/// The number that a run of decimal digits stands for.
pub open spec fn decimal_value(digits: Seq<char>) -> nat
    decreases digits.len(),
{
    if digits.len() == 0 {
        0
    } else {
        (decimal_value(digits.drop_last()) * 10 + (digits.last() as u8 - '0' as u8)) as nat
    }
}

/// The digits of a number's text: the text without a leading `+`.
pub open spec fn number_digits(text: Seq<char>) -> Seq<char> {
    if text.len() > 0 && text[0] == '+' {
        text.drop_first()
    } else {
        text
    }
}

/// The number that `text` stands for: an optional `+`, then one or more
/// decimal digits, with a value of at most `limit`. Anything else is no
/// number.
pub open spec fn parse_number(text: Seq<char>, limit: nat) -> Option<nat> {
    let digits = number_digits(text);
    if digits.len() > 0 && (forall|i: int| 0 <= i < digits.len() ==> is_digit(#[trigger] digits[i]))
        && decimal_value(digits) <= limit {
        Some(decimal_value(digits))
    } else {
        None
    }
}

/// A run of digits is worth no less than any of its prefixes.
pub proof fn lemma_decimal_value_grows(digits: Seq<char>, n: int)
    requires
        0 <= n <= digits.len(),
        forall|i: int| 0 <= i < digits.len() ==> is_digit(#[trigger] digits[i]),
    ensures
        decimal_value(digits.take(n)) <= decimal_value(digits),
    decreases digits.len() - n,
{
    if n == digits.len() {
        assert(digits.take(n) =~= digits);
    } else {
        lemma_decimal_value_grows(digits, n + 1);
        let longer = digits.take(n + 1);
        assert(longer.drop_last() =~= digits.take(n));
        assert(is_digit(digits[n]));
        assert(longer.last() == digits[n]);
    }
}

/// The characters of `text`, one by one.
pub fn chars_of(text: &str) -> (chars: Vec<char>)
    ensures
        chars@ == text@,
{
    let mut chars: Vec<char> = Vec::new();
    for c in it: text.chars()
        invariant
            chars@ == it.seq().take(it.index() as int),
            it.seq() == text@,
    {
        chars.push(c);
    }
    chars
}

/// The position of the first `mark` at or after `start`, or the length of
/// `chars` where none follows.
pub fn find_from(chars: &Vec<char>, start: usize, mark: char) -> (end: usize)
    requires
        start <= chars@.len(),
    ensures
        start <= end <= chars@.len(),
        end == start + first_index(chars@.skip(start as int), mark),
{
    let mut end: usize = start;
    while end < chars.len() && chars[end] != mark
        invariant
            start <= end <= chars@.len(),
            forall|i: int| start <= i < end ==> chars@[i] != mark,
        decreases chars@.len() - end,
    {
        end += 1;
    }
    proof {
        lemma_first_index_is(chars@.skip(start as int), mark, end - start);
    }
    end
}

/// The lower-case form of an ASCII capital; every other character is kept.
pub fn to_ascii_lower(c: char) -> (lower: char)
    ensures
        lower == ascii_lower(c),
{
    if 'A' <= c && c <= 'Z' {
        ((c as u8) + 32) as char
    } else {
        c
    }
}

/// Whether `chars`, with its ASCII capitals in lower case, reads `name`.
pub fn reads_as(chars: &Vec<char>, name: &str) -> (same: bool)
    ensures
        same == (lowered(chars@) == name@),
{
    let wanted = chars_of(name);
    if wanted.len() != chars.len() {
        return false;
    }
    let mut i: usize = 0;
    while i < chars.len()
        invariant
            i <= chars@.len(),
            wanted@ == name@,
            wanted@.len() == chars@.len(),
            forall|j: int| 0 <= j < i ==> ascii_lower(chars@[j]) == wanted@[j],
        decreases chars@.len() - i,
    {
        if to_ascii_lower(chars[i]) != wanted[i] {
            assert(lowered(chars@)[i as int] != name@[i as int]);
            return false;
        }
        i += 1;
    }
    assert(lowered(chars@) =~= name@);
    true
}

/// Reads a decimal number of at most `limit`.
pub fn parse_decimal(chars: &Vec<char>, limit: u64) -> (number: Option<u64>)
    ensures
        number matches Some(n) ==> parse_number(chars@, limit as nat) == Some(n as nat),
        number is None ==> parse_number(chars@, limit as nat) is None,
{
    let ghost digits = number_digits(chars@);
    let first: usize = if chars.len() > 0 && chars[0] == '+' { 1 } else { 0 };
    if first == chars.len() {
        return None;
    }
    let mut value: u64 = 0;
    let mut i: usize = first;
    while i < chars.len()
        invariant
            first <= i <= chars@.len(),
            first <= 1,
            digits == number_digits(chars@),
            digits =~= chars@.skip(first as int),
            forall|j: int| 0 <= j < i - first ==> is_digit(#[trigger] digits[j]),
            value == decimal_value(digits.take(i - first)),
            value <= limit,
        decreases chars@.len() - i,
    {
        let c = chars[i];
        assert(c == digits[i - first]);
        if !('0' <= c && c <= '9') {
            return None;
        }
        let d: u64 = ((c as u8) - ('0' as u8)) as u64;
        proof {
            let longer = digits.take(i - first + 1);
            assert(longer.drop_last() =~= digits.take(i - first));
            assert(longer.last() == c);
            assert(decimal_value(longer) == value * 10 + d);
        }
        if d > limit || value > (limit - d) / 10 {
            proof {
                assert(value * 10 + d > limit);
                if forall|j: int| 0 <= j < digits.len() ==> is_digit(#[trigger] digits[j]) {
                    lemma_decimal_value_grows(digits, i - first + 1);
                }
            }
            return None;
        }
        value = value * 10 + d;
        i += 1;
    }
    assert(digits.take(i - first) =~= digits);
    Some(value)
}

} // verus!

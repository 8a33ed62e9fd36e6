//! Exact text operations: comparison, stripping, splitting and decimal
//! rendering, each stated over the sequence of characters a string holds.

use vstd::prelude::*;
use vstd::string::StrSliceExecFns;
use vstd::utf8::*;

verus! {

/// What [`String::push`] does: the character becomes the last one of the
/// text, everything before it is kept.
pub assume_specification[ std::string::String::push ](text: &mut std::string::String, ch: char)
    ensures
        final(text)@ == old(text)@.push(ch),
;

/// Whether `text` ends in `suffix`.
pub open spec fn ends_with(text: Seq<char>, suffix: Seq<char>) -> bool {
    suffix.len() <= text.len() && text.skip(text.len() - suffix.len()) == suffix
}

/// Whether `text` begins with `prefix`.
pub open spec fn starts_with(text: Seq<char>, prefix: Seq<char>) -> bool {
    prefix.len() <= text.len() && text.take(prefix.len() as int) == prefix
}

/// What stands in `text` before `suffix`, where `text` ends in it.
pub open spec fn before_suffix(text: Seq<char>, suffix: Seq<char>) -> Option<Seq<char>> {
    if ends_with(text, suffix) {
        Some(text.take(text.len() - suffix.len()))
    } else {
        None
    }
}

/// What stands in `text` after `prefix`, where `text` begins with it.
pub open spec fn after_prefix(text: Seq<char>, prefix: Seq<char>) -> Option<Seq<char>> {
    if starts_with(text, prefix) {
        Some(text.skip(prefix.len() as int))
    } else {
        None
    }
}

/// The two sides of the first `separator` in `text`, where it occurs.
pub open spec fn split_at_first(text: Seq<char>, separator: char) -> Option<(
    Seq<char>,
    Seq<char>,
)> {
    if text.contains(separator) {
        let at = text.index_of_first(separator).unwrap();
        Some((text.take(at), text.skip(at + 1)))
    } else {
        None
    }
}

/// Whether `part` occurs in `text` without a gap.
pub open spec fn contains_text(text: Seq<char>, part: Seq<char>) -> bool {
    exists|at: int|
        0 <= at && at + part.len() <= text.len() && #[trigger] text.subrange(at, at + part.len())
            == part
}

/// Compares two texts character for character.
pub fn same_text(left: &str, right: &str) -> (same: bool)
    ensures
        same == (left@ == right@),
{
    let a: &[u8] = left.as_bytes();
    let b: &[u8] = right.as_bytes();
    proof {
        encode_utf8_decode_utf8(left@);
        encode_utf8_decode_utf8(right@);
    }
    if a.len() != b.len() {
        return false;
    }
    let mut i: usize = 0;
    while i < a.len()
        invariant
            a@.len() == b@.len(),
            i <= a@.len(),
            a@ == encode_utf8(left@),
            b@ == encode_utf8(right@),
            forall|j: int| 0 <= j < i ==> a@[j] == b@[j],
        decreases a@.len() - i,
    {
        if a[i] != b[i] {
            return false;
        }
        i += 1;
    }
    assert(a@ =~= b@);
    true
}

/// The characters of a text, in order.
pub fn characters(text: &str) -> (chars: Vec<char>)
    ensures
        chars@ == text@,
{
    let mut chars: Vec<char> = Vec::new();
    for ch in it: text.chars()
        invariant
            it.seq() == text@,
            chars@ == text@.take(it.index() as int),
    {
        proof {
            assert(text@.take(it.index() as int + 1) =~= text@.take(it.index() as int).push(
                text@[it.index() as int],
            ));
        }
        chars.push(ch);
    }
    assert(text@.take(text@.len() as int) =~= text@);
    chars
}

/// `text` without `suffix` at its end, where it has it.
pub fn strip_suffix<'a>(text: &'a str, suffix: &str) -> (stripped: Option<&'a str>)
    ensures
        stripped is Some <==> before_suffix(text@, suffix@) is Some,
        stripped matches Some(rest) ==> Some(rest@) == before_suffix(text@, suffix@),
{
    let length: usize = text.unicode_len();
    let cut: usize = suffix.unicode_len();
    if cut > length {
        return None;
    }
    assert(text@.subrange(length - cut, length as int) =~= text@.skip(length - cut));
    assert(text@.subrange(0, length - cut) =~= text@.take(length - cut));
    if same_text(text.substring_char(length - cut, length), suffix) {
        Some(text.substring_char(0, length - cut))
    } else {
        None
    }
}

/// `text` without `prefix` at its start, where it has it.
pub fn strip_prefix<'a>(text: &'a str, prefix: &str) -> (stripped: Option<&'a str>)
    ensures
        stripped is Some <==> after_prefix(text@, prefix@) is Some,
        stripped matches Some(rest) ==> Some(rest@) == after_prefix(text@, prefix@),
{
    let length: usize = text.unicode_len();
    let cut: usize = prefix.unicode_len();
    if cut > length {
        return None;
    }
    assert(text@.subrange(0, cut as int) =~= text@.take(cut as int));
    assert(text@.subrange(cut as int, length as int) =~= text@.skip(cut as int));
    if same_text(text.substring_char(0, cut), prefix) {
        Some(text.substring_char(cut, length))
    } else {
        None
    }
}

/// The two sides of the first `separator` in `text`, where it occurs.
pub fn split_once<'a>(text: &'a str, separator: char) -> (sides: Option<(&'a str, &'a str)>)
    ensures
        sides is Some <==> split_at_first(text@, separator) is Some,
        sides matches Some((left, right)) ==> Some((left@, right@)) == split_at_first(
            text@,
            separator,
        ),
{
    let chars: Vec<char> = characters(text);
    let mut at: usize = 0;
    while at < chars.len()
        invariant
            chars@ == text@,
            at <= chars@.len(),
            forall|j: int| 0 <= j < at ==> chars@[j] != separator,
        decreases chars@.len() - at,
    {
        if chars[at] == separator {
            proof {
                assert(text@[at as int] == separator);
                text@.index_of_first_ensures(separator);
                assert(text@.subrange(0, at as int) =~= text@.take(at as int));
                assert(text@.subrange(at + 1, text@.len() as int) =~= text@.skip(at + 1));
            }
            return Some((text.substring_char(0, at), text.substring_char(at + 1, chars.len())));
        }
        at += 1;
    }
    None
}

/// Whether `part` occurs in `text`.
pub fn contains(text: &str, part: &str) -> (found: bool)
    ensures
        found == contains_text(text@, part@),
{
    let length: usize = text.unicode_len();
    let width: usize = part.unicode_len();
    if width > length {
        return false;
    }
    let mut at: usize = 0;
    while at <= length - width
        invariant
            length == text@.len(),
            width == part@.len(),
            width <= length,
            at <= length - width + 1,
            forall|j: int| 0 <= j < at ==> #[trigger] text@.subrange(j, j + width) != part@,
        decreases length - width + 1 - at,
    {
        if same_text(text.substring_char(at, at + width), part) {
            return true;
        }
        if at == length - width {
            return false;
        }
        at += 1;
    }
    false
}

/// The decimal digit of a number below ten.
pub open spec fn digit_char(digit: nat) -> char {
    if digit == 0 {
        '0'
    } else if digit == 1 {
        '1'
    } else if digit == 2 {
        '2'
    } else if digit == 3 {
        '3'
    } else if digit == 4 {
        '4'
    } else if digit == 5 {
        '5'
    } else if digit == 6 {
        '6'
    } else if digit == 7 {
        '7'
    } else if digit == 8 {
        '8'
    } else {
        '9'
    }
}

/// A number in decimal, without leading zeros.
pub open spec fn decimal_text(number: nat) -> Seq<char>
    decreases number,
{
    if number < 10 {
        seq![digit_char(number)]
    } else {
        decimal_text(number / 10).push(digit_char(number % 10))
    }
}

/// Whether every character is one of `0` to `9`.
pub open spec fn all_digits(text: Seq<char>) -> bool {
    forall|i: int| 0 <= i < text.len() ==> '0' <= #[trigger] text[i] <= '9'
}

/// The number that a run of decimal digits denotes.
pub open spec fn digits_value(text: Seq<char>) -> nat
    decreases text.len(),
{
    if text.len() == 0 {
        0
    } else {
        digits_value(text.drop_last()) * 10 + (text.last() as u32 - '0' as u32) as nat
    }
}

/// The digits of a numeral: what follows an optional leading `+`.
pub open spec fn numeral_digits(text: Seq<char>) -> Seq<char> {
    if text.len() > 0 && text[0] == '+' {
        text.skip(1)
    } else {
        text
    }
}

/// Whether `text` is a decimal numeral of a number that fits in a `u64`: an
/// optional `+`, then at least one digit and nothing else. Leading zeros do not
/// count against the limit.
pub open spec fn denotes_u64(text: Seq<char>) -> bool {
    let digits = numeral_digits(text);
    digits.len() > 0 && all_digits(digits) && digits_value(digits) <= u64::MAX
}

/// Whether `text` is a decimal numeral of a number that fits in a `u64`.
pub fn is_u64_numeral(text: &str) -> (fits: bool)
    ensures
        fits == denotes_u64(text@),
{
    let chars: Vec<char> = characters(text);
    let start: usize = if chars.len() > 0 && chars[0] == '+' {
        1
    } else {
        0
    };
    let ghost digits = numeral_digits(text@);
    proof {
        assert(digits =~= chars@.skip(start as int));
    }
    if start == chars.len() {
        return false;
    }
    let mut value: u64 = 0;
    let mut overflowed: bool = false;
    let mut at: usize = start;
    while at < chars.len()
        invariant
            start <= at <= chars@.len(),
            start < chars@.len(),
            digits == chars@.skip(start as int),
            digits == numeral_digits(text@),
            all_digits(digits.take(at - start)),
            !overflowed ==> value == digits_value(digits.take(at - start)),
            overflowed ==> digits_value(digits.take(at - start)) > u64::MAX,
        decreases chars@.len() - at,
    {
        let ch: char = chars[at];
        let ghost before = digits.take(at - start);
        let ghost after = digits.take(at + 1 - start);
        proof {
            assert(after.drop_last() =~= before);
            assert(after.last() == ch);
        }
        if ch < '0' || ch > '9' {
            assert(digits[at - start] == ch);
            return false;
        }
        let digit: u64 = ch as u64 - '0' as u64;
        assert(all_digits(after)) by {
            assert forall|i: int| 0 <= i < after.len() implies '0' <= #[trigger] after[i]
                <= '9' by {
                if i < before.len() {
                    assert(after[i] == before[i]);
                }
            }
        }
        if !overflowed {
            if value > (u64::MAX - digit) / 10 {
                overflowed = true;
            } else {
                value = value * 10 + digit;
            }
        }
        at += 1;
    }
    assert(digits.take(at - start) =~= digits);
    !overflowed
}

/// Renders a number in decimal.
pub fn decimal(number: u64) -> (text: String)
    ensures
        text@ == decimal_text(number as nat),
    decreases number,
{
    let mut text: String = if number < 10 {
        String::new()
    } else {
        decimal(number / 10)
    };
    let digit: u64 = number % 10;
    let ch: char = match digit {
        0 => '0',
        1 => '1',
        2 => '2',
        3 => '3',
        4 => '4',
        5 => '5',
        6 => '6',
        7 => '7',
        8 => '8',
        _ => '9',
    };
    text.push(ch);
    assert(number < 10 ==> text@ =~= decimal_text(number as nat));
    text
}

/// What stripping and splitting give, put together again, is the text, and nothing else is: what
/// is left before a suffix or after a prefix, and the sides of a separator that does not stand in
/// the left one.
pub proof fn parts_make_up_the_text(
    text: Seq<char>,
    front: Seq<char>,
    back: Seq<char>,
    separator: char,
)
    ensures
        before_suffix(text, back) == Some(front) <==> text == front + back,
        before_suffix(text, back) is None <==> !ends_with(text, back),
        after_prefix(text, front) == Some(back) <==> text == front + back,
        after_prefix(text, front) is None <==> !starts_with(text, front),
        split_at_first(text, separator) == Some((front, back)) <==> text == front + seq![separator]
            + back && !front.contains(separator),
        split_at_first(text, separator) is None <==> !text.contains(separator),
        text == front + back ==> ends_with(text, back) && starts_with(text, front),
{
    if text == front + back {
        assert(text.skip(text.len() - back.len()) =~= back);
        assert(text.take(front.len() as int) =~= front);
        assert(text.skip(front.len() as int) =~= back);
        assert(text.take(text.len() - back.len()) =~= front);
    }
    if before_suffix(text, back) == Some(front) {
        assert(text =~= front + back);
    }
    if after_prefix(text, front) == Some(back) {
        assert(text =~= front + back);
    }
    if text.contains(separator) {
        text.index_of_first_ensures(separator);
        let at = text.index_of_first(separator).unwrap();
        assert(text =~= text.take(at) + seq![separator] + text.skip(at + 1));
        assert forall|i: int| 0 <= i < at implies text.take(at)[i] != separator by {}
    }
    if text == front + seq![separator] + back && !front.contains(separator) {
        assert(text[front.len() as int] == separator);
        text.index_of_first_ensures(separator);
        let at = text.index_of_first(separator).unwrap();
        if at < front.len() {
            assert(front[at] == separator);
        }
        assert(at == front.len());
        assert(text.take(at) =~= front);
        assert(text.skip(at + 1) =~= back);
    }
}

/// A text contains what stands between any two parts of it.
pub proof fn parts_are_contained(
    text: Seq<char>,
    front: Seq<char>,
    part: Seq<char>,
    back: Seq<char>,
)
    ensures
        text == front + part + back ==> contains_text(text, part),
        contains_text(text, part) ==> exists|at: int|
            0 <= at <= text.len() - part.len() && text == #[trigger] text.take(at) + part
                + text.skip(at + part.len()),
{
    if text == front + part + back {
        let at = front.len() as int;
        assert(text.subrange(at, at + part.len()) =~= part);
    }
    if contains_text(text, part) {
        let at = choose|at: int|
            0 <= at && at + part.len() <= text.len() && #[trigger] text.subrange(
                at,
                at + part.len(),
            ) == part;
        assert(text =~= text.take(at) + text.subrange(at, at + part.len()) + text.skip(
            at + part.len(),
        ));
    }
}

} // verus!

//! The texts that read as a floating point number.
//!
//! Only whether a text is a number matters here, not which one.
use vstd::prelude::*;

use crate::text::characters;

verus! {

/// True of a decimal digit.
pub open spec fn is_digit(c: char) -> bool {
    '0' <= c <= '9'
}

/// True of a text of decimal digits only, or of none.
pub open spec fn all_digits(text: Seq<char>) -> bool {
    forall|i: int| 0 <= i < text.len() ==> is_digit(#[trigger] text[i])
}

/// The small letter of an ASCII letter; any other character as it is.
pub open spec fn small(c: char) -> char {
    if 'A' <= c <= 'Z' {
        (c as u32 + 32) as char
    } else {
        c
    }
}

/// True if the text is the word, in small or capital ASCII letters.
pub open spec fn reads(text: Seq<char>, word: Seq<char>) -> bool {
    &&& text.len() == word.len()
    &&& forall|i: int| 0 <= i < text.len() ==> small(#[trigger] text[i]) == word[i]
}

/// The text without the sign that it may start with.
pub open spec fn unsigned(text: Seq<char>) -> Seq<char> {
    if text.len() > 0 && (text[0] == '+' || text[0] == '-') {
        text.skip(1)
    } else {
        text
    }
}

/// Digits, with at most one point before, among or after them.
pub open spec fn is_mantissa(text: Seq<char>) -> bool {
    ||| text.len() > 0 && all_digits(text)
    ||| exists|point: int|
        {
            &&& 0 <= point < text.len()
            &&& #[trigger] text[point] == '.'
            &&& all_digits(text.take(point))
            &&& all_digits(text.skip(point + 1))
            &&& text.len() > 1
        }
}

/// Digits, with a sign or without.
pub open spec fn is_exponent(text: Seq<char>) -> bool {
    unsigned(text).len() > 0 && all_digits(unsigned(text))
}

/// A mantissa, alone or followed by `e` and an exponent.
pub open spec fn is_number(text: Seq<char>) -> bool {
    ||| is_mantissa(text)
    ||| exists|e: int|
        {
            &&& 0 <= e < text.len()
            &&& small(#[trigger] text[e]) == 'e'
            &&& is_mantissa(text.take(e))
            &&& is_exponent(text.skip(e + 1))
        }
}

/// True of a text that reads as a floating point number: a sign or none, and
/// then a number, an infinity or the word for no number.
pub open spec fn is_float(text: Seq<char>) -> bool {
    let rest = unsigned(text);
    ||| reads(rest, seq!['i', 'n', 'f'])
    ||| reads(rest, seq!['i', 'n', 'f', 'i', 'n', 'i', 't', 'y'])
    ||| reads(rest, seq!['n', 'a', 'n'])
    ||| is_number(rest)
}

fn digit(c: char) -> (result: bool)
    ensures
        result == is_digit(c),
{
    '0' <= c && c <= '9'
}

fn small_letter(c: char) -> (result: char)
    ensures
        result == small(c),
{
    if 'A' <= c && c <= 'Z' {
        ((c as u8) + 32) as char
    } else {
        c
    }
}

/// Where the digits end that start at `from`.
fn skip_digits(text: &Vec<char>, from: usize) -> (to: usize)
    requires
        from <= text@.len(),
    ensures
        from <= to <= text@.len(),
        forall|i: int| from <= i < to ==> is_digit(#[trigger] text@[i]),
        to < text@.len() ==> !is_digit(text@[to as int]),
{
    let mut to: usize = from;
    while to < text.len() && digit(text[to])
        invariant
            from <= to <= text@.len(),
            forall|i: int| from <= i < to ==> is_digit(#[trigger] text@[i]),
        decreases text@.len() - to,
    {
        to += 1;
    }
    to
}

/// Where the text goes on behind the sign that may stand at `from`.
fn skip_sign(text: &Vec<char>, from: usize) -> (to: usize)
    requires
        from <= text@.len(),
    ensures
        from <= to <= text@.len(),
        text@.skip(to as int) == unsigned(text@.skip(from as int)),
{
    if from < text.len() && (text[from] == '+' || text[from] == '-') {
        assert(text@.skip(from as int).skip(1) =~= text@.skip(from + 1));
        from + 1
    } else {
        from
    }
}

/// Tells whether the text from `from` on is the word, in small or capital letters.
fn reads_word(text: &Vec<char>, from: usize, word: &[char]) -> (result: bool)
    requires
        from <= text@.len(),
    ensures
        result == reads(text@.skip(from as int), word@),
{
    let ghost rest = text@.skip(from as int);
    let length: usize = text.len();
    if length - from != word.len() {
        return false;
    }
    let mut i: usize = 0;
    while i < word.len()
        invariant
            from <= text@.len(),
            rest == text@.skip(from as int),
            length == text@.len(),
            length - from == word@.len(),
            i <= word@.len(),
            forall|j: int| 0 <= j < i ==> small(#[trigger] rest[j]) == word@[j],
        decreases word@.len() - i,
    {
        assert(rest[i as int] == text@[from + i]);
        if small_letter(text[from + i]) != word[i] {
            return false;
        }
        i += 1;
    }
    true
}

/// A mantissa at the start of a text ends no later than `end`, where the digits
/// and the one point that the text starts with end.
proof fn lemma_mantissa_ends(text: Seq<char>, whole: int, end: int, length: int)
    requires
        0 <= whole <= end <= text.len(),
        0 <= length <= text.len(),
        forall|i: int| 0 <= i < whole ==> is_digit(#[trigger] text[i]),
        whole < text.len() ==> !is_digit(text[whole]),
        if whole < text.len() && text[whole] == '.' {
            &&& whole < end
            &&& end < text.len() ==> !is_digit(text[end])
        } else {
            end == whole
        },
        is_mantissa(text.take(length)),
    ensures
        length <= end,
{
    let head = text.take(length);
    if all_digits(head) {
        if whole < length {
            assert(is_digit(head[whole]));
        }
    } else {
        let point = choose|point: int|
            {
                &&& 0 <= point < head.len()
                &&& #[trigger] head[point] == '.'
                &&& all_digits(head.take(point))
                &&& all_digits(head.skip(point + 1))
                &&& head.len() > 1
            };
        assert(head[point] == text[point]);
        if point < whole {
            assert(is_digit(text[point]));
        }
        if whole < point {
            assert(is_digit(head.take(point)[whole]));
        }
        if end < length {
            assert(is_digit(head.skip(point + 1)[end - point - 1]));
        }
    }
}

/// True if no mantissa at the start of the text goes beyond `end`, and there is
/// no `e` before.
spec fn mantissa_ends_by(text: Seq<char>, end: int) -> bool {
    &&& 0 <= end <= text.len()
    &&& forall|k: int| 0 <= k <= text.len() && is_mantissa(#[trigger] text.take(k)) ==> k <= end
    &&& forall|k: int| 0 <= k < end ==> small(#[trigger] text[k]) != 'e'
}

/// Where the mantissa ends is where an `e` must stand.
proof fn lemma_number(text: Seq<char>, end: int)
    requires
        mantissa_ends_by(text, end),
    ensures
        is_number(text) == (is_mantissa(text.take(end)) && (end == text.len() || (small(text[end])
            == 'e' && is_exponent(text.skip(end + 1))))),
{
    assert(text.take(text.len() as int) =~= text);
    if is_mantissa(text) {
        assert(is_mantissa(text.take(text.len() as int)));
    } else if is_number(text) {
        let e = choose|e: int|
            {
                &&& 0 <= e < text.len()
                &&& small(#[trigger] text[e]) == 'e'
                &&& is_mantissa(text.take(e))
                &&& is_exponent(text.skip(e + 1))
            };
        assert(e == end);
    }
    if is_mantissa(text.take(end)) && end < text.len() && small(text[end]) == 'e' && is_exponent(
        text.skip(end + 1),
    ) {
        assert(is_number(text));
    }
}

/// Digits up to `whole` are a mantissa, and so are digits with a point at
/// `whole`, if there is a digit at all.
proof fn lemma_head_is_mantissa(text: Seq<char>, whole: int, end: int)
    requires
        0 <= whole <= end <= text.len(),
        forall|i: int| 0 <= i < whole ==> is_digit(#[trigger] text[i]),
        whole < end ==> text[whole] == '.',
        forall|i: int| whole < i < end ==> is_digit(#[trigger] text[i]),
    ensures
        is_mantissa(text.take(end)) == (whole > 0 || end > whole + 1),
{
    let head = text.take(end);
    if whole == end {
        assert(all_digits(head));
        if whole == 0 {
            assert(head.len() == 0);
        }
    } else {
        assert(head[whole] == '.');
        assert(all_digits(head.take(whole)));
        assert forall|i: int| 0 <= i < head.skip(whole + 1).len() implies is_digit(
            #[trigger] head.skip(whole + 1)[i],
        ) by {
            assert(head.skip(whole + 1)[i] == text[whole + 1 + i]);
        }
        if head.len() <= 1 {
            assert(!is_digit(head[0]));
        }
    }
}

/// Where the longest mantissa from `from` on ends, and whether it has a digit.
fn skip_mantissa(text: &Vec<char>, from: usize) -> (result: (usize, bool))
    requires
        from <= text@.len(),
    ensures
        from <= result.0 <= text@.len(),
        mantissa_ends_by(text@.skip(from as int), result.0 - from),
        result.1 == is_mantissa(text@.skip(from as int).take(result.0 - from)),
{
    let ghost rest = text@.skip(from as int);
    let whole: usize = skip_digits(text, from);
    let mut end: usize = whole;
    let mut digits = from < whole;
    if whole < text.len() && text[whole] == '.' {
        end = skip_digits(text, whole + 1);
        digits = digits || whole + 1 < end;
    }
    proof {
        let w = whole - from;
        let m = end - from;
        assert forall|i: int| 0 <= i < w implies is_digit(#[trigger] rest[i]) by {
            assert(is_digit(text@[from + i]));
        }
        assert forall|i: int| w < i < m implies is_digit(#[trigger] rest[i]) by {
            assert(is_digit(text@[from + i]));
        }
        lemma_head_is_mantissa(rest, w, m);
        assert forall|k: int| 0 <= k <= rest.len() && is_mantissa(#[trigger] rest.take(k)) implies k
            <= m by {
            lemma_mantissa_ends(rest, w, m, k);
        }
    }
    (end, digits)
}

/// Tells whether the text from `from` on is a mantissa, alone or followed by `e`
/// and an exponent.
fn number(text: &Vec<char>, from: usize) -> (result: bool)
    requires
        from <= text@.len(),
    ensures
        result == is_number(text@.skip(from as int)),
{
    let ghost rest = text@.skip(from as int);
    let (end, digits): (usize, bool) = skip_mantissa(text, from);
    proof {
        lemma_number(rest, end - from);
    }
    if !digits || end == text.len() {
        return digits;
    }
    assert(rest[end - from] == text@[end as int]);
    if small_letter(text[end]) != 'e' {
        return false;
    }
    let start: usize = skip_sign(text, end + 1);
    let stop: usize = skip_digits(text, start);
    let result = start < stop && stop == text.len();
    proof {
        let exponent = rest.skip(end - from + 1);
        assert(exponent =~= text@.skip(end + 1));
        let digits = unsigned(exponent);
        assert(digits == text@.skip(start as int));
        if result {
            assert forall|i: int| 0 <= i < digits.len() implies is_digit(#[trigger] digits[i]) by {
                assert(digits[i] == text@[start + i]);
            }
        } else if stop < text@.len() {
            assert(digits[stop - start] == text@[stop as int]);
        }
    }
    result
}

/// Tells whether a text reads as a floating point number.
pub fn reads_as_float(text: &str) -> (result: bool)
    ensures
        result == is_float(text@),
{
    let text = characters(text);
    assert(text@.skip(0) =~= text@);
    let from: usize = skip_sign(&text, 0);
    reads_word(&text, from, &['i', 'n', 'f']) || reads_word(
        &text,
        from,
        &['i', 'n', 'f', 'i', 'n', 'i', 't', 'y'],
    ) || reads_word(&text, from, &['n', 'a', 'n']) || number(&text, from)
}

} // verus!

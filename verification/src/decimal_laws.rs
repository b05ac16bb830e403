//! Which texts read as a floating point number, told by their parts.
use vstd::prelude::*;

use crate::decimal::{
    all_digits, is_exponent, is_float, is_mantissa, is_number, reads, small, unsigned,
};

verus! {

/// True of decimal digits, or of no character.
pub open spec fn are_digits(text: Seq<char>) -> bool {
    forall|i: int| 0 <= i < text.len() ==> '0' <= #[trigger] text[i] <= '9'
}

/// True of a sign, or of no character.
pub open spec fn is_sign(text: Seq<char>) -> bool {
    text.len() == 0 || text == seq!['+'] || text == seq!['-']
}

/// True of digits alone, and of digits with a point before, among or behind them.
pub open spec fn is_point_number(text: Seq<char>) -> bool {
    ||| text.len() > 0 && are_digits(text)
    ||| exists|whole: Seq<char>, part: Seq<char>| #[trigger] is_pointed(text, whole, part)
}

/// True if the text is `whole`, a point and `part`, with a digit in one of them.
pub open spec fn is_pointed(text: Seq<char>, whole: Seq<char>, part: Seq<char>) -> bool {
    &&& are_digits(whole)
    &&& are_digits(part)
    &&& whole.len() + part.len() > 0
    &&& text == whole + seq!['.'] + part
}

/// True if the text is `head`, an `e` and an exponent that is a sign and `digits`.
pub open spec fn is_scaled(
    text: Seq<char>,
    head: Seq<char>,
    e: char,
    sign: Seq<char>,
    digits: Seq<char>,
) -> bool {
    &&& is_point_number(head)
    &&& e == 'e' || e == 'E'
    &&& is_sign(sign)
    &&& digits.len() > 0
    &&& are_digits(digits)
    &&& text == head + seq![e] + sign + digits
}

/// True of a number, with an exponent or without.
pub open spec fn is_scaled_number(text: Seq<char>) -> bool {
    ||| is_point_number(text)
    ||| exists|head: Seq<char>, e: char, sign: Seq<char>, digits: Seq<char>| #[trigger]
        is_scaled(text, head, e, sign, digits)
}

/// True if the two characters are the same letter, small or capital.
pub open spec fn same_letter(c: char, letter: char) -> bool {
    c == letter || c as u32 + 32 == letter as u32
}

/// True of `inf`, `infinity` and `nan` in small and capital letters.
pub open spec fn is_number_word(text: Seq<char>) -> bool {
    ||| text.len() == 3 && same_letter(text[0], 'i') && same_letter(text[1], 'n') && same_letter(
        text[2],
        'f',
    )
    ||| text.len() == 3 && same_letter(text[0], 'n') && same_letter(text[1], 'a') && same_letter(
        text[2],
        'n',
    )
    ||| text.len() == 8 && same_letter(text[0], 'i') && same_letter(text[1], 'n') && same_letter(
        text[2],
        'f',
    ) && same_letter(text[3], 'i') && same_letter(text[4], 'n') && same_letter(text[5], 'i')
        && same_letter(text[6], 't') && same_letter(text[7], 'y')
}

/// True if the text is a sign and `rest`, and `rest` is a number or a word for one.
pub open spec fn is_signed(text: Seq<char>, sign: Seq<char>, rest: Seq<char>) -> bool {
    &&& is_sign(sign)
    &&& is_scaled_number(rest) || is_number_word(rest)
    &&& text == sign + rest
}

proof fn lemma_same_letter(c: char, letter: char)
    requires
        'a' <= letter <= 'z',
    ensures
        small(c) == letter <==> same_letter(c, letter),
{
}

proof fn lemma_reads_words(text: Seq<char>)
    ensures
        is_number_word(text) <==> (reads(text, seq!['i', 'n', 'f']) || reads(
            text,
            seq!['n', 'a', 'n'],
        ) || reads(text, seq!['i', 'n', 'f', 'i', 'n', 'i', 't', 'y'])),
{
    let inf = seq!['i', 'n', 'f'];
    let nan = seq!['n', 'a', 'n'];
    let infinity = seq!['i', 'n', 'f', 'i', 'n', 'i', 't', 'y'];
    assert forall|i: int, letter: char|
        0 <= i < text.len() && 'a' <= letter <= 'z' implies (small(#[trigger] text[i]) == letter
        <==> #[trigger] same_letter(text[i], letter)) by {
        lemma_same_letter(text[i], letter);
    }
    assert(inf[0] == 'i' && inf[1] == 'n' && inf[2] == 'f');
    assert(nan[0] == 'n' && nan[1] == 'a' && nan[2] == 'n');
    assert(infinity[0] == 'i' && infinity[1] == 'n' && infinity[2] == 'f' && infinity[3] == 'i'
        && infinity[4] == 'n' && infinity[5] == 'i' && infinity[6] == 't' && infinity[7] == 'y');
}

proof fn lemma_point_number(text: Seq<char>)
    ensures
        is_mantissa(text) <==> is_point_number(text),
{
    assert(are_digits(text) <==> all_digits(text));
    if is_mantissa(text) && !all_digits(text) {
        let point = choose|point: int|
            {
                &&& 0 <= point < text.len()
                &&& #[trigger] text[point] == '.'
                &&& all_digits(text.take(point))
                &&& all_digits(text.skip(point + 1))
                &&& text.len() > 1
            };
        let whole = text.take(point);
        let part = text.skip(point + 1);
        assert(text =~= whole + seq!['.'] + part);
        assert(is_pointed(text, whole, part));
    }
    if exists|whole: Seq<char>, part: Seq<char>| #[trigger] is_pointed(text, whole, part) {
        let (whole, part) = choose|whole: Seq<char>, part: Seq<char>| #[trigger]
            is_pointed(text, whole, part);
        let point = whole.len() as int;
        assert(text[point] == '.');
        assert(text.take(point) =~= whole);
        assert(text.skip(point + 1) =~= part);
    }
}

proof fn lemma_exponent(text: Seq<char>)
    ensures
        is_exponent(text) <==> exists|sign: Seq<char>, digits: Seq<char>|
            is_sign(sign) && #[trigger] are_digits(digits) && digits.len() > 0 && text == #[trigger] (
            sign + digits),
{
    if is_exponent(text) {
        let digits = unsigned(text);
        if text.len() > 0 && (text[0] == '+' || text[0] == '-') {
            let sign = seq![text[0]];
            assert(text =~= sign + digits);
            assert(are_digits(digits));
        } else {
            let sign = Seq::<char>::empty();
            assert(text =~= sign + digits);
            assert(are_digits(digits));
        }
    }
    if exists|sign: Seq<char>, digits: Seq<char>|
        is_sign(sign) && #[trigger] are_digits(digits) && digits.len() > 0 && text == #[trigger] (
        sign + digits) {
        let (sign, digits) = choose|sign: Seq<char>, digits: Seq<char>|
            is_sign(sign) && #[trigger] are_digits(digits) && digits.len() > 0 && text
                == #[trigger] (sign + digits);
        if sign.len() == 0 {
            assert(text =~= digits);
            assert('0' <= digits[0] <= '9');
        } else {
            assert(text.skip(1) =~= digits);
        }
        assert(unsigned(text) == digits);
    }
}

proof fn lemma_number_is_scaled(text: Seq<char>)
    requires
        is_number(text),
    ensures
        is_scaled_number(text),
{
    lemma_point_number(text);
    if !is_mantissa(text) {
        let i = choose|i: int|
            {
                &&& 0 <= i < text.len()
                &&& small(#[trigger] text[i]) == 'e'
                &&& is_mantissa(text.take(i))
                &&& is_exponent(text.skip(i + 1))
            };
        let head = text.take(i);
        let exponent = text.skip(i + 1);
        lemma_point_number(head);
        lemma_exponent(exponent);
        lemma_same_letter(text[i], 'e');
        let (sign, digits) = choose|sign: Seq<char>, digits: Seq<char>|
            is_sign(sign) && #[trigger] are_digits(digits) && digits.len() > 0 && exponent
                == #[trigger] (sign + digits);
        assert(text =~= head + seq![text[i]] + exponent);
        assert(head + seq![text[i]] + (sign + digits) =~= head + seq![text[i]] + sign + digits);
        assert(is_scaled(text, head, text[i], sign, digits));
    }
}

proof fn lemma_scaled_is_number(
    text: Seq<char>,
    head: Seq<char>,
    e: char,
    sign: Seq<char>,
    digits: Seq<char>,
)
    requires
        is_scaled(text, head, e, sign, digits),
    ensures
        is_number(text),
{
    let i = head.len() as int;
    assert(text[i] == e);
    assert(text.take(i) =~= head);
    assert(text.skip(i + 1) =~= sign + digits);
    lemma_point_number(head);
    lemma_exponent(text.skip(i + 1));
    lemma_same_letter(e, 'e');
    assert(small(text[i]) == 'e');
}

proof fn lemma_scaled_number(text: Seq<char>)
    ensures
        is_number(text) <==> is_scaled_number(text),
{
    if is_number(text) {
        lemma_number_is_scaled(text);
    }
    if is_scaled_number(text) {
        lemma_point_number(text);
        if !is_point_number(text) {
            let (head, e, sign, digits) = choose|
                head: Seq<char>,
                e: char,
                sign: Seq<char>,
                digits: Seq<char>,
            | #[trigger]
                is_scaled(text, head, e, sign, digits);
            lemma_scaled_is_number(text, head, e, sign, digits);
        }
    }
}

/// A text reads as a floating point number just if it is a sign or none, and then
/// digits with at most one point and at most one exponent, or a word for a number.
pub proof fn floats_are_made_of_their_parts(text: Seq<char>)
    ensures
        is_float(text) <==> exists|sign: Seq<char>, rest: Seq<char>| #[trigger]
            is_signed(text, sign, rest),
{
    let bare = unsigned(text);
    lemma_reads_words(bare);
    lemma_scaled_number(bare);
    if is_float(text) {
        if text.len() > 0 && (text[0] == '+' || text[0] == '-') {
            assert(text =~= seq![text[0]] + bare);
            assert(is_signed(text, seq![text[0]], bare));
        } else {
            assert(text =~= Seq::<char>::empty() + bare);
            assert(is_signed(text, Seq::empty(), bare));
        }
    }
    if exists|sign: Seq<char>, rest: Seq<char>| #[trigger] is_signed(text, sign, rest) {
        let (sign, rest) = choose|sign: Seq<char>, rest: Seq<char>| #[trigger]
            is_signed(text, sign, rest);
        lemma_reads_words(rest);
        lemma_scaled_number(rest);
        lemma_no_sign_ahead(rest);
        if sign.len() == 0 {
            assert(text =~= rest);
        } else {
            assert(text.skip(1) =~= rest);
        }
        assert(bare == rest);
    }
}

/// A number and a word for one start with no sign.
proof fn lemma_no_sign_ahead(rest: Seq<char>)
    requires
        is_scaled_number(rest) || is_number_word(rest),
    ensures
        rest.len() > 0,
        rest[0] != '+',
        rest[0] != '-',
{
    if is_scaled_number(rest) {
        if is_point_number(rest) {
            lemma_point_number_ahead(rest);
        } else {
            let (head, e, sign, digits) = choose|
                head: Seq<char>,
                e: char,
                sign: Seq<char>,
                digits: Seq<char>,
            | #[trigger]
                is_scaled(rest, head, e, sign, digits);
            lemma_point_number_ahead(head);
            assert(rest[0] == head[0]);
        }
    }
}

proof fn lemma_point_number_ahead(text: Seq<char>)
    requires
        is_point_number(text),
    ensures
        text.len() > 0,
        '0' <= text[0] <= '9' || text[0] == '.',
{
    if !(text.len() > 0 && are_digits(text)) {
        let (whole, part) = choose|whole: Seq<char>, part: Seq<char>| #[trigger]
            is_pointed(text, whole, part);
        if whole.len() > 0 {
            assert(text[0] == whole[0]);
            assert('0' <= whole[0] <= '9');
        } else {
            assert(text[0] == '.');
        }
    }
}

/// No number has the letter `p` in it.
pub proof fn float_has_no_p(text: Seq<char>)
    requires
        is_float(text),
    ensures
        !text.contains('p'),
{
    floats_are_made_of_their_parts(text);
    let (sign, rest) = choose|sign: Seq<char>, rest: Seq<char>| #[trigger]
        is_signed(text, sign, rest);
    assert forall|i: int| 0 <= i < text.len() implies #[trigger] text[i] != 'p' by {
        if i < sign.len() {
            assert(text[i] == sign[i]);
        } else {
            assert(text[i] == rest[i - sign.len()]);
            lemma_rest_has_no_p(rest, i - sign.len());
        }
    }
}

proof fn lemma_rest_has_no_p(rest: Seq<char>, i: int)
    requires
        is_scaled_number(rest) || is_number_word(rest),
        0 <= i < rest.len(),
    ensures
        rest[i] != 'p',
{
    if is_point_number(rest) {
        lemma_point_number_has_no_p(rest, i);
    } else if is_scaled_number(rest) {
        let (head, e, sign, digits) = choose|
            head: Seq<char>,
            e: char,
            sign: Seq<char>,
            digits: Seq<char>,
        | #[trigger]
            is_scaled(rest, head, e, sign, digits);
        let n = head.len() as int;
        if i < n {
            assert(rest[i] == head[i]);
            lemma_point_number_has_no_p(head, i);
        } else if i == n {
            assert(rest[i] == e);
        } else if i < n + 1 + sign.len() {
            assert(rest[i] == sign[i - n - 1]);
        } else {
            assert(rest[i] == digits[i - n - 1 - sign.len()]);
            assert('0' <= digits[i - n - 1 - sign.len()] <= '9');
        }
    }
}

proof fn lemma_point_number_has_no_p(text: Seq<char>, i: int)
    requires
        is_point_number(text),
        0 <= i < text.len(),
    ensures
        text[i] != 'p',
{
    if are_digits(text) {
        assert('0' <= text[i] <= '9');
    } else {
        let (whole, part) = choose|whole: Seq<char>, part: Seq<char>| #[trigger]
            is_pointed(text, whole, part);
        let n = whole.len() as int;
        if i < n {
            assert(text[i] == whole[i]);
            assert('0' <= whole[i] <= '9');
        } else if i > n {
            assert(text[i] == part[i - n - 1]);
            assert('0' <= part[i - n - 1] <= '9');
        }
    }
}

/// Plain digits read as a number, and so do digits with a point among them.
pub proof fn plain_numbers_are_floats(whole: Seq<char>, part: Seq<char>)
    requires
        are_digits(whole),
        are_digits(part),
        whole.len() > 0,
    ensures
        is_float(whole),
        is_float(whole + seq!['.'] + part),
{
    assert(is_scaled_number(whole));
    assert(whole =~= Seq::<char>::empty() + whole);
    assert(is_signed(whole, Seq::empty(), whole));
    floats_are_made_of_their_parts(whole);
    let pointed = whole + seq!['.'] + part;
    assert(is_pointed(pointed, whole, part));
    assert(pointed =~= Seq::<char>::empty() + pointed);
    assert(is_signed(pointed, Seq::empty(), pointed));
    floats_are_made_of_their_parts(pointed);
}

} // verus!

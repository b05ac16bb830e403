//! What splitting and trimming give, told by how the parts make up the text.
use vstd::prelude::*;

use crate::text::{
    contents, is_white_space, joined, pieces, trim_end, trim_start, trimmed, without_px, words,
    Separator,
};

verus! {

/// White space is the tab and what follows it up to the carriage return, the
/// space, the next-line character and the spaces of Unicode; no other character is.
pub proof fn white_space_is_known(c: char)
    ensures
        is_white_space(c) <==> {
            let code = c as u32;
            ||| 9 <= code <= 13
            ||| code == 32
            ||| code == 133
            ||| code == 160
            ||| code == 5760
            ||| 8192 <= code <= 8202
            ||| 8232 <= code <= 8233
            ||| code == 8239
            ||| code == 8287
            ||| code == 12288
        },
{
}

/// A text is split at a comma, or at white space, and at nothing else.
pub proof fn separators_are_known(c: char)
    ensures
        Separator::Comma.separates(c) <==> c as u32 == 44,
        Separator::WhiteSpace.separates(c) <==> is_white_space(c),
{
}

proof fn lemma_pieces_of_a_sum(
    before: Seq<char>,
    separator: Separator,
    at: char,
    after: Seq<char>,
)
    requires
        separator.separates(at),
    ensures
        pieces(before + seq![at] + after, separator) == pieces(before, separator) + pieces(
            after,
            separator,
        ),
        pieces(after, separator).len() > 0,
    decreases after.len(),
{
    let text = before + seq![at] + after;
    if after.len() == 0 {
        assert(text.drop_last() =~= before);
        assert(text.last() == at);
        assert(pieces(text, separator) =~= pieces(before, separator) + pieces(after, separator));
    } else {
        let head = after.drop_last();
        lemma_pieces_of_a_sum(before, separator, at, head);
        assert(text.drop_last() =~= before + seq![at] + head);
        assert(text.last() == after.last());
        assert(pieces(text, separator) =~= pieces(before, separator) + pieces(after, separator));
    }
}

/// A text that is two texts with a separator between them has the pieces of the
/// one and then those of the other.
pub proof fn pieces_add_up(before: Seq<char>, separator: Separator, at: char, after: Seq<char>)
    requires
        separator.separates(at),
    ensures
        pieces(before + seq![at] + after, separator) == pieces(before, separator) + pieces(
            after,
            separator,
        ),
{
    lemma_pieces_of_a_sum(before, separator, at, after);
}

/// A text without separators is its own only piece.
pub proof fn text_without_separators_is_one_piece(text: Seq<char>, separator: Separator)
    requires
        forall|i: int| 0 <= i < text.len() ==> !separator.separates(#[trigger] text[i]),
    ensures
        pieces(text, separator) == seq![text],
    decreases text.len(),
{
    if text.len() > 0 {
        let head = text.drop_last();
        assert forall|i: int| 0 <= i < head.len() implies !separator.separates(
            #[trigger] head[i],
        ) by {
            assert(head[i] == text[i]);
        }
        text_without_separators_is_one_piece(head, separator);
        assert(!separator.separates(text[text.len() - 1]));
        assert(head.push(text.last()) =~= text);
        assert(pieces(text, separator) =~= seq![text]);
    } else {
        assert(text =~= Seq::empty());
        assert(pieces(text, separator) =~= seq![text]);
    }
}

/// Two texts with white space between them have the words of the one and then
/// those of the other.
pub proof fn words_add_up(before: Seq<char>, at: char, after: Seq<char>)
    requires
        is_white_space(at),
    ensures
        words(before + seq![at] + after) == words(before) + words(after),
{
    pieces_add_up(before, Separator::WhiteSpace, at, after);
    let keeps = |text: Seq<char>| text.len() > 0;
    lemma_filter_adds_up(
        pieces(before, Separator::WhiteSpace),
        pieces(after, Separator::WhiteSpace),
        keeps,
    );
}

pub(crate) proof fn lemma_filter_adds_up(
    a: Seq<Seq<char>>,
    b: Seq<Seq<char>>,
    keeps: spec_fn(Seq<char>) -> bool,
)
    ensures
        (a + b).filter(keeps) == a.filter(keeps) + b.filter(keeps),
    decreases b.len(),
{
    reveal(Seq::filter);
    if b.len() == 0 {
        assert(a + b =~= a);
        assert(a.filter(keeps) + b.filter(keeps) =~= a.filter(keeps));
    } else {
        lemma_filter_adds_up(a, b.drop_last(), keeps);
        assert((a + b).drop_last() =~= a + b.drop_last());
        assert((a + b).last() == b.last());
        assert((a + b).filter(keeps) =~= a.filter(keeps) + b.filter(keeps));
    }
}

/// A text without white space is one word, or none if it is empty.
pub proof fn text_without_white_space_is_one_word(text: Seq<char>)
    requires
        forall|i: int| 0 <= i < text.len() ==> !is_white_space(#[trigger] text[i]),
    ensures
        words(text) == (if text.len() > 0 {
            seq![text]
        } else {
            Seq::empty()
        }),
{
    text_without_separators_is_one_piece(text, Separator::WhiteSpace);
    reveal_with_fuel(Seq::filter, 2);
    let one = seq![text];
    assert(one.drop_last() =~= Seq::empty());
    assert(words(text) =~= if text.len() > 0 {
        one
    } else {
        Seq::empty()
    });
}

/// White space at either end of a text does not matter, and nothing else is
/// trimmed.
pub proof fn only_white_space_is_trimmed(text: Seq<char>, c: char)
    ensures
        is_white_space(c) ==> trimmed(seq![c] + text) == trimmed(text) && trimmed(text.push(c))
            == trimmed(text),
        text.len() == 0 || (!is_white_space(text.first()) && !is_white_space(text.last()))
            ==> trimmed(text) == text,
{
    if is_white_space(c) {
        assert((seq![c] + text).drop_first() =~= text);
        assert((seq![c] + text).first() == c);
        lemma_trim_start_push(text, c);
    }
}

proof fn lemma_trim_start_push(text: Seq<char>, c: char)
    requires
        is_white_space(c),
    ensures
        trim_end(trim_start(text.push(c))) == trim_end(trim_start(text)),
    decreases text.len(),
{
    let longer = text.push(c);
    if text.len() == 0 {
        assert(longer.drop_first() =~= Seq::empty());
        assert(trim_start(longer.drop_first()) == longer.drop_first());
        assert(text =~= Seq::empty());
    } else if is_white_space(text.first()) {
        assert(longer.drop_first() =~= text.drop_first().push(c));
        assert(longer.first() == text.first());
        lemma_trim_start_push(text.drop_first(), c);
    } else {
        assert(longer.first() == text.first());
        assert(longer.drop_last() =~= text);
        assert(longer.last() == c);
    }
}

/// Every `px` at the end of a text is dropped, and nothing else.
pub proof fn only_px_is_dropped(text: Seq<char>)
    ensures
        without_px(text + seq!['p', 'x']) == without_px(text),
        !(text.len() >= 2 && text[text.len() - 2] == 'p' && text[text.len() - 1] == 'x')
            ==> without_px(text) == text,
{
    let longer = text + seq!['p', 'x'];
    assert(longer.take(longer.len() - 2) =~= text);
}

/// Words are joined by one space: one word more adds a space and the word.
pub proof fn words_are_joined_by_spaces(words: Seq<Seq<char>>, word: Seq<char>)
    ensures
        joined(seq![word]) == word,
        words.len() > 0 ==> joined(words.push(word)) == joined(words).push(' ') + word,
{
    assert(words.push(word).drop_last() =~= words);
    if words.len() > 0 {
        assert(joined(words) + seq![' '] =~= joined(words).push(' '));
    }
}

/// A list of texts holds its texts, in order.
pub proof fn lists_hold_their_texts(list: Seq<&str>, i: int)
    requires
        0 <= i < list.len(),
    ensures
        contents(list).len() == list.len(),
        contents(list)[i] == list[i]@,
{
}

} // verus!

//! What holds of every list of font families.
use vstd::prelude::*;

use crate::decimal::is_float;
use crate::decimal_laws::float_has_no_p;
use crate::font::{
    last_family_words, listed_families, longest_first, pango_families, qt_families, texts,
    without_size,
};
use crate::text::{
    is_white_space, joined, non_empty, pieces, trim_end, trim_start, trimmed, without_px, words,
    Separator,
};
use crate::text_laws::{
    lemma_filter_adds_up, only_px_is_dropped, pieces_add_up, text_without_separators_is_one_piece,
    text_without_white_space_is_one_word, words_add_up,
};

verus! {

/// True of a text that is not empty, has no comma in it, and neither starts nor
/// ends with white space.
pub open spec fn is_clean(family: Seq<char>) -> bool {
    &&& family.len() > 0
    &&& !is_white_space(family.first())
    &&& !is_white_space(family.last())
    &&& !family.contains(',')
}

proof fn lemma_trim_start(text: Seq<char>)
    ensures
        exists|k: int| 0 <= k <= text.len() && trim_start(text) == #[trigger] text.skip(k),
        trim_start(text).len() > 0 ==> !is_white_space(trim_start(text).first()),
    decreases text.len(),
{
    if text.len() > 0 && is_white_space(text.first()) {
        let rest = text.drop_first();
        lemma_trim_start(rest);
        let k = choose|k: int| 0 <= k <= rest.len() && trim_start(rest) == #[trigger] rest.skip(k);
        assert(rest.skip(k) =~= text.skip(k + 1));
    } else {
        assert(text.skip(0) =~= text);
    }
}

proof fn lemma_trim_end(text: Seq<char>)
    ensures
        exists|k: int| 0 <= k <= text.len() && trim_end(text) == #[trigger] text.take(k),
        trim_end(text).len() > 0 ==> !is_white_space(trim_end(text).last()),
    decreases text.len(),
{
    if text.len() > 0 && is_white_space(text.last()) {
        let rest = text.drop_last();
        lemma_trim_end(rest);
        let k = choose|k: int| 0 <= k <= rest.len() && trim_end(rest) == #[trigger] rest.take(k);
        assert(rest.take(k) =~= text.take(k));
    } else {
        assert(text.take(text.len() as int) =~= text);
    }
}

/// A trimmed text is part of the text, and has no white space at its ends.
proof fn lemma_trimmed(text: Seq<char>)
    ensures
        forall|c: char| trimmed(text).contains(c) ==> text.contains(c),
        trimmed(text).len() > 0 ==> !is_white_space(trimmed(text).first()) && !is_white_space(
            trimmed(text).last(),
        ),
{
    lemma_trim_start(text);
    let start = trim_start(text);
    lemma_trim_end(start);
    let from = choose|k: int| 0 <= k <= text.len() && start == #[trigger] text.skip(k);
    let to = choose|k: int| 0 <= k <= start.len() && trim_end(start) == #[trigger] start.take(k);
    assert forall|c: char| trimmed(text).contains(c) implies text.contains(c) by {
        let i = choose|i: int| 0 <= i < trimmed(text).len() && trimmed(text)[i] == c;
        assert(text[from + i] == c);
    }
}

/// No piece has a separator in it, and each is part of the text.
proof fn lemma_pieces(text: Seq<char>, separator: Separator)
    ensures
        pieces(text, separator).len() > 0,
        forall|i: int, c: char|
            0 <= i < pieces(text, separator).len() && #[trigger] pieces(text, separator)[i].contains(
                c,
            ) ==> !separator.separates(c) && text.contains(c),
    decreases text.len(),
{
    if text.len() > 0 {
        let head = text.drop_last();
        lemma_pieces(head, separator);
        let before = pieces(head, separator);
        let all = pieces(text, separator);
        assert forall|i: int, c: char|
            0 <= i < all.len() && #[trigger] all[i].contains(c) implies !separator.separates(c)
            && text.contains(c) by {
            let j = choose|j: int| 0 <= j < all[i].len() && all[i][j] == c;
            if i < before.len() - 1 || (i == before.len() - 1 && j < before[i].len()) {
                assert(before[i][j] == c);
                assert(before[i].contains(c));
                let k = choose|k: int| 0 <= k < head.len() && head[k] == c;
                assert(text[k] == c);
            } else {
                assert(c == text.last());
                assert(text[text.len() - 1] == c);
            }
        }
    }
}

/// The texts that are kept are among the texts, and none is empty.
proof fn lemma_non_empty(texts: Seq<Seq<char>>, i: int)
    requires
        0 <= i < non_empty(texts).len(),
    ensures
        texts.contains(non_empty(texts)[i]),
        non_empty(texts)[i].len() > 0,
{
    let keeps = |text: Seq<char>| text.len() > 0;
    assert(non_empty(texts).contains(non_empty(texts)[i]));
    texts.lemma_filter_contains_rev(keeps, non_empty(texts)[i]);
    texts.lemma_filter_pred(keeps, i);
}

/// True of a text that is not empty and has no white space and no comma in it.
spec fn is_word(text: Seq<char>) -> bool {
    &&& text.len() > 0
    &&& forall|c: char| #[trigger] text.contains(c) ==> !is_white_space(c) && c != ','
}

/// True of a list of words.
spec fn are_words(words: Seq<Seq<char>>) -> bool {
    forall|i: int| 0 <= i < words.len() ==> is_word(#[trigger] words[i])
}

proof fn lemma_joined(words: Seq<Seq<char>>)
    requires
        words.len() > 0,
        are_words(words),
    ensures
        is_clean(joined(words)),
        joined(words).first() == words[0].first(),
        joined(words).last() == words.last().last(),
    decreases words.len(),
{
    assert(words[0].contains(words[0][0]));
    let last = words[words.len() - 1];
    assert(last.contains(last[last.len() - 1]));
    if words.len() > 1 {
        let head = words.drop_last();
        assert forall|i: int| 0 <= i < head.len() implies is_word(#[trigger] head[i]) by {
            assert(head[i] == words[i]);
        }
        lemma_joined(head);
        let all = joined(words);
        assert(all == joined(head) + seq![' '] + last);
        assert(head[0] == words[0]);
        assert(all.first() == joined(head).first());
        assert(all.last() == last.last());
        assert forall|i: int| 0 <= i < all.len() implies all[i] != ',' by {
            if i < joined(head).len() {
                assert(all[i] == joined(head)[i]);
                assert(joined(head).contains(joined(head)[i]));
            } else if i > joined(head).len() {
                let j = i - joined(head).len() - 1;
                assert(all[i] == last[j]);
                assert(words[words.len() - 1].contains(last[j]));
            } else {
                assert(all[i] == (joined(head) + seq![' '])[i]);
            }
        }
    } else {
        let all = joined(words);
        assert(all == words[0]);
        assert forall|i: int| 0 <= i < all.len() implies all[i] != ',' by {
            assert(words[0].contains(all[i]));
        }
    }
}

proof fn lemma_last_family_words(description: Seq<char>)
    ensures
        are_words(last_family_words(description)),
{
    let all = pieces(description, Separator::Comma);
    lemma_pieces(description, Separator::Comma);
    let last = trimmed(all.last());
    lemma_trimmed(all.last());
    let found = words(last);
    let kept = last_family_words(description);
    assert forall|i: int| 0 <= i < kept.len() implies is_word(#[trigger] kept[i]) by {
        assert(kept[i] == found[i]);
        let split = pieces(last, Separator::WhiteSpace);
        lemma_non_empty(split, i);
        lemma_pieces(last, Separator::WhiteSpace);
        let k = choose|k: int| 0 <= k < split.len() && split[k] == found[i];
        assert forall|c: char| kept[i].contains(c) implies !is_white_space(c) && c != ',' by {
            assert(split[k].contains(c));
            assert(all[all.len() - 1].contains(c));
        }
    }
}

/// Every candidate family of a Pango description is a name: not empty, without
/// commas, and without white space at its ends.
pub proof fn pango_families_are_clean(description: Seq<char>, i: int)
    requires
        0 <= i < pango_families(description).len(),
    ensures
        is_clean(pango_families(description)[i]),
{
    let listed = listed_families(description);
    let all = pieces(description, Separator::Comma);
    lemma_pieces(description, Separator::Comma);
    if i < listed.len() {
        let trims = all.drop_last().map_values(|piece: Seq<char>| trimmed(piece));
        lemma_non_empty(trims, i);
        let k = choose|k: int| 0 <= k < trims.len() && trims[k] == listed[i];
        lemma_trimmed(all[k]);
        if listed[i].contains(',') {
            assert(all[k].contains(','));
        }
    } else {
        let kept = last_family_words(description);
        lemma_last_family_words(description);
        let n = kept.len() - (i - listed.len());
        let head = kept.take(n);
        assert forall|j: int| 0 <= j < head.len() implies is_word(#[trigger] head[j]) by {
            assert(head[j] == kept[j]);
        }
        lemma_joined(head);
    }
}

/// The family of a Qt font string is a name, and there is at most one.
pub proof fn qt_families_are_clean(description: Seq<char>)
    ensures
        qt_families(description).len() <= 1,
        qt_families(description).len() == 1 ==> is_clean(qt_families(description)[0]),
{
    let all = pieces(description, Separator::Comma);
    lemma_pieces(description, Separator::Comma);
    lemma_trimmed(all[0]);
    let family = trimmed(all.first());
    if family.contains(',') {
        assert(all[0].contains(','));
    }
}

/// Where style words and the family share one list, each candidate is the one
/// before it without its last word: the longest comes first.
pub proof fn longer_candidates_come_first(words: Seq<Seq<char>>, i: int)
    requires
        0 <= i,
        i + 1 < longest_first(words).len(),
    ensures
        longest_first(words)[i] == longest_first(words)[i + 1] + seq![' '] + words[words.len() - 1
            - i],
        longest_first(words)[i + 1].len() < longest_first(words)[i].len(),
{
    let longer = words.take(words.len() - i);
    assert(longer.drop_last() =~= words.take(words.len() - (i + 1)));
    assert(longer.last() == words[words.len() - 1 - i]);
}

/// The size at the end of a description adds no candidate.
pub proof fn size_is_no_family(words: Seq<Seq<char>>, size: Seq<char>)
    requires
        crate::font::is_size(size),
    ensures
        without_size(words.push(size)) == words,
{
    assert(words.push(size).drop_last() =~= words);
}

/// The words with a space between each two.
pub open spec fn spaced(words: Seq<Seq<char>>) -> Seq<char>
    decreases words.len(),
{
    if words.len() == 0 {
        Seq::empty()
    } else if words.len() == 1 {
        words[0]
    } else {
        words[0] + seq![' '] + spaced(words.drop_first())
    }
}

/// True of a text that could be one word of a description: some characters, none
/// of them white space or a comma.
pub open spec fn could_be_a_word(text: Seq<char>) -> bool {
    &&& text.len() > 0
    &&& forall|i: int|
        0 <= i < text.len() ==> !is_white_space(#[trigger] text[i]) && text[i] != ','
}

proof fn lemma_spaced_push(list: Seq<Seq<char>>, word: Seq<char>)
    requires
        list.len() > 0,
    ensures
        spaced(list.push(word)) == spaced(list) + seq![' '] + word,
    decreases list.len(),
{
    let longer = list.push(word);
    assert(longer.drop_first() =~= list.drop_first().push(word));
    if list.len() == 1 {
        assert(list.drop_first() =~= Seq::empty());
        assert(longer.drop_first() =~= seq![word]);
        assert(spaced(longer.drop_first()) == word);
    } else {
        lemma_spaced_push(list.drop_first(), word);
        assert(spaced(longer) =~= spaced(list) + seq![' '] + word);
    }
}

proof fn lemma_spaced_is_joined(list: Seq<Seq<char>>)
    ensures
        spaced(list) == joined(list),
    decreases list.len(),
{
    if list.len() > 1 {
        let rest = list.drop_last();
        lemma_spaced_is_joined(rest);
        lemma_spaced_push(rest, list.last());
        assert(rest.push(list.last()) =~= list);
    }
}

/// The words of spaced words are these words, and the text has no comma and
/// starts and ends with a letter of a word.
proof fn lemma_words_of_spaced(list: Seq<Seq<char>>)
    requires
        list.len() > 0,
        forall|i: int| 0 <= i < list.len() ==> could_be_a_word(#[trigger] list[i]),
    ensures
        words(spaced(list)) == list,
        spaced(list).len() > 0,
        !is_white_space(spaced(list).first()),
        !is_white_space(spaced(list).last()),
        forall|i: int| 0 <= i < spaced(list).len() ==> #[trigger] spaced(list)[i] != ',',
    decreases list.len(),
{
    let first = list[0];
    assert(could_be_a_word(first));
    assert(!is_white_space(first[0]) && !is_white_space(first[first.len() - 1]));
    text_without_white_space_is_one_word(first);
    if list.len() == 1 {
        assert(list =~= seq![first]);
    } else {
        let rest = list.drop_first();
        assert forall|i: int| 0 <= i < rest.len() implies could_be_a_word(#[trigger] rest[i]) by {
            assert(rest[i] == list[i + 1]);
        }
        lemma_words_of_spaced(rest);
        words_add_up(first, ' ', spaced(rest));
        let text = spaced(list);
        assert(text == first + seq![' '] + spaced(rest));
        assert(list =~= seq![first] + rest);
        assert forall|i: int| 0 <= i < text.len() implies #[trigger] text[i] != ',' by {
            if i < first.len() {
                assert(text[i] == first[i]);
            } else if i > first.len() {
                assert(text[i] == spaced(rest)[i - first.len() - 1]);
            }
        }
        assert(text.first() == first[0]);
        assert(text.last() == spaced(rest).last());
    }
}

proof fn lemma_without_comma(description: Seq<char>)
    requires
        !description.contains(','),
    ensures
        pieces(description, Separator::Comma) == seq![description],
{
    assert forall|i: int| 0 <= i < description.len() implies !Separator::Comma.separates(
        #[trigger] description[i],
    ) by {
        assert(description.contains(description[i]));
    }
    text_without_separators_is_one_piece(description, Separator::Comma);
}

/// A description without commas offers its words, without the size if the last
/// word is one: all of them first, then one word less each time, down to the
/// first word alone.
pub proof fn every_start_of_the_words_is_offered(description: Seq<char>, i: int)
    requires
        !description.contains(','),
    ensures
        ({
            let found = words(description);
            let n = if found.len() > 0 && is_float(without_px(found.last())) {
                found.len() - 1
            } else {
                found.len() as int
            };
            &&& pango_families(description).len() == n
            &&& 0 <= i < n ==> pango_families(description)[i] == spaced(found.take(n - i))
        }),
{
    lemma_without_comma(description);
    let all = pieces(description, Separator::Comma);
    assert(all.drop_last() =~= Seq::empty());
    reveal(Seq::filter);
    assert(listed_families(description) =~= Seq::empty());
    lemma_words_of_trimmed(description);
    let kept = last_family_words(description);
    assert(all.last() == description);
    let found = words(description);
    let n = kept.len() as int;
    assert(kept =~= found.take(n));
    if 0 <= i < n {
        assert(kept.take(n - i) =~= found.take(n - i));
        lemma_spaced_is_joined(found.take(n - i));
    }
}

/// White space at the ends of a text makes no words.
proof fn lemma_words_of_trimmed(text: Seq<char>)
    ensures
        words(trimmed(text)) == words(text),
{
    lemma_words_of_trim_start(text);
    lemma_words_of_trim_end(trim_start(text));
}

proof fn lemma_words_of_trim_start(text: Seq<char>)
    ensures
        words(trim_start(text)) == words(text),
    decreases text.len(),
{
    if text.len() > 0 && is_white_space(text.first()) {
        let rest = text.drop_first();
        lemma_words_of_trim_start(rest);
        let nothing = Seq::<char>::empty();
        words_add_up(nothing, text.first(), rest);
        text_without_white_space_is_one_word(nothing);
        assert(nothing + seq![text.first()] + rest =~= text);
        assert(Seq::<Seq<char>>::empty() + words(rest) =~= words(rest));
    }
}

proof fn lemma_words_of_trim_end(text: Seq<char>)
    ensures
        words(trim_end(text)) == words(text),
    decreases text.len(),
{
    if text.len() > 0 && is_white_space(text.last()) {
        let rest = text.drop_last();
        lemma_words_of_trim_end(rest);
        let nothing = Seq::<char>::empty();
        words_add_up(rest, text.last(), nothing);
        text_without_white_space_is_one_word(nothing);
        assert(rest + seq![text.last()] + nothing =~= text);
        assert(words(rest) + Seq::<Seq<char>>::empty() =~= words(rest));
    }
}

/// A description that is some words and a size offers as many families as there
/// are words. The first is all the words, and each is followed by the one that
/// has a word less. A size is a number, with `px` behind it or without.
pub proof fn words_before_a_size_are_offered(
    list: Seq<Seq<char>>,
    number: Seq<char>,
    in_pixels: bool,
    i: int,
)
    requires
        list.len() > 0,
        forall|j: int| 0 <= j < list.len() ==> could_be_a_word(#[trigger] list[j]),
        could_be_a_word(number),
        is_float(number),
        0 <= i < list.len(),
    ensures
        ({
            let size = if in_pixels {
                number + seq!['p', 'x']
            } else {
                number
            };
            let description = spaced(list) + seq![' '] + size;
            &&& pango_families(description).len() == list.len()
            &&& pango_families(description)[0] == spaced(list)
            &&& pango_families(description)[i] == spaced(list.take(list.len() - i))
        }),
{
    let size = if in_pixels {
        number + seq!['p', 'x']
    } else {
        number
    };
    let all = list.push(size);
    let description = spaced(list) + seq![' '] + size;
    assert(could_be_a_word(size)) by {
        assert forall|j: int| 0 <= j < size.len() implies !is_white_space(#[trigger] size[j])
            && size[j] != ',' by {
            if j < number.len() {
                assert(size[j] == number[j]);
            }
        }
    }
    assert forall|j: int| 0 <= j < all.len() implies could_be_a_word(#[trigger] all[j]) by {
        if j < list.len() {
            assert(all[j] == list[j]);
        }
    }
    lemma_spaced_push(list, size);
    lemma_words_of_spaced(all);
    float_has_no_p(number);
    only_px_is_dropped(number);
    assert(without_px(size) == number) by {
        if number.len() >= 2 {
            assert(number.contains(number[number.len() - 2]));
        }
    }
    assert(!description.contains(','));
    every_start_of_the_words_is_offered(description, i);
    every_start_of_the_words_is_offered(description, 0);
    let n = list.len() as int;
    assert(all.take(n) =~= list);
    assert(all.take(n - i) =~= list.take(n - i));
}

/// A description whose last word is no size offers all its words.
pub proof fn words_without_a_size_are_offered(list: Seq<Seq<char>>, i: int)
    requires
        list.len() > 0,
        forall|j: int| 0 <= j < list.len() ==> could_be_a_word(#[trigger] list[j]),
        !is_float(without_px(list.last())),
        0 <= i < list.len(),
    ensures
        pango_families(spaced(list)).len() == list.len(),
        pango_families(spaced(list))[0] == spaced(list),
        pango_families(spaced(list))[i] == spaced(list.take(list.len() - i)),
{
    lemma_words_of_spaced(list);
    assert(!spaced(list).contains(','));
    every_start_of_the_words_is_offered(spaced(list), i);
    every_start_of_the_words_is_offered(spaced(list), 0);
    assert(list.take(list.len() as int) =~= list);
}

/// What stands before a comma is a family of its own, trimmed and unless nothing
/// is left of it, ahead of what the rest of the description offers.
pub proof fn families_before_commas_come_first(family: Seq<char>, rest: Seq<char>)
    requires
        !family.contains(','),
    ensures
        pango_families(family + seq![','] + rest) == (if trimmed(family).len() > 0 {
            seq![trimmed(family)]
        } else {
            Seq::empty()
        }) + pango_families(rest),
{
    lemma_without_comma(family);
    pieces_add_up(family, Separator::Comma, ',', rest);
    lemma_pieces(rest, Separator::Comma);
    let after = pieces(rest, Separator::Comma);
    let all = pieces(family + seq![','] + rest, Separator::Comma);
    assert(all == seq![family] + after);
    assert(all.last() == after.last());
    let trims = after.drop_last().map_values(|piece: Seq<char>| trimmed(piece));
    let keeps = |text: Seq<char>| text.len() > 0;
    assert(all.drop_last().map_values(|piece: Seq<char>| trimmed(piece)) =~= seq![
        trimmed(family),
    ] + trims);
    lemma_filter_adds_up(seq![trimmed(family)], trims, keeps);
    reveal_with_fuel(Seq::filter, 2);
    assert(seq![trimmed(family)].drop_last() =~= Seq::empty());
    assert(seq![trimmed(family)].filter(keeps) =~= if trimmed(family).len() > 0 {
        seq![trimmed(family)]
    } else {
        Seq::empty()
    });
    assert(pango_families(family + seq![','] + rest) =~= (if trimmed(family).len() > 0 {
        seq![trimmed(family)]
    } else {
        Seq::empty()
    }) + pango_families(rest));
}

/// Of a Qt font string only what stands before the first comma counts: it is the
/// one family, trimmed, unless nothing is left of it.
pub proof fn qt_family_stands_before_the_first_comma(family: Seq<char>, rest: Seq<char>)
    requires
        !family.contains(','),
    ensures
        qt_families(family) == (if trimmed(family).len() > 0 {
            seq![trimmed(family)]
        } else {
            Seq::empty()
        }),
        qt_families(family + seq![','] + rest) == qt_families(family),
{
    lemma_without_comma(family);
    pieces_add_up(family, Separator::Comma, ',', rest);
    assert((seq![family] + pieces(rest, Separator::Comma)).first() == family);
}

/// A list of texts holds its texts, in order.
pub proof fn owned_lists_hold_their_texts(list: Seq<String>, i: int)
    requires
        0 <= i < list.len(),
    ensures
        texts(list).len() == list.len(),
        texts(list)[i] == list[i]@,
{
}

} // verus!

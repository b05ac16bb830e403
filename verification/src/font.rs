//! The font families that a desktop setting names.
use vstd::prelude::*;

use crate::decimal::{is_float, reads_as_float};
use crate::text::{
    contents, join_words, joined, non_empty, pieces, split, split_whitespace, strip_px, trim,
    trimmed, without_px, words, Separator,
};

verus! {

/// True of the last word of a Pango description if it is a size: a number, with
/// `px` behind it or without.
pub open spec fn is_size(word: Seq<char>) -> bool {
    is_float(without_px(word))
}

/// The words of a family and its style, without the size.
pub open spec fn without_size(words: Seq<Seq<char>>) -> Seq<Seq<char>> {
    if words.len() > 0 && is_size(words.last()) {
        words.drop_last()
    } else {
        words
    }
}

/// What the words may mean as a family: all of them, all but the last, and so on.
pub open spec fn longest_first(words: Seq<Seq<char>>) -> Seq<Seq<char>> {
    Seq::new(words.len(), |i: int| joined(words.take(words.len() - i)))
}

/// The families that stand alone in a Pango description: all between commas but
/// the last.
pub open spec fn listed_families(description: Seq<char>) -> Seq<Seq<char>> {
    non_empty(
        pieces(description, Separator::Comma).drop_last().map_values(
            |piece: Seq<char>| trimmed(piece),
        ),
    )
}

/// The words behind the last comma of a Pango description, without the size.
pub open spec fn last_family_words(description: Seq<char>) -> Seq<Seq<char>> {
    without_size(words(trimmed(pieces(description, Separator::Comma).last())))
}

/// The candidate families of a Pango description.
pub open spec fn pango_families(description: Seq<char>) -> Seq<Seq<char>> {
    listed_families(description) + longest_first(last_family_words(description))
}

/// The families of a Qt font string: what stands before the first comma, if anything.
pub open spec fn qt_families(description: Seq<char>) -> Seq<Seq<char>> {
    let family = trimmed(pieces(description, Separator::Comma).first());
    if family.len() > 0 {
        seq![family]
    } else {
        Seq::empty()
    }
}

/// What a list of texts holds.
pub open spec fn texts(list: Seq<String>) -> Seq<Seq<char>> {
    list.map_values(|text: String| text@)
}

proof fn lemma_there_is_a_piece(text: Seq<char>, separator: Separator)
    ensures
        pieces(text, separator).len() > 0,
    decreases text.len(),
{
    if text.len() > 0 {
        lemma_there_is_a_piece(text.drop_last(), separator);
    }
}

/// Candidate families for a Pango description such as `Ubuntu Sans Bold 11`,
/// longest first, since style words and the family share one space-separated list.
pub fn pango_font_families(description: &str) -> (families: Vec<String>)
    ensures
        texts(families@) == pango_families(description@),
{
    let parts = split(description, Separator::Comma);
    let ghost all = pieces(description@, Separator::Comma);
    let ghost trims = all.drop_last().map_values(|piece: Seq<char>| trimmed(piece));
    let ghost keeps = |text: Seq<char>| text.len() > 0;
    proof {
        lemma_there_is_a_piece(description@, Separator::Comma);
        assert(contents(parts@).len() == parts@.len());
    }
    let count: usize = parts.len();
    let mut candidates: Vec<String> = Vec::new();
    let mut i: usize = 0;
    proof {
        reveal(Seq::filter);
        assert(texts(candidates@) =~= trims.take(0).filter(keeps));
    }
    while i < count - 1
        invariant
            count == parts@.len(),
            count == all.len(),
            count > 0,
            i <= count - 1,
            contents(parts@) == all,
            trims == all.drop_last().map_values(|piece: Seq<char>| trimmed(piece)),
            keeps == (|text: Seq<char>| text.len() > 0),
            texts(candidates@) == trims.take(i as int).filter(keeps),
        decreases count - i,
    {
        let ghost before = texts(candidates@);
        let family = trim(parts[i]);
        proof {
            reveal(Seq::filter);
            assert(contents(parts@)[i as int] == parts@[i as int]@);
            assert(trims.take(i + 1).drop_last() =~= trims.take(i as int));
            assert(trims.take(i + 1).last() == family@);
        }
        if !family.is_empty() {
            candidates.push(family.to_owned());
            assert(texts(candidates@) =~= before.push(family@));
        }
        i += 1;
    }
    proof {
        assert(trims.take(i as int) =~= trims);
        assert(contents(parts@)[count - 1] == parts@[count - 1]@);
    }
    let last = trim(parts[count - 1]);
    let words = split_whitespace(last);
    let mut length: usize = words.len();
    let ghost whole = contents(words@);
    if length > 0 {
        assert(whole[length - 1] == words@[length - 1]@);
        if reads_as_float(strip_px(words[length - 1])) {
            length -= 1;
        }
    }
    let ghost kept = without_size(whole);
    let ghost listed = texts(candidates@);
    assert(kept =~= whole.take(length as int));
    let mut len: usize = length;
    assert(texts(candidates@) =~= listed + longest_first(kept).take(0));
    while len > 0
        invariant
            len <= length <= words@.len(),
            whole == contents(words@),
            kept == whole.take(length as int),
            kept.len() == length,
            texts(candidates@) == listed + longest_first(kept).take(length - len),
        decreases len,
    {
        let ghost before = texts(candidates@);
        let candidate = join_words(&words, len);
        proof {
            assert(kept.take(len as int) =~= whole.take(len as int));
        }
        candidates.push(candidate);
        proof {
            assert(longest_first(kept)[length - len] == candidate@);
            assert(texts(candidates@) =~= before.push(candidate@));
            assert(texts(candidates@) =~= listed + longest_first(kept).take(length - len + 1));
        }
        len -= 1;
    }
    assert(longest_first(kept).take(length as int) =~= longest_first(kept));
    candidates
}

/// The family of a Qt font string such as `Noto Sans,10,-1,5,50,0,0,0,0,0`.
pub fn qt_font_families(description: &str) -> (families: Vec<String>)
    ensures
        texts(families@) == qt_families(description@),
{
    let parts = split(description, Separator::Comma);
    let mut families: Vec<String> = Vec::new();
    proof {
        lemma_there_is_a_piece(description@, Separator::Comma);
        assert(contents(parts@).len() == parts@.len());
        assert(contents(parts@)[0] == parts@[0]@);
    }
    let family = trim(parts[0]);
    if !family.is_empty() {
        families.push(family.to_owned());
    }
    assert(texts(families@) =~= qt_families(description@));
    families
}

} // verus!

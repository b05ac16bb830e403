//! Splitting and reading of short settings texts, character by character.
use vstd::prelude::*;
use vstd::string::*;

verus! {

/// True of the characters that Unicode gives the property `White_Space`.
pub open spec fn is_white_space(c: char) -> bool {
    ||| '\u{9}' <= c <= '\u{d}'
    ||| c == '\u{20}'
    ||| c == '\u{85}'
    ||| c == '\u{a0}'
    ||| c == '\u{1680}'
    ||| '\u{2000}' <= c <= '\u{200a}'
    ||| c == '\u{2028}'
    ||| c == '\u{2029}'
    ||| c == '\u{202f}'
    ||| c == '\u{205f}'
    ||| c == '\u{3000}'
}

/// The text without the white space at its start.
pub open spec fn trim_start(text: Seq<char>) -> Seq<char>
    decreases text.len(),
{
    if text.len() > 0 && is_white_space(text.first()) {
        trim_start(text.drop_first())
    } else {
        text
    }
}

/// The text without the white space at its end.
pub open spec fn trim_end(text: Seq<char>) -> Seq<char>
    decreases text.len(),
{
    if text.len() > 0 && is_white_space(text.last()) {
        trim_end(text.drop_last())
    } else {
        text
    }
}

/// The text without the white space at its ends.
pub open spec fn trimmed(text: Seq<char>) -> Seq<char> {
    trim_end(trim_start(text))
}

/// What a text is split at.
#[derive(Clone, Copy, Debug, PartialEq, Eq, Structural)]
pub enum Separator {
    Comma,
    WhiteSpace,
}

impl Separator {
    /// True of a character at which the text is split.
    pub open spec fn separates(self, c: char) -> bool {
        match self {
            Separator::Comma => c == ',',
            Separator::WhiteSpace => is_white_space(c),
        }
    }
}

/// The pieces of a text between separators. There is one more than there are
/// separators, and a piece may be empty.
pub open spec fn pieces(text: Seq<char>, separator: Separator) -> Seq<Seq<char>>
    decreases text.len(),
{
    if text.len() == 0 {
        seq![Seq::empty()]
    } else {
        let before = pieces(text.drop_last(), separator);
        if separator.separates(text.last()) {
            before.push(Seq::empty())
        } else {
            before.drop_last().push(before.last().push(text.last()))
        }
    }
}

/// The texts that are not empty.
pub open spec fn non_empty(texts: Seq<Seq<char>>) -> Seq<Seq<char>> {
    texts.filter(|text: Seq<char>| text.len() > 0)
}

/// The words of a text: what white space separates.
pub open spec fn words(text: Seq<char>) -> Seq<Seq<char>> {
    non_empty(pieces(text, Separator::WhiteSpace))
}

/// The words with one space between each two.
pub open spec fn joined(words: Seq<Seq<char>>) -> Seq<char>
    decreases words.len(),
{
    if words.len() == 0 {
        Seq::empty()
    } else if words.len() == 1 {
        words[0]
    } else {
        joined(words.drop_last()) + seq![' '] + words.last()
    }
}

/// The text without any `px` at its end.
pub open spec fn without_px(text: Seq<char>) -> Seq<char>
    decreases text.len(),
{
    if text.len() >= 2 && text[text.len() - 2] == 'p' && text[text.len() - 1] == 'x' {
        without_px(text.take(text.len() - 2))
    } else {
        text
    }
}

/// What a list of texts holds.
pub open spec fn contents(texts: Seq<&str>) -> Seq<Seq<char>> {
    texts.map_values(|text: &str| text@)
}

/// The characters of a text.
pub fn characters(text: &str) -> (characters: Vec<char>)
    ensures
        characters@ == text@,
{
    let mut characters: Vec<char> = Vec::new();
    for c in iter: text.chars()
        invariant
            characters@ == text@.take(iter.index() as int),
            iter.seq() == text@,
    {
        characters.push(c);
        assert(characters@ =~= text@.take(iter.index() + 1));
    }
    assert(text@.take(text@.len() as int) =~= text@);
    characters
}

/// Tells whether a character is white space.
pub fn white_space(c: char) -> (white: bool)
    ensures
        white == is_white_space(c),
{
    ('\u{9}' <= c && c <= '\u{d}') || c == '\u{20}' || c == '\u{85}' || c == '\u{a0}' || c
        == '\u{1680}' || ('\u{2000}' <= c && c <= '\u{200a}') || c == '\u{2028}' || c == '\u{2029}'
        || c == '\u{202f}' || c == '\u{205f}' || c == '\u{3000}'
}

/// The text without the white space at its ends.
pub fn trim(text: &str) -> (result: &str)
    ensures
        result@ == trimmed(text@),
{
    let characters = characters(text);
    let mut from: usize = 0;
    assert(text@.skip(0) =~= text@);
    while from < characters.len() && white_space(characters[from])
        invariant
            characters@ == text@,
            from <= text@.len(),
            trim_start(text@) == trim_start(text@.skip(from as int)),
        decreases text@.len() - from,
    {
        proof {
            assert(text@.skip(from as int).first() == text@[from as int]);
            assert(text@.skip(from as int).drop_first() =~= text@.skip(from + 1));
        }
        from += 1;
    }
    let ghost rest = text@.skip(from as int);
    assert(trim_start(text@) == rest) by {
        if from < text@.len() {
            assert(rest.first() == text@[from as int]);
        }
    }
    let mut to: usize = characters.len();
    assert(rest.take(rest.len() as int) =~= rest);
    while to > from && white_space(characters[to - 1])
        invariant
            characters@ == text@,
            from <= to <= text@.len(),
            rest == text@.skip(from as int),
            trim_end(rest) == trim_end(rest.take(to - from)),
        decreases to,
    {
        proof {
            assert(rest.take(to - from).last() == text@[to - 1]);
            assert(rest.take(to - from).drop_last() =~= rest.take(to - from - 1));
        }
        to -= 1;
    }
    proof {
        if to > from {
            assert(rest.take(to - from).last() == text@[to - 1]);
        }
        assert(rest.take(to - from) =~= text@.subrange(from as int, to as int));
    }
    text.substring_char(from, to)
}

/// The pieces of a text between separators.
pub fn split<'a>(text: &'a str, separator: Separator) -> (result: Vec<&'a str>)
    ensures
        contents(result@) == pieces(text@, separator),
{
    let characters = characters(text);
    let mut result: Vec<&'a str> = Vec::new();
    let mut from: usize = 0;
    let mut i: usize = 0;
    proof {
        assert(text@.take(0) =~= Seq::empty());
        assert(contents(result@).push(text@.subrange(0, 0)) =~= pieces(text@.take(0), separator));
    }
    while i < characters.len()
        invariant
            characters@ == text@,
            from <= i <= text@.len(),
            contents(result@).push(text@.subrange(from as int, i as int)) == pieces(
                text@.take(i as int),
                separator,
            ),
        decreases text@.len() - i,
    {
        let c = characters[i];
        let ghost before = contents(result@);
        let ghost piece = text@.subrange(from as int, i as int);
        proof {
            assert(text@.take(i + 1).drop_last() =~= text@.take(i as int));
            assert(text@.take(i + 1).last() == c);
            assert(before.push(piece).drop_last() =~= before);
        }
        let splits = match separator {
            Separator::Comma => c == ',',
            Separator::WhiteSpace => white_space(c),
        };
        if splits {
            result.push(text.substring_char(from, i));
            from = i + 1;
            proof {
                assert(contents(result@) =~= before.push(piece));
                assert(text@.subrange(i + 1, i + 1) =~= Seq::empty());
            }
        } else {
            proof {
                assert(text@.subrange(from as int, i + 1) =~= piece.push(c));
            }
        }
        i += 1;
    }
    let ghost before = contents(result@);
    result.push(text.substring_char(from, i));
    proof {
        assert(text@.take(i as int) =~= text@);
        assert(contents(result@) =~= before.push(text@.subrange(from as int, i as int)));
    }
    result
}

/// The words of a text: what white space separates.
pub fn split_whitespace<'a>(text: &'a str) -> (result: Vec<&'a str>)
    ensures
        contents(result@) == words(text@),
{
    let all = split(text, Separator::WhiteSpace);
    let mut result: Vec<&'a str> = Vec::new();
    let ghost keeps = |text: Seq<char>| text.len() > 0;
    let mut i: usize = 0;
    proof {
        reveal(Seq::filter);
        assert(contents(result@) =~= contents(all@).take(0).filter(keeps));
    }
    while i < all.len()
        invariant
            i <= all@.len(),
            keeps == (|text: Seq<char>| text.len() > 0),
            contents(result@) == contents(all@).take(i as int).filter(keeps),
        decreases all@.len() - i,
    {
        let ghost before = contents(result@);
        proof {
            reveal(Seq::filter);
            let next = contents(all@).take(i + 1);
            assert(next.drop_last() =~= contents(all@).take(i as int));
            assert(next.last() == all@[i as int]@);
        }
        if !all[i].is_empty() {
            result.push(all[i]);
            assert(contents(result@) =~= before.push(all@[i as int]@));
        }
        i += 1;
    }
    assert(contents(all@).take(i as int) =~= contents(all@));
    result
}

/// The first `count` words with one space between each two.
pub fn join_words(words: &Vec<&str>, count: usize) -> (result: String)
    requires
        count <= words@.len(),
    ensures
        result@ == joined(contents(words@).take(count as int)),
{
    let mut result = String::new();
    let mut i: usize = 0;
    while i < count
        invariant
            i <= count <= words@.len(),
            result@ == joined(contents(words@).take(i as int)),
        decreases count - i,
    {
        proof {
            let next = contents(words@).take(i + 1);
            assert(next.drop_last() =~= contents(words@).take(i as int));
            assert(next.last() == words@[i as int]@);
            reveal_strlit(" ");
            assert(" "@ =~= seq![' ']);
        }
        if i > 0 {
            result.append(" ");
        }
        result.append(words[i]);
        proof {
            assert(result@ =~= joined(contents(words@).take(i + 1)));
        }
        i += 1;
    }
    result
}

/// The text without any `px` at its end.
#[verifier::spinoff_prover]
pub fn strip_px(text: &str) -> (result: &str)
    ensures
        result@ == without_px(text@),
{
    let characters = characters(text);
    let mut to: usize = characters.len();
    assert(text@.take(to as int) =~= text@);
    while to >= 2 && characters[to - 2] == 'p' && characters[to - 1] == 'x'
        invariant
            characters@ == text@,
            to <= text@.len(),
            without_px(text@) == without_px(text@.take(to as int)),
        decreases to,
    {
        proof {
            let rest = text@.take(to as int);
            assert(rest[rest.len() - 2] == text@[to - 2]);
            assert(rest[rest.len() - 1] == text@[to - 1]);
            assert(rest.take(rest.len() - 2) =~= text@.take(to - 2));
        }
        to -= 2;
    }
    proof {
        let rest = text@.take(to as int);
        if to >= 2 {
            assert(rest[rest.len() - 2] == text@[to - 2]);
            assert(rest[rest.len() - 1] == text@[to - 1]);
        }
        assert(without_px(rest) == rest);
        assert(rest =~= text@.subrange(0, to as int));
    }
    text.substring_char(0, to)
}

} // verus!

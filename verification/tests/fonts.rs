use gpui_platform::decimal::reads_as_float;
use gpui_platform::font::{pango_font_families, qt_font_families};
use gpui_platform::text::{
    characters, join_words, split, split_whitespace, strip_px, trim, white_space, Separator,
};

#[test]
fn pango_descriptions_offer_the_family_before_style_and_size() {
    assert_eq!(
        pango_font_families("Ubuntu Sans 11"),
        ["Ubuntu Sans", "Ubuntu"]
    );
    assert_eq!(
        pango_font_families("Noto Sans Bold 10.5"),
        ["Noto Sans Bold", "Noto Sans", "Noto"]
    );
    assert_eq!(
        pango_font_families("Cantarell, Noto Sans 11"),
        ["Cantarell", "Noto Sans", "Noto"]
    );
    assert!(pango_font_families("").is_empty());
}

#[test]
fn qt_font_strings_offer_their_family() {
    assert_eq!(
        qt_font_families("Noto Sans,10,-1,5,50,0,0,0,0,0"),
        ["Noto Sans"]
    );
    assert!(qt_font_families(",10").is_empty());
}

#[test]
fn sizes_in_pixels_are_no_families() {
    assert_eq!(pango_font_families("Inter 12px"), ["Inter"]);
    assert_eq!(pango_font_families("Inter 12pxpx"), ["Inter"]);
    assert_eq!(pango_font_families("Inter px"), ["Inter px", "Inter"]);
    assert_eq!(pango_font_families("Inter -1e3"), ["Inter"]);
    assert_eq!(pango_font_families("Inter NaN"), ["Inter"]);
    assert_eq!(pango_font_families("Inter 12pt"), ["Inter 12pt", "Inter"]);
    assert_eq!(pango_font_families("Inter 12 13"), ["Inter 12", "Inter"]);
    assert!(pango_font_families("12").is_empty());
}

#[test]
fn blanks_around_families_are_dropped() {
    assert_eq!(pango_font_families("  A  B\t\u{3000}11 "), ["A B", "A"]);
    assert_eq!(pango_font_families(" A 1 ,, B C ,\u{a0}D 9"), ["A 1", "B C", "D"]);
    assert_eq!(pango_font_families("A,"), ["A"]);
    assert!(pango_font_families(" , ,").is_empty());
    assert_eq!(qt_font_families("\u{2003}Noto  Sans\n,1"), ["Noto  Sans"]);
    assert_eq!(qt_font_families("Alone"), ["Alone"]);
    assert!(qt_font_families("").is_empty());
    assert!(qt_font_families(" \t ").is_empty());
}

fn reference_pango(description: &str) -> Vec<String> {
    let mut families: Vec<&str> = description.split(',').map(str::trim).collect();
    let last = families.pop().unwrap_or("");
    let mut words: Vec<&str> = last.split_whitespace().collect();
    if words.last().is_some_and(|w| w.trim_end_matches("px").parse::<f32>().is_ok()) {
        words.pop();
    }
    let mut result: Vec<String> =
        families.into_iter().filter(|f| !f.is_empty()).map(str::to_owned).collect();
    result.extend((1..=words.len()).rev().map(|len| words[..len].join(" ")));
    result
}

/// Every text of up to `length` of the given pieces.
fn combinations(pieces: &[&str], length: usize) -> Vec<String> {
    let mut all = vec![String::new()];
    let mut from = 0;
    for _ in 0..length {
        let to = all.len();
        for i in from..to {
            for piece in pieces {
                let text = format!("{}{}", all[i], piece);
                all.push(text);
            }
        }
        from = to;
    }
    all
}

#[test]
fn families_agree_with_std_text_functions() {
    for text in combinations(&["a", "é", ",", " ", "\u{2009}", "1", "px", "."], 5) {
        assert_eq!(pango_font_families(&text), reference_pango(&text), "{text:?}");
        let qt: Vec<String> = text
            .split(',')
            .next()
            .map(str::trim)
            .filter(|family| !family.is_empty())
            .map(|family| vec![family.to_owned()])
            .unwrap_or_default();
        assert_eq!(qt_font_families(&text), qt, "{text:?}");
    }
}

#[test]
fn white_space_is_what_unicode_says() {
    for c in '\0'..=char::MAX {
        assert_eq!(white_space(c), c.is_whitespace(), "{c:?}");
    }
}

#[test]
fn floats_are_what_std_reads() {
    for text in combinations(&["1", "0", ".", "e", "E", "+", "-", "x"], 5) {
        assert_eq!(reads_as_float(&text), text.parse::<f32>().is_ok(), "{text:?}");
    }
    for word in ["inf", "infinity", "nan"] {
        for text in [word.to_string(), word.to_uppercase(), format!("-{word}"), format!("+{word}")]
        {
            assert!(reads_as_float(&text));
            assert!(text.parse::<f32>().is_ok());
        }
    }
    for text in [
        "Infinit", "infinityx", "na", "nanx", "--nan", "INFinity", "iNf", "NaN", "1_0", " 1", "1 ",
        "1e", "1e+", "1e400", "1e-400", "0x1", "1f32", "\u{661}", "1\u{e9}", "9999999999999999999999",
    ] {
        assert_eq!(reads_as_float(text), text.parse::<f32>().is_ok(), "{text:?}");
    }
}

#[test]
fn text_functions_agree_with_std() {
    for text in combinations(&["a", "é", ",", " ", "\u{85}", "\n", "px"], 5) {
        assert_eq!(trim(&text), text.trim());
        assert_eq!(characters(&text), text.chars().collect::<Vec<char>>());
        assert_eq!(split(&text, Separator::Comma), text.split(',').collect::<Vec<&str>>());
        let words: Vec<&str> = text.split_whitespace().collect();
        assert_eq!(split_whitespace(&text), words);
        assert_eq!(strip_px(&text), text.trim_end_matches("px"));
        for count in 0..=words.len() {
            assert_eq!(join_words(&words, count), words[..count].join(" "));
        }
    }
}

#[test]
fn families_are_clean_and_longest_first() {
    let families = pango_font_families(" One ,Two  Three, Four Five Six 8");
    assert_eq!(families, ["One", "Two  Three", "Four Five Six", "Four Five", "Four"]);
    for family in &families {
        assert!(!family.is_empty());
        assert_eq!(family.trim(), family);
        assert!(!family.contains(','));
    }
}

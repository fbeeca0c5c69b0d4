use convert_bdf::charset::{choose_glyphs, missing_chars};

fn codes(text: &str) -> Vec<u32> {
    text.chars().map(|c| c as u32).collect()
}

#[test]
fn every_glyph_is_taken_where_none_is_named() {
    assert_eq!(choose_glyphs(&codes("abca"), &codes("")), vec![true, true, true, true]);
    assert_eq!(choose_glyphs(&codes(""), &codes("")), Vec::<bool>::new());
    assert_eq!(missing_chars(&codes("abc"), &codes("")), Vec::<u32>::new());
}

#[test]
fn wanted_glyphs_are_taken_once() {
    assert_eq!(choose_glyphs(&codes("abcab"), &codes("bz")), vec![false, true, false, false, false]);
    assert_eq!(choose_glyphs(&codes("aab"), &codes("ab")), vec![true, false, true]);
    assert_eq!(choose_glyphs(&codes("abc"), &codes("x")), vec![false, false, false]);
    assert_eq!(choose_glyphs(&codes(""), &codes("x")), Vec::<bool>::new());
}

#[test]
fn characters_without_a_glyph_are_missing() {
    assert_eq!(missing_chars(&codes("abc"), &codes("azbx")), codes("zx"));
    assert_eq!(missing_chars(&codes("abc"), &codes("cba")), Vec::<u32>::new());
    assert_eq!(missing_chars(&codes(""), &codes("ba")), codes("ba"));
}

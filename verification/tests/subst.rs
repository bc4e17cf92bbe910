use textpp::defs::Defs;
use textpp::subst::{
    find_double_dollar_end, find_double_hash_end, find_pair, is_ident, is_ident_chars,
    replace_dollar_vars, replace_hash_vars, substitute,
};

fn defs_of(definitions: &[&str]) -> Defs {
    let mut defs = Defs::new();
    for definition in definitions {
        defs.define(definition);
    }
    defs
}

fn chars(s: &str) -> Vec<char> {
    s.chars().collect()
}

#[test]
fn names_are_letters_digits_and_underscores() {
    for s in ["a", "A", "_", "_1", "a1", "VAR_2", "__x__", "Z9z"] {
        assert!(is_ident(s), "{:?}", s);
        assert!(is_ident_chars(&chars(s)), "{:?}", s);
    }
    for s in ["", "1", "1a", "a-b", "a b", " a", "a ", "a.b", "\u{e9}", "a\u{e9}", "$", "a$"] {
        assert!(!is_ident(s), "{:?}", s);
        assert!(!is_ident_chars(&chars(s)), "{:?}", s);
    }
}

#[test]
fn the_first_doubled_delimiter_is_found() {
    let s = chars("ab$$cd$$$e");
    assert_eq!(find_double_dollar_end(&s, 0), Some(2));
    assert_eq!(find_double_dollar_end(&s, 2), Some(2));
    assert_eq!(find_double_dollar_end(&s, 3), Some(6));
    assert_eq!(find_double_dollar_end(&s, 4), Some(6));
    assert_eq!(find_double_dollar_end(&s, 7), Some(7));
    assert_eq!(find_double_dollar_end(&s, 8), None);
    assert_eq!(find_double_dollar_end(&s, 9), None);
    assert_eq!(find_double_dollar_end(&s, 10), None);
    assert_eq!(find_double_dollar_end(&s, 11), None);
    assert_eq!(find_double_dollar_end(&s, usize::MAX), None);
    assert_eq!(find_double_dollar_end(&[], 0), None);
    assert_eq!(find_double_dollar_end(&['$'], 0), None);
    assert_eq!(find_double_hash_end(&s, 0), None);
}

#[test]
fn the_hash_search_looks_for_hashes() {
    let s = chars("a##b#c##");
    assert_eq!(find_double_hash_end(&s, 0), Some(1));
    assert_eq!(find_double_hash_end(&s, 2), Some(6));
    assert_eq!(find_double_hash_end(&s, 7), None);
    assert_eq!(find_double_dollar_end(&s, 0), None);
    assert_eq!(find_pair(&s, 0, '#'), Some(1));
    assert_eq!(find_pair(&s, 0, 'b'), None);
    assert_eq!(find_pair(&chars("xbb"), 0, 'b'), Some(1));
}

#[test]
fn an_undefined_name_leaves_nothing() {
    let defs = Defs::new();
    assert_eq!(replace_dollar_vars("a $$NOPE$$ b", &defs), "a  b");
    assert_eq!(replace_hash_vars("a ##NOPE## b", &defs), "a  b");
}

#[test]
fn an_undefined_name_is_as_good_as_unset() {
    let defs = defs_of(&["X=1", "X="]);
    assert_eq!(replace_dollar_vars("[$$X$$]", &defs), "[]");
    assert_eq!(replace_hash_vars("[##X##]", &defs), "[]");
}

#[test]
fn a_defined_name_is_replaced_by_its_value() {
    let defs = defs_of(&["VAL=42", "NAME=Alice", "FLAG"]);
    assert_eq!(replace_dollar_vars("value $$VAL$$", &defs), "value 42");
    assert_eq!(replace_dollar_vars("$$NAME$$", &defs), "Alice");
    assert_eq!(replace_dollar_vars("$$FLAG$$!", &defs), "TRUE!");
    assert_eq!(replace_dollar_vars("$$VAL$$$$NAME$$", &defs), "42Alice");
    assert_eq!(replace_dollar_vars("$$VAL$$ $$VAL$$", &defs), "42 42");
    assert_eq!(replace_hash_vars("inc/part_##VAL##.txt", &defs), "inc/part_42.txt");
}

#[test]
fn a_span_without_a_name_is_deleted() {
    let defs = defs_of(&["A=1"]);
    assert_eq!(replace_dollar_vars("x$$1a$$y", &defs), "xy");
    assert_eq!(replace_dollar_vars("x$$ A $$y", &defs), "xy");
    assert_eq!(replace_dollar_vars("x$$$$y", &defs), "xy");
    assert_eq!(replace_dollar_vars("x$$a b$$y", &defs), "xy");
    assert_eq!(replace_dollar_vars("x$$A-$$y", &defs), "xy");
    assert_eq!(replace_hash_vars("x##1a##y", &defs), "xy");
    assert_eq!(replace_hash_vars("x####y", &defs), "xy");
}

#[test]
fn an_unclosed_span_stays() {
    let defs = defs_of(&["A=1"]);
    assert_eq!(replace_dollar_vars("a $$A", &defs), "a $$A");
    assert_eq!(replace_dollar_vars("$$", &defs), "$$");
    assert_eq!(replace_dollar_vars("$$$", &defs), "$$$");
    assert_eq!(replace_dollar_vars("a $$A$ b", &defs), "a $$A$ b");
    assert_eq!(replace_dollar_vars("$$A$$ and $$A", &defs), "1 and $$A");
    assert_eq!(replace_hash_vars("##A", &defs), "##A");
}

#[test]
fn spans_are_taken_from_left_to_right() {
    let defs = defs_of(&["A=1", "B=2"]);
    assert_eq!(replace_dollar_vars("$$A$$$", &defs), "1$");
    assert_eq!(replace_dollar_vars("$$$A$$", &defs), "");
    assert_eq!(replace_dollar_vars("$$$$$$", &defs), "$$");
    assert_eq!(replace_dollar_vars("$$A$$B$$A$$", &defs), "1B1");
    assert_eq!(replace_dollar_vars("$$A$$$$B$$", &defs), "12");
    assert_eq!(replace_dollar_vars("$A$$B$$", &defs), "$A2");
}

#[test]
fn text_outside_spans_is_unchanged() {
    let defs = defs_of(&["A=1"]);
    assert_eq!(replace_dollar_vars("", &defs), "");
    assert_eq!(replace_dollar_vars("plain", &defs), "plain");
    assert_eq!(replace_dollar_vars("$ # ## $", &defs), "$ # ## $");
    assert_eq!(replace_dollar_vars("##A##", &defs), "##A##");
    assert_eq!(replace_hash_vars("$$A$$", &defs), "$$A$$");
    assert_eq!(
        replace_dollar_vars("h\u{e9}llo $$A$$ w\u{f6}rld \u{2713}", &defs),
        "h\u{e9}llo 1 w\u{f6}rld \u{2713}"
    );
}

#[test]
fn values_are_not_substituted_again() {
    let defs = defs_of(&["A=$$B$$", "B=2"]);
    assert_eq!(replace_dollar_vars("$$A$$", &defs), "$$B$$");
}

#[test]
fn substitute_works_with_any_delimiter() {
    let defs = defs_of(&["A=1"]);
    assert_eq!(substitute(&chars("x%%A%%y"), '%', &defs), "x1y");
    assert_eq!(substitute(&chars("x$$A$$y"), '$', &defs), "x1y");
    assert_eq!(substitute(&chars("x$$A$$y"), '#', &defs), "x$$A$$y");
}

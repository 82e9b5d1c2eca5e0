use city_assets::logger::LogStyle;
use city_assets::paths::{join_path, Paths};
use city_assets::text::{capitalize, remove_occurrences, replace_spaces, same_text, trim_trailing};

#[test]
fn capitalize_first_letter() {
    assert_eq!(capitalize("mazowieckie"), "Mazowieckie");
    assert_eq!(capitalize("łódzkie"), "Łódzkie");
    assert_eq!(capitalize(""), "");
}

#[test]
fn trimming_repeats() {
    assert_eq!(trim_trailing("svg+xml+xml", "+xml"), "svg");
    assert_eq!(trim_trailing("abc", ""), "abc");
    assert_eq!(remove_occurrences("/a/thumb/b/thumb", "/thumb"), "/a/b");
    assert_eq!(replace_spaces("a b  c"), "a_b__c");
    assert_eq!(replace_spaces("a\tb\u{a0}c"), "a_b_c");
    assert!(same_text("ab", "ab"));
    assert!(!same_text("ab", "abc"));
}

#[test]
fn style_escapes() {
    assert_eq!(LogStyle::Red.escape(), "\u{1b}[31m");
    assert_eq!(LogStyle::Clear.escape(), "\u{1b}[0m");
    assert_eq!(LogStyle::Grey.code(), 90);
}

#[test]
fn workspace_layout() {
    let paths = Paths::new("/work");
    assert_eq!(paths.data, "/work/data");
    assert_eq!(paths.dataset, "/work/data/dane.csv");
    assert_eq!(paths.edited_backgrounds, "/work/data/edited-backgrounds");
    assert_eq!(join_path("/work/", "data"), "/work/data");
    assert_eq!(join_path("", "data"), "data");
}

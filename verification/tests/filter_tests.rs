use zip_extractor::filter::{filter_matches_exec, normalize_token_exec, parse_filter_exec};
use zip_extractor::text::{contains_sub, lower_str};

#[test]
fn parse_splits_trims_and_lowers() {
    let f = parse_filter_exec("pdf, jpg, png");
    assert_eq!(f, vec!["pdf".to_string(), "jpg".to_string(), "png".to_string()]);
}

#[test]
fn parse_strips_leading_dots_and_drops_empties() {
    let f = parse_filter_exec(" .PDF ,,  jpG ,.");
    assert_eq!(f, vec!["pdf".to_string(), "jpg".to_string()]);
}

#[test]
fn parse_of_empty_text_is_empty() {
    assert!(parse_filter_exec("").is_empty());
    assert!(parse_filter_exec(",,,").is_empty());
    assert!(parse_filter_exec("  , . ,").is_empty());
}

#[test]
fn normalize_keeps_inner_dots() {
    assert_eq!(normalize_token_exec("..t.AR"), "t.ar");
    assert_eq!(normalize_token_exec("  zip  "), "zip");
    assert_eq!(normalize_token_exec("..."), "");
}

#[test]
fn empty_filter_matches_everything() {
    let f: Vec<String> = Vec::new();
    assert!(filter_matches_exec(&f, &Some("pdf".to_string())));
    assert!(filter_matches_exec(&f, &None));
}

#[test]
fn nonempty_filter_matches_lowered_extension_only() {
    let f = parse_filter_exec("pdf,jpg");
    assert!(filter_matches_exec(&f, &Some("PDF".to_string())));
    assert!(filter_matches_exec(&f, &Some("jpg".to_string())));
    assert!(!filter_matches_exec(&f, &Some("png".to_string())));
    assert!(!filter_matches_exec(&f, &None));
}

#[test]
fn lowering_touches_ascii_letters_only() {
    assert_eq!(lower_str("PDF"), "pdf");
    assert_eq!(lower_str("MiXeD123"), "mixed123");
    assert_eq!(lower_str("a-b_c"), "a-b_c");
}

#[test]
fn substring_search_finds_the_marker() {
    assert!(contains_sub("a/__MACOSX/b", "__MACOSX"));
    assert!(contains_sub("__MACOSX", "__MACOSX"));
    assert!(!contains_sub("a/_MACOSX/b", "__MACOSX"));
    assert!(!contains_sub("short", "__MACOSX"));
}

#[test]
fn normalization_folds_beyond_ascii() {
    assert_eq!(normalize_token_exec(" .P\u{c9} "), "p\u{e9}");
    let f1 = parse_filter_exec("P\u{c9}, pdf");
    let f2 = parse_filter_exec(" .p\u{e9} ,PDF");
    assert_eq!(f1, f2);
}

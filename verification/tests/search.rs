use meow::path::{split_path, FileParts};
use meow::search::entry_matches;

#[test]
fn word_is_found_in_the_name_in_any_case() {
    let p = split_path("/home/u/Docs/Hostel_Fees.PDF");
    assert!(entry_matches(&p, "fees"));
    assert!(entry_matches(&p, "HOSTEL"));
    assert!(entry_matches(&p, ".pdf"));
    assert!(entry_matches(&p, ""));
    assert!(!entry_matches(&p, "docs"));
    assert!(!entry_matches(&p, "fee s"));
}

#[test]
fn letters_outside_ascii_are_lowercased_too() {
    let p = split_path("/x/R\u{c9}SUM\u{c9}.txt");
    assert!(entry_matches(&p, "r\u{e9}sum\u{e9}"));
    assert!(entry_matches(&p, "R\u{c9}SUM"));
}

#[test]
fn entry_without_a_name_is_found_by_the_empty_word_only() {
    let p = FileParts { path: "/".to_string(), file_name: None, folder: None };
    assert!(entry_matches(&p, ""));
    assert!(!entry_matches(&p, "a"));
}

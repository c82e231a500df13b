use meow::query::{clean_query, stopword};
use meow::text::chars_of;

const STOPWORDS: [&str; 18] = [
    "find", "the", "file", "that", "i", "downloaded", "download", "yesterday", "today", "please",
    "can", "you", "my", "a", "an", "is", "was", "me",
];

fn reference_clean(q: &str) -> String {
    let cleaned = q
        .split_whitespace()
        .filter(|w| !STOPWORDS.contains(&w.to_lowercase().as_str()))
        .collect::<Vec<_>>()
        .join(" ");
    if cleaned.trim().is_empty() {
        q.to_string()
    } else {
        cleaned
    }
}

#[test]
fn removes_listed_stopwords() {
    assert_eq!(clean_query("please find the hostel fees yesterday"), "hostel fees");
}

#[test]
fn falls_back_to_raw_query_when_only_stopwords() {
    assert_eq!(clean_query("the a is"), "the a is");
    assert_eq!(clean_query("PLEASE Find  me"), "PLEASE Find  me");
}

#[test]
fn stopwords_match_in_any_case() {
    assert_eq!(clean_query("FIND The Hostel FEES Yesterday"), "Hostel FEES");
    assert_eq!(clean_query("PlEaSe report"), "report");
}

#[test]
fn words_are_rejoined_with_single_spaces() {
    assert_eq!(clean_query("  tax \t\n return   2023  "), "tax return 2023");
    assert_eq!(clean_query("tax\u{a0}return\u{3000}2023"), "tax return 2023");
    assert_eq!(clean_query("invoice\u{2003}march"), "invoice march");
}

#[test]
fn empty_and_blank_queries_stay_as_they_are() {
    assert_eq!(clean_query(""), "");
    assert_eq!(clean_query("   "), "   ");
    assert_eq!(clean_query(" \t "), " \t ");
}

#[test]
fn a_word_that_only_holds_a_stopword_is_kept() {
    assert_eq!(clean_query("finder thesis files"), "finder thesis files");
    assert_eq!(clean_query("find, the."), "find, the.");
}

#[test]
fn every_listed_word_is_a_stopword() {
    for w in STOPWORDS {
        assert!(stopword(&chars_of(w)));
        assert!(stopword(&chars_of(&w.to_uppercase())));
    }
    assert!(!stopword(&chars_of("hostel")));
    assert!(!stopword(&chars_of("")));
}

#[test]
fn letters_outside_ascii_do_not_make_stopwords() {
    // Capital I with a dot above lowercases to two characters; the Kelvin
    // sign lowercases to an ASCII letter that no listed word holds.
    for q in ["\u{130}", "\u{130}s", "m\u{130}", "\u{212a}", "th\u{e9}", "\u{c0}", "x \u{212a}"] {
        assert_eq!(clean_query(q), reference_clean(q));
        assert_eq!(clean_query(q), q);
    }
}


#[test]
fn cleaning_agrees_with_splitting_filtering_and_joining() {
    let queries = [
        "please find the hostel fees yesterday",
        "can you find my resume",
        "Download THE invoice that I downloaded today",
        "  lots   of   space  ",
        "a an is was me",
        "photo of the cat",
        "",
        "x",
        "\tfind\u{85}me\u{2028}budget\u{205f}2024",
    ];
    for q in queries {
        assert_eq!(clean_query(q), reference_clean(q));
    }
}

#[test]
fn normalizing_never_empties_a_query() {
    for q in ["the", "find me", "please", "a report", " the  a "] {
        assert!(!clean_query(q).trim().is_empty());
    }
}

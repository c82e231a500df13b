use meow::decider::{Candidate, DecisionReply, ResolverConfig, decide_best};
use meow::engine::{
    assemble_results, build_candidates, candidate_from, classify_intent, execute_action,
    file_matches_time, plan_search, resolve_folder_hint, restrict_to_scope, should_consult,
    subfolder, ActionPlan, AiAction, Intent, ScopeRoot,
};
use meow::path::FileParts;
use meow::ranker::{rank, ScoredPath};
use meow::score::Score;
use meow::store::StoredVector;

fn score(x: f32) -> Score {
    Score::from_bits(x.to_bits())
}

fn action(intent: &str, query: Option<&str>, time: Option<&str>, folder: Option<&str>) -> AiAction {
    AiAction {
        intent: intent.to_string(),
        query: query.map(|s| s.to_string()),
        file_type: None,
        time_filter: time.map(|s| s.to_string()),
        folder_hint: folder.map(|s| s.to_string()),
    }
}

fn opt(s: Option<&str>) -> Option<String> {
    s.map(|x| x.to_string())
}

fn scored(path: &str, s: f32) -> ScoredPath {
    ScoredPath { path: path.to_string(), score: score(s) }
}

fn stored(path: &str) -> StoredVector {
    StoredVector { path: path.to_string(), vector: vec![1, 2, 3] }
}

fn simple_candidates(paths: &[&str]) -> Vec<Candidate> {
    paths
        .iter()
        .enumerate()
        .map(|(i, p)| Candidate {
            idx: i + 1,
            path: p.to_string(),
            file_name: p.to_string(),
            ext: String::new(),
            folder: String::new(),
            score: score(0.5),
        })
        .collect()
}

#[test]
fn intents_are_classified() {
    assert_eq!(classify_intent("search"), Intent::Search);
    assert_eq!(classify_intent("find"), Intent::Search);
    assert_eq!(classify_intent("open"), Intent::Open);
    assert_eq!(classify_intent("read"), Intent::Read);
    assert_eq!(classify_intent("summarize"), Intent::Summarize);
    assert_eq!(classify_intent("delete"), Intent::Delete);
    assert_eq!(classify_intent("Search"), Intent::Unknown);
    assert_eq!(classify_intent("rename"), Intent::Unknown);
    assert_eq!(classify_intent(""), Intent::Unknown);
}

#[test]
fn hint_names_the_folder() {
    assert_eq!(resolve_folder_hint(&opt(Some("downloads")), &None), ScopeRoot::Downloads);
    assert_eq!(resolve_folder_hint(&opt(Some("Pictures")), &None), ScopeRoot::Pictures);
    assert_eq!(resolve_folder_hint(&opt(Some("DOCUMENTS")), &None), ScopeRoot::Documents);
    assert_eq!(resolve_folder_hint(&opt(Some("desktop")), &opt(Some("a photo"))), ScopeRoot::Desktop);
}

#[test]
fn hints_are_found_as_lowercasing_would_find_them() {
    let table = [
        ("downloads", ScopeRoot::Downloads),
        ("pictures", ScopeRoot::Pictures),
        ("documents", ScopeRoot::Documents),
        ("desktop", ScopeRoot::Desktop),
    ];
    for h in ["DES\u{212a}TOP", "des\u{212a}top", "Desktop", "p\u{130}ctures", "Documents ", "DOWNLOADS", ""] {
        let lower = h.to_lowercase();
        let expected = table
            .iter()
            .find(|(name, _)| *name == lower)
            .map(|(_, root)| *root)
            .unwrap_or(ScopeRoot::CurrentDir);
        assert_eq!(resolve_folder_hint(&opt(Some(h)), &None), expected);
    }
    assert_eq!(resolve_folder_hint(&opt(Some("des\u{212a}top")), &None), ScopeRoot::Desktop);
}

#[test]
fn unknown_or_missing_hint_falls_back_to_the_query() {
    assert_eq!(resolve_folder_hint(&None, &opt(Some("the file I Downloaded"))), ScopeRoot::Downloads);
    assert_eq!(resolve_folder_hint(&opt(Some("music")), &opt(Some("my download"))), ScopeRoot::Downloads);
    assert_eq!(resolve_folder_hint(&None, &opt(Some("holiday PHOTOS"))), ScopeRoot::Pictures);
    assert_eq!(resolve_folder_hint(&None, &opt(Some("a picture of a cat"))), ScopeRoot::Pictures);
    assert_eq!(resolve_folder_hint(&None, &opt(Some("disk image"))), ScopeRoot::Pictures);
    assert_eq!(resolve_folder_hint(&None, &opt(Some("photo download"))), ScopeRoot::Downloads);
    assert_eq!(resolve_folder_hint(&None, &opt(Some("tax return"))), ScopeRoot::CurrentDir);
    assert_eq!(resolve_folder_hint(&opt(Some("music")), &None), ScopeRoot::CurrentDir);
    assert_eq!(resolve_folder_hint(&None, &None), ScopeRoot::CurrentDir);
}

#[test]
fn keywords_are_found_as_lowercasing_would_find_them() {
    for q in ["p\u{130}cture", "\u{130}mage", "phot\u{f6}", "down\u{212a}load", "IMAGE\u{130}"] {
        let lower = q.to_lowercase();
        let expected = if lower.contains("download") {
            ScopeRoot::Downloads
        } else if lower.contains("photo") || lower.contains("picture") || lower.contains("image") {
            ScopeRoot::Pictures
        } else {
            ScopeRoot::CurrentDir
        };
        assert_eq!(resolve_folder_hint(&None, &opt(Some(q))), expected);
    }
}

#[test]
fn time_filter_compares_calendar_days() {
    assert!(file_matches_time("today", Some(739000), 739000, 738999));
    assert!(!file_matches_time("today", Some(738999), 739000, 738999));
    assert!(file_matches_time("yesterday", Some(738999), 739000, 738999));
    assert!(!file_matches_time("yesterday", Some(739000), 739000, 738999));
    assert!(!file_matches_time("yesterday", Some(738998), 739000, 738999));
}

#[test]
fn unreadable_time_fails_the_two_filters() {
    assert!(!file_matches_time("today", None, 739000, 738999));
    assert!(!file_matches_time("yesterday", None, 739000, 738999));
}

#[test]
fn other_filters_pass_everything() {
    assert!(file_matches_time("last week", Some(1), 739000, 738999));
    assert!(file_matches_time("last week", None, 739000, 738999));
    assert!(file_matches_time("Today", Some(1), 739000, 738999));
    assert!(file_matches_time("", Some(1), 739000, 738999));
}

#[test]
fn search_without_query_is_not_planned() {
    assert!(plan_search(&action("search", None, None, None)).is_none());
    assert!(plan_search(&action("search", Some(""), None, None)).is_none());
    assert!(plan_search(&action("search", Some("  \t "), None, None)).is_none());
}

#[test]
fn plan_holds_both_queries_root_and_filter() {
    let plan = plan_search(&action(
        "search",
        Some("please find the hostel fees yesterday"),
        Some("yesterday"),
        Some("downloads"),
    ))
    .unwrap();
    assert_eq!(plan.raw_query, "please find the hostel fees yesterday");
    assert_eq!(plan.final_query, "hostel fees");
    assert_eq!(plan.root, ScopeRoot::Downloads);
    assert_eq!(plan.time_filter, Some("yesterday".to_string()));
}

#[test]
fn plan_falls_back_to_the_raw_query() {
    let plan = plan_search(&action("find", Some("the a is"), None, None)).unwrap();
    assert_eq!(plan.final_query, "the a is");
    assert_eq!(plan.root, ScopeRoot::CurrentDir);
    assert_eq!(plan.time_filter, None);
}

#[test]
fn plan_infers_the_root_from_the_raw_query() {
    let plan = plan_search(&action("find", Some("find my downloaded invoice"), None, None)).unwrap();
    assert_eq!(plan.final_query, "invoice");
    assert_eq!(plan.root, ScopeRoot::Downloads);
}

#[test]
fn actions_are_dispatched() {
    assert!(matches!(execute_action(&action("search", Some("cat"), None, None)), ActionPlan::Search(_)));
    assert!(matches!(execute_action(&action("find", Some("cat"), None, None)), ActionPlan::Search(_)));
    assert!(matches!(execute_action(&action("search", None, None, None)), ActionPlan::EmptySearch));
    assert!(matches!(execute_action(&action("find", Some(" "), None, None)), ActionPlan::EmptySearch));
    assert!(matches!(
        execute_action(&action("open", Some("cat"), None, None)),
        ActionPlan::NotImplemented(Intent::Open)
    ));
    assert!(matches!(
        execute_action(&action("read", None, None, None)),
        ActionPlan::NotImplemented(Intent::Read)
    ));
    assert!(matches!(
        execute_action(&action("summarize", None, None, None)),
        ActionPlan::NotImplemented(Intent::Summarize)
    ));
    assert!(matches!(
        execute_action(&action("delete", None, None, None)),
        ActionPlan::NotImplemented(Intent::Delete)
    ));
    assert!(matches!(execute_action(&action("dance", Some("cat"), None, None)), ActionPlan::UnknownIntent));
}

#[test]
fn dispatched_search_carries_the_plan() {
    match execute_action(&action("search", Some("find the budget photo"), Some("today"), None)) {
        ActionPlan::Search(plan) => {
            assert_eq!(plan.raw_query, "find the budget photo");
            assert_eq!(plan.final_query, "budget photo");
            assert_eq!(plan.root, ScopeRoot::Pictures);
            assert_eq!(plan.time_filter, Some("today".to_string()));
        }
        _ => panic!("a search was expected"),
    }
}

#[test]
fn scope_keeps_listed_paths_in_store_order() {
    let vectors = vec![stored("/a/1"), stored("/b/2"), stored("/a/3"), stored("/c/4")];
    let files =
        vec!["/a/3".to_string(), "/x/9".to_string(), "/a/1".to_string(), "/a/3".to_string()];
    let kept = restrict_to_scope(vectors, &files);
    assert_eq!(kept.iter().map(|v| v.path.as_str()).collect::<Vec<_>>(), vec!["/a/1", "/a/3"]);
    assert_eq!(kept[0].vector, vec![1, 2, 3]);
}

#[test]
fn no_files_means_no_restriction() {
    let vectors = vec![stored("/a/1"), stored("/b/2")];
    let kept = restrict_to_scope(vectors, &Vec::new());
    assert_eq!(kept.iter().map(|v| v.path.as_str()).collect::<Vec<_>>(), vec!["/a/1", "/b/2"]);
}

#[test]
fn files_without_vectors_leave_nothing() {
    let kept = restrict_to_scope(vec![stored("/a/1")], &vec!["/z".to_string()]);
    assert!(kept.is_empty());
    let kept = restrict_to_scope(Vec::new(), &vec!["/z".to_string()]);
    assert!(kept.is_empty());
}

#[test]
fn candidates_are_numbered_from_one() {
    let ranked = rank(&vec![
        scored("/home/u/Downloads/b.TXT", 0.5),
        scored("/home/u/Pictures/a.png", 0.9),
    ]);
    let cands = build_candidates(&ranked);
    assert_eq!(cands.len(), 2);
    assert_eq!(cands[0].idx, 1);
    assert_eq!(cands[0].path, "/home/u/Pictures/a.png");
    assert_eq!(cands[0].file_name, "a.png");
    assert_eq!(cands[0].ext, "png");
    assert_eq!(cands[0].folder, "Pictures");
    assert_eq!(cands[0].score, score(0.9));
    assert_eq!(cands[1].idx, 2);
    assert_eq!(cands[1].file_name, "b.TXT");
    assert_eq!(cands[1].ext, "txt");
    assert_eq!(cands[1].folder, "Downloads");
    assert_eq!(cands[1].score, score(0.5));
}

#[test]
fn at_most_ten_candidates() {
    let mut records = Vec::new();
    for i in 0..15 {
        records.push(scored(&format!("/d/f{}.md", i), 1.0 - i as f32 * 0.01));
    }
    let cands = build_candidates(&rank(&records));
    assert_eq!(cands.len(), 10);
    for (i, c) in cands.iter().enumerate() {
        assert_eq!(c.idx, i + 1);
        assert_eq!(c.path, format!("/d/f{}.md", i));
    }
}

#[test]
fn candidate_without_file_name_shows_its_path() {
    let parts = FileParts { path: "/".to_string(), file_name: None, folder: None };
    let c = candidate_from(4, score(0.25), &parts);
    assert_eq!(c.idx, 4);
    assert_eq!(c.path, "/");
    assert_eq!(c.file_name, "/");
    assert_eq!(c.ext, "");
    assert_eq!(c.folder, "");
    let cands = build_candidates(&vec![scored("..", 0.1)]);
    assert_eq!(cands[0].file_name, "..");
}

#[test]
fn candidate_from_parts_is_exact() {
    let parts = FileParts {
        path: "/Work/Report.Final.PDF".to_string(),
        file_name: Some("Report.Final.PDF".to_string()),
        folder: Some("Work".to_string()),
    };
    let c = candidate_from(2, score(0.5), &parts);
    assert_eq!(c.idx, 2);
    assert_eq!(c.path, "/Work/Report.Final.PDF");
    assert_eq!(c.score, score(0.5));
    assert_eq!(c.file_name, "Report.Final.PDF");
    assert_eq!(c.ext, "pdf");
    assert_eq!(c.folder, "Work");
}

#[test]
fn decider_is_asked_only_on_a_close_call_between_two() {
    let cfg = ResolverConfig::standard();
    let mut two = simple_candidates(&["a", "b"]);
    two[0].score = score(0.70);
    two[1].score = score(0.65);
    assert!(should_consult(&two, score(0.70 - 0.65), &cfg));
    assert!(!should_consult(&two, score(0.70 - 0.50), &cfg));
    two[0].score = score(0.80);
    assert!(!should_consult(&two, score(0.80 - 0.79), &cfg));
    let mut one = simple_candidates(&["a"]);
    one[0].score = score(0.1);
    assert!(!should_consult(&one, score(0.0), &cfg));
    assert!(!should_consult(&Vec::new(), score(0.0), &cfg));
}

#[test]
fn winner_goes_first_once() {
    let cands = simple_candidates(&["a", "b", "c", "d"]);
    assert_eq!(assemble_results(&cands, Some(3)).items, vec!["c", "a", "b", "d"]);
    assert_eq!(assemble_results(&cands, Some(1)).items, vec!["a", "b", "c", "d"]);
    assert_eq!(assemble_results(&cands, Some(4)).items, vec!["d", "a", "b", "c"]);
}

#[test]
fn no_winner_keeps_ranked_order() {
    let cands = simple_candidates(&["a", "b", "c"]);
    assert_eq!(assemble_results(&cands, None).items, vec!["a", "b", "c"]);
    assert_eq!(assemble_results(&cands, Some(0)).items, vec!["a", "b", "c"]);
    assert_eq!(assemble_results(&cands, Some(4)).items, vec!["a", "b", "c"]);
}

#[test]
fn empty_store_gives_empty_result_without_the_decider() {
    let plan = plan_search(&action("search", Some("anything at all"), None, None)).unwrap();
    assert_eq!(plan.final_query, "anything at all");
    let in_scope = restrict_to_scope(Vec::new(), &vec!["/some/file".to_string()]);
    assert!(in_scope.is_empty());
    let ranked = rank(&Vec::new());
    let cands = build_candidates(&ranked);
    assert!(cands.is_empty());
    assert!(!should_consult(&cands, score(0.0), &ResolverConfig::standard()));
    assert!(assemble_results(&cands, None).items.is_empty());
}

#[test]
fn search_from_ranking_to_result() {
    let cfg = ResolverConfig::standard();
    let ranked = rank(&vec![
        scored("/d/fees_old.pdf", 0.65),
        scored("/d/hostel_fees.pdf", 0.70),
        scored("/d/cat.png", 0.10),
    ]);
    let cands = build_candidates(&ranked);
    let gap = f32::from_bits(cands[0].score.to_bits()) - f32::from_bits(cands[1].score.to_bits());
    assert!(should_consult(&cands, score(gap), &cfg));
    let winner = decide_best(&cands, Some(DecisionReply { choice: Some(2), confidence: score(0.9) }), &cfg);
    assert_eq!(winner, Some(2));
    assert_eq!(
        assemble_results(&cands, winner).items,
        vec!["/d/fees_old.pdf", "/d/hostel_fees.pdf", "/d/cat.png"]
    );
    let unsure = decide_best(&cands, Some(DecisionReply { choice: Some(2), confidence: score(0.65) }), &cfg);
    assert_eq!(unsure, None);
    assert_eq!(
        assemble_results(&cands, unsure).items,
        vec!["/d/hostel_fees.pdf", "/d/fees_old.pdf", "/d/cat.png"]
    );
}

#[test]
fn roots_name_their_folders() {
    assert_eq!(subfolder(ScopeRoot::Downloads), Some("Downloads".to_string()));
    assert_eq!(subfolder(ScopeRoot::Pictures), Some("Pictures".to_string()));
    assert_eq!(subfolder(ScopeRoot::Documents), Some("Documents".to_string()));
    assert_eq!(subfolder(ScopeRoot::Desktop), Some("Desktop".to_string()));
    assert_eq!(subfolder(ScopeRoot::CurrentDir), None);
}

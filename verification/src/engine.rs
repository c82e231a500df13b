//! The search orchestrator's decisions: what to do with an action, where to
//! search, which stored vectors are in scope, which ranked entries become
//! candidates, when the decider is asked, and how the result is put together.

use crate::decider::{ambiguous, is_ambiguous, Candidate, CandidateView, ResolverConfig};
use crate::path::{parts_of, split_path, FileParts, FilePartsView};
use crate::query::{clean_query, normalized};
use crate::ranker::{ScoredPath, TOP_K};
use crate::representation::{described_extension, lowercase_extension};
use crate::score::Score;
use crate::store::StoredVector;
use crate::text::{
    blank, chars_of, eq_folded, eq_str, fold_all, folded, has_substring, is_blank, or_empty,
    str_contains, string_of, text_of, texts,
};
use vstd::hash_set::StringHashSet;
use vstd::prelude::*;

verus! {

/// A command as it was understood: what is wanted, and the hints that came
/// with it.
pub struct AiAction {
    pub intent: String,
    pub query: Option<String>,
    pub file_type: Option<String>,
    pub time_filter: Option<String>,
    pub folder_hint: Option<String>,
}

/// The paths found by a search, the best first.
pub struct SearchResults {
    pub items: Vec<String>,
}

/// What an action asks for.
#[derive(Clone, Copy, Debug, PartialEq, Eq, Structural)]
pub enum Intent {
    Search,
    Open,
    Read,
    Summarize,
    Delete,
    Unknown,
}

/// The folder under which a search looks for files.
#[derive(Clone, Copy, Debug, PartialEq, Eq, Structural)]
pub enum ScopeRoot {
    Downloads,
    Pictures,
    Documents,
    Desktop,
    CurrentDir,
}

/// A search that is to be run.
pub struct SearchPlan {
    /// The query as it came.
    pub raw_query: String,
    /// The query that is embedded.
    pub final_query: String,
    pub root: ScopeRoot,
    pub time_filter: Option<String>,
}

/// What is to be done with an action.
pub enum ActionPlan {
    /// Run this search.
    Search(SearchPlan),
    /// A search without a query: its result is empty.
    EmptySearch,
    /// The intent is known, and nothing is done for it.
    NotImplemented(Intent),
    /// The intent is not known.
    UnknownIntent,
}

/// The intent that a word names.
pub open spec fn intent_of(word: Seq<char>) -> Intent {
    if word == "search"@ || word == "find"@ {
        Intent::Search
    } else if word == "open"@ {
        Intent::Open
    } else if word == "read"@ {
        Intent::Read
    } else if word == "summarize"@ {
        Intent::Summarize
    } else if word == "delete"@ {
        Intent::Delete
    } else {
        Intent::Unknown
    }
}

/// The intent that a word names; the word is taken as it is written.
pub fn classify_intent(word: &str) -> (intent: Intent)
    ensures
        intent == intent_of(word@),
{
    let w = chars_of(word);
    if eq_str(&w, "search") || eq_str(&w, "find") {
        Intent::Search
    } else if eq_str(&w, "open") {
        Intent::Open
    } else if eq_str(&w, "read") {
        Intent::Read
    } else if eq_str(&w, "summarize") {
        Intent::Summarize
    } else if eq_str(&w, "delete") {
        Intent::Delete
    } else {
        Intent::Unknown
    }
}

/// The folder that a hint names, in small or capital letters: the hint is
/// folded, which finds the names that lowercasing would find.
pub open spec fn hinted_root(hint: Seq<char>) -> Option<ScopeRoot> {
    let h = folded(hint);
    if h == "downloads"@ {
        Some(ScopeRoot::Downloads)
    } else if h == "pictures"@ {
        Some(ScopeRoot::Pictures)
    } else if h == "documents"@ {
        Some(ScopeRoot::Documents)
    } else if h == "desktop"@ {
        Some(ScopeRoot::Desktop)
    } else {
        None
    }
}

/// The folder that the words of a query point to: the downloads where it
/// speaks of a download, the pictures where it speaks of a photo, a picture
/// or an image, in small or capital letters; else the current folder.
pub open spec fn inferred_root(query: Seq<char>) -> ScopeRoot {
    let q = folded(query);
    if has_substring(q, "download"@) {
        ScopeRoot::Downloads
    } else if has_substring(q, "photo"@) || has_substring(q, "picture"@) || has_substring(
        q,
        "image"@,
    ) {
        ScopeRoot::Pictures
    } else {
        ScopeRoot::CurrentDir
    }
}

/// The folder to search under: the one that the hint names, else the one
/// that the query points to, else the current folder.
pub open spec fn scope_root(hint: Option<Seq<char>>, query: Option<Seq<char>>) -> ScopeRoot {
    match hint {
        Some(h) if hinted_root(h) is Some => hinted_root(h).unwrap(),
        _ => match query {
            Some(q) => inferred_root(q),
            None => ScopeRoot::CurrentDir,
        },
    }
}

/// The name of the folder under the home folder that a root stands for;
/// none for the current folder, which is not under it.
pub open spec fn subfolder_of(root: ScopeRoot) -> Option<Seq<char>> {
    match root {
        ScopeRoot::Downloads => Some("Downloads"@),
        ScopeRoot::Pictures => Some("Pictures"@),
        ScopeRoot::Documents => Some("Documents"@),
        ScopeRoot::Desktop => Some("Desktop"@),
        ScopeRoot::CurrentDir => None,
    }
}

/// The name of the folder under the home folder that a root stands for.
pub fn subfolder(root: ScopeRoot) -> (name: Option<String>)
    ensures
        text_of(name) == subfolder_of(root),
{
    match root {
        ScopeRoot::Downloads => Some(String::from_str("Downloads")),
        ScopeRoot::Pictures => Some(String::from_str("Pictures")),
        ScopeRoot::Documents => Some(String::from_str("Documents")),
        ScopeRoot::Desktop => Some(String::from_str("Desktop")),
        ScopeRoot::CurrentDir => None,
    }
}

fn root_from_hint(hint: &str) -> (r: Option<ScopeRoot>)
    ensures
        r == hinted_root(hint@),
{
    let h = chars_of(hint);
    if eq_folded(&h, "downloads") {
        Some(ScopeRoot::Downloads)
    } else if eq_folded(&h, "pictures") {
        Some(ScopeRoot::Pictures)
    } else if eq_folded(&h, "documents") {
        Some(ScopeRoot::Documents)
    } else if eq_folded(&h, "desktop") {
        Some(ScopeRoot::Desktop)
    } else {
        None
    }
}

fn root_from_query(query: &str) -> (r: ScopeRoot)
    ensures
        r == inferred_root(query@),
{
    let q = fold_all(&chars_of(query));
    if str_contains(&q, "download") {
        ScopeRoot::Downloads
    } else if str_contains(&q, "photo") || str_contains(&q, "picture") || str_contains(
        &q,
        "image",
    ) {
        ScopeRoot::Pictures
    } else {
        ScopeRoot::CurrentDir
    }
}

/// The folder to search under, from the folder hint and the query.
pub fn resolve_folder_hint(hint: &Option<String>, query: &Option<String>) -> (root: ScopeRoot)
    ensures
        root == scope_root(text_of(*hint), text_of(*query)),
{
    match hint {
        Some(h) => match root_from_hint(h.as_str()) {
            Some(root) => {
                return root;
            },
            None => {},
        },
        None => {},
    }
    match query {
        Some(q) => root_from_query(q.as_str()),
        None => ScopeRoot::CurrentDir,
    }
}

/// Whether a file passes a time filter. The days are day numbers of the
/// local calendar; `modified` is absent where the file's time could not be
/// read. Only the filters `today` and `yesterday` hold anything back.
pub open spec fn passes_time_filter(
    filter: Seq<char>,
    modified: Option<i64>,
    today: i64,
    yesterday: i64,
) -> bool {
    if filter == "yesterday"@ {
        modified == Some(yesterday)
    } else if filter == "today"@ {
        modified == Some(today)
    } else {
        true
    }
}

/// Whether a file passes the time filter.
pub fn file_matches_time(filter: &str, modified: Option<i64>, today: i64, yesterday: i64) -> (r:
    bool)
    ensures
        r == passes_time_filter(filter@, modified, today, yesterday),
{
    let f = chars_of(filter);
    if eq_str(&f, "yesterday") {
        match modified {
            Some(day) => day == yesterday,
            None => false,
        }
    } else if eq_str(&f, "today") {
        match modified {
            Some(day) => day == today,
            None => false,
        }
    } else {
        true
    }
}

/// Whether an action has a query to search for: one that holds more than
/// white space.
pub open spec fn has_query(action: AiAction) -> bool {
    action.query matches Some(q) && !is_blank(q@)
}

/// Plans the search that an action asks for. There is none where the action
/// has no query or a blank one. Else the plan holds the query as it came,
/// the normalized query to embed, the folder to search under and the time
/// filter as it came.
pub fn plan_search(action: &AiAction) -> (plan: Option<SearchPlan>)
    ensures
        match plan {
            Some(p) => {
                &&& has_query(*action)
                &&& p.raw_query@ == action.query.unwrap()@
                &&& p.final_query@ == normalized(action.query.unwrap()@)
                &&& p.root == scope_root(text_of(action.folder_hint), text_of(action.query))
                &&& p.time_filter == action.time_filter
            },
            None => !has_query(*action),
        },
{
    let raw = match &action.query {
        Some(q) => q,
        None => {
            return None;
        },
    };
    if blank(&chars_of(raw.as_str())) {
        return None;
    }
    let final_query = clean_query(raw.as_str());
    let root = resolve_folder_hint(&action.folder_hint, &action.query);
    Some(
        SearchPlan {
            raw_query: raw.clone(),
            final_query,
            root,
            time_filter: action.time_filter.clone(),
        },
    )
}

/// Decides what is done with an action: a search for the intents `search`
/// and `find`, empty where the action has no query; nothing for the other
/// intents.
pub fn execute_action(action: &AiAction) -> (plan: ActionPlan)
    ensures
        match plan {
            ActionPlan::Search(p) => {
                &&& intent_of(action.intent@) == Intent::Search
                &&& has_query(*action)
                &&& p.raw_query@ == action.query.unwrap()@
                &&& p.final_query@ == normalized(action.query.unwrap()@)
                &&& p.root == scope_root(text_of(action.folder_hint), text_of(action.query))
                &&& p.time_filter == action.time_filter
            },
            ActionPlan::EmptySearch => intent_of(action.intent@) == Intent::Search && !has_query(
                *action,
            ),
            ActionPlan::NotImplemented(intent) => intent == intent_of(action.intent@) && intent
                != Intent::Search && intent != Intent::Unknown,
            ActionPlan::UnknownIntent => intent_of(action.intent@) == Intent::Unknown,
        },
{
    match classify_intent(action.intent.as_str()) {
        Intent::Search => match plan_search(action) {
            Some(p) => ActionPlan::Search(p),
            None => ActionPlan::EmptySearch,
        },
        Intent::Unknown => ActionPlan::UnknownIntent,
        intent => ActionPlan::NotImplemented(intent),
    }
}

/// The stored vectors that are in scope: all of them where no files were
/// found under the root, else those whose path is the path of such a file,
/// in the order in which the store returned them.
pub open spec fn scoped(vectors: Seq<StoredVector>, files: Seq<String>) -> Seq<StoredVector> {
    if files.len() == 0 {
        vectors
    } else {
        vectors.filter(|v: StoredVector| texts(files).contains(v.path@))
    }
}

fn set_of(files: &Vec<String>) -> (set: StringHashSet)
    ensures
        forall|p: Seq<char>| set@.contains(p) <==> texts(files@).contains(p),
{
    let mut set = StringHashSet::new();
    let mut i: usize = 0;
    while i < files.len()
        invariant
            i <= files.len(),
            forall|p: Seq<char>| set@.contains(p) <==> texts(files@).take(i as int).contains(p),
        decreases files.len() - i,
    {
        let ghost before = texts(files@).take(i as int);
        let ghost next = texts(files@).take(i + 1);
        set.insert(files[i].clone());
        proof {
            assert(next =~= before.push(files@[i as int]@));
            assert forall|p: Seq<char>| set@.contains(p) <==> next.contains(p) by {
                if next.contains(p) {
                    let k = choose|k: int| 0 <= k < next.len() && next[k] == p;
                    if k < i {
                        assert(before[k] == p);
                    }
                }
                if before.contains(p) {
                    let k = choose|k: int| 0 <= k < before.len() && before[k] == p;
                    assert(next[k] == p);
                }
                assert(next[i as int] == files@[i as int]@);
            }
        }
        i += 1;
    }
    assert(texts(files@).take(files.len() as int) =~= texts(files@));
    set
}

/// Restricts the stored vectors to the files found under the root.
pub fn restrict_to_scope(vectors: Vec<StoredVector>, files: &Vec<String>) -> (kept: Vec<
    StoredVector,
>)
    ensures
        kept@ == scoped(vectors@, files@),
{
    if files.len() == 0 {
        return vectors;
    }
    let allowed = set_of(files);
    let ghost pred = |v: StoredVector| texts(files@).contains(v.path@);
    let ghost all = vectors@;
    let mut kept: Vec<StoredVector> = Vec::new();
    proof {
        reveal(Seq::filter);
    }
    for v in it: vectors
        invariant
            it.seq() == all,
            pred == |v: StoredVector| texts(files@).contains(v.path@),
            forall|p: Seq<char>| allowed@.contains(p) <==> texts(files@).contains(p),
            kept@ == all.take(it.index() as int).filter(pred),
    {
        proof {
            reveal(Seq::filter);
            assert(all.take(it.index() + 1).drop_last() =~= all.take(it.index() as int));
        }
        if allowed.contains(v.path.as_str()) {
            kept.push(v);
        }
    }
    assert(all.take(all.len() as int) =~= all);
    kept
}

/// The candidate made of a ranked entry: its place and its score, and from
/// the parts of its path the path itself, the file name, or the whole path
/// where it has none, the extension in lowercase and the name of the folder.
pub open spec fn candidate_of(place: nat, score: Score, parts: FilePartsView) -> CandidateView {
    CandidateView {
        idx: place,
        path: parts.path,
        file_name: match parts.file_name {
            Some(name) => name,
            None => parts.path,
        },
        ext: described_extension(parts),
        folder: or_empty(parts.folder),
        score: score,
    }
}

/// Makes a candidate from its place in the ranking, its score and the parts
/// of its path.
pub fn candidate_from(place: usize, score: Score, parts: &FileParts) -> (c: Candidate)
    ensures
        c@ == candidate_of(place as nat, score, parts@),
{
    let file_name = match &parts.file_name {
        Some(name) => name.clone(),
        None => parts.path.clone(),
    };
    let ext = string_of(&lowercase_extension(parts));
    let folder = match &parts.folder {
        Some(name) => name.clone(),
        None => String::new(),
    };
    Candidate { idx: place, path: parts.path.clone(), file_name, ext, folder, score }
}

/// The number of candidates made of a ranking with `n` entries.
pub open spec fn candidate_count(n: nat) -> nat {
    if n < TOP_K {
        n
    } else {
        TOP_K as nat
    }
}

/// The candidates of a ranking: one for each of its first entries, up to
/// ten, in ranked order and numbered from one, each made of the score of its
/// entry and the parts of the entry's path.
pub open spec fn candidates_of(ranked: Seq<ScoredPath>) -> Seq<CandidateView> {
    Seq::new(
        candidate_count(ranked.len()),
        |i: int| candidate_of((i + 1) as nat, ranked[i].score, parts_of(ranked[i].path@)),
    )
}

/// Makes the candidates of a ranking.
pub fn build_candidates(ranked: &Vec<ScoredPath>) -> (candidates: Vec<Candidate>)
    ensures
        crate::decider::views(candidates@) == candidates_of(ranked@),
{
    let n: usize = if ranked.len() < TOP_K {
        ranked.len()
    } else {
        TOP_K
    };
    let mut candidates: Vec<Candidate> = Vec::new();
    let mut i: usize = 0;
    while i < n
        invariant
            i <= n <= ranked.len(),
            n == candidate_count(ranked@.len()),
            candidates@.len() == i,
            forall|k: int|
                0 <= k < i ==> (#[trigger] candidates@[k])@ == candidates_of(ranked@)[k],
        decreases n - i,
    {
        let parts = split_path(ranked[i].path.as_str());
        let c = candidate_from(i + 1, ranked[i].score, &parts);
        candidates.push(c);
        i += 1;
    }
    assert(crate::decider::views(candidates@) =~= candidates_of(ranked@));
    candidates
}

/// Whether the decider is asked about the candidates: there are at least
/// two, and the first is a close call.
pub open spec fn consults(candidates: Seq<Candidate>, gap: Score, cfg: ResolverConfig) -> bool {
    candidates.len() >= 2 && ambiguous(candidates[0].score, gap, cfg)
}

/// Whether the decider is to be asked. `gap` is what the first candidate
/// leads the second by: its score minus the second's, as single-precision
/// subtraction gives it. It is not read where there are fewer than two
/// candidates.
pub fn should_consult(candidates: &Vec<Candidate>, gap: Score, cfg: &ResolverConfig) -> (r: bool)
    ensures
        r == consults(candidates@, gap, *cfg),
{
    candidates.len() >= 2 && is_ambiguous(candidates[0].score, gap, cfg)
}

/// The paths of the candidates, in order.
pub open spec fn paths_of(candidates: Seq<Candidate>) -> Seq<Seq<char>> {
    candidates.map_values(|c: Candidate| c.path@)
}

/// The result made of the candidates' paths and a winner: the winner's path
/// first and the others behind it in ranked order, or all in ranked order
/// where there is no winner among them.
pub open spec fn assembled(paths: Seq<Seq<char>>, winner: Option<usize>) -> Seq<Seq<char>> {
    match winner {
        Some(w) if 1 <= w <= paths.len() => seq![paths[w - 1]] + paths.remove(w - 1),
        _ => paths,
    }
}

/// Puts the result of a search together: the confirmed winner first, where
/// there is one, then the other candidates in ranked order. Every candidate
/// is in the result once.
pub fn assemble_results(candidates: &Vec<Candidate>, winner: Option<usize>) -> (results:
    SearchResults)
    ensures
        texts(results.items@) == assembled(paths_of(candidates@), winner),
        results.items@.len() == candidates@.len(),
{
    let n: usize = candidates.len();
    let ghost paths = paths_of(candidates@);
    let pick: usize = match winner {
        Some(w) => if 1 <= w && w <= n {
            w - 1
        } else {
            n
        },
        None => n,
    };
    let mut items: Vec<String> = Vec::new();
    if pick < n {
        items.push(candidates[pick].path.clone());
    }
    let ghost head = texts(items@);
    assert(head =~= if pick < n {
        seq![paths[pick as int]]
    } else {
        Seq::empty()
    });
    let mut i: usize = 0;
    while i < n
        invariant
            i <= n == candidates.len(),
            pick <= n,
            paths == paths_of(candidates@),
            texts(items@) == head + if i <= pick {
                paths.take(i as int)
            } else {
                paths.take(i as int).remove(pick as int)
            },
        decreases n - i,
    {
        let ghost before = texts(items@);
        if i != pick {
            items.push(candidates[i].path.clone());
            proof {
                assert(texts(items@) =~= before.push(paths[i as int]));
                if i < pick {
                    assert(paths.take(i as int).push(paths[i as int]) =~= paths.take(i + 1));
                } else {
                    assert(paths.take(i as int).remove(pick as int).push(paths[i as int])
                        =~= paths.take(i + 1).remove(pick as int));
                }
                assert(texts(items@) =~= head + if i + 1 <= pick {
                    paths.take(i + 1)
                } else {
                    paths.take(i + 1).remove(pick as int)
                });
            }
        } else {
            proof {
                assert(paths.take(i as int) =~= paths.take(i + 1).remove(pick as int));
            }
        }
        i += 1;
    }
    proof {
        assert(paths.take(n as int) =~= paths);
        if pick < n {
            assert(texts(items@) =~= seq![paths[pick as int]] + paths.remove(pick as int));
        } else {
            assert(texts(items@) =~= paths);
        }
    }
    SearchResults { items }
}

/// The result holds the candidates' paths, each as often as the candidates
/// hold it: naming a winner changes the order and nothing else.
pub proof fn lemma_assembled_is_permutation(paths: Seq<Seq<char>>, winner: Option<usize>)
    ensures
        assembled(paths, winner).to_multiset() == paths.to_multiset(),
        assembled(paths, winner).len() == paths.len(),
{
    broadcast use vstd::seq_lib::group_to_multiset_ensures;

    match winner {
        Some(w) => {
            if 1 <= w <= paths.len() {
                let x = paths[w - 1];
                let rest = paths.remove(w - 1);
                let out = seq![x] + rest;
                assert(out.drop_first() =~= rest);
                assert(out.first() == x);
                vstd::seq_lib::to_multiset_remove(paths, w - 1);
                assert(paths.contains(x));
                assert(out =~= seq![x] + out.drop_first());
                assert(out.to_multiset() =~= rest.to_multiset().insert(x)) by {
                    lemma_multiset_of_cons(x, rest);
                }
                assert(paths.to_multiset().count(x) > 0);
                assert(paths.to_multiset().remove(x).insert(x) =~= paths.to_multiset());
            }
        },
        None => {},
    }
}

proof fn lemma_multiset_of_cons(x: Seq<char>, rest: Seq<Seq<char>>)
    ensures
        (seq![x] + rest).to_multiset() =~= rest.to_multiset().insert(x),
    decreases rest.len(),
{
    broadcast use vstd::seq_lib::group_to_multiset_ensures;

    if rest.len() == 0 {
        assert(seq![x] + rest =~= Seq::<Seq<char>>::empty().push(x));
    } else {
        let front = rest.drop_last();
        let y = rest.last();
        lemma_multiset_of_cons(x, front);
        assert((seq![x] + front).push(y) =~= seq![x] + rest);
        assert(front.push(y) =~= rest);
    }
}

/// With no stored vectors in scope there are no candidates, the decider is
/// not asked, and the result is empty, whatever the query.
pub proof fn lemma_empty_store_empty_result(gap: Score, cfg: ResolverConfig, winner: Option<usize>)
    ensures
        crate::ranker::ranking(Seq::<ScoredPath>::empty()).len() == 0,
        candidates_of(crate::ranker::ranking(Seq::<ScoredPath>::empty())).len() == 0,
        !consults(Seq::<Candidate>::empty(), gap, cfg),
        assembled(paths_of(Seq::<Candidate>::empty()), winner).len() == 0,
{
}

} // verus!

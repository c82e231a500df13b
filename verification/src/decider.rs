//! The second opinion on a close call: when it is asked for, what is sent,
//! what is read from the answer, and when the answer is accepted.

use crate::score::Score;
use crate::text::{chars_of, decimal, push_decimal, push_str, slice_of, string_of, texts, trim, trimmed};
use vstd::prelude::*;

verus! {

/// One of the top ranked results, as it is shown and put to the decider.
pub struct Candidate {
    /// The place in the ranking, counted from one.
    pub idx: usize,
    pub path: String,
    pub file_name: String,
    /// The extension in lowercase.
    pub ext: String,
    /// The name of the parent folder.
    pub folder: String,
    pub score: Score,
}

/// What a candidate holds, as plain values.
pub struct CandidateView {
    pub idx: nat,
    pub path: Seq<char>,
    pub file_name: Seq<char>,
    pub ext: Seq<char>,
    pub folder: Seq<char>,
    pub score: Score,
}

impl View for Candidate {
    type V = CandidateView;

    open spec fn view(&self) -> CandidateView {
        CandidateView {
            idx: self.idx as nat,
            path: self.path@,
            file_name: self.file_name@,
            ext: self.ext@,
            folder: self.folder@,
            score: self.score,
        }
    }
}

/// The thresholds of the resolver.
#[derive(Clone, Copy, Debug)]
pub struct ResolverConfig {
    /// A best score at or above this one is trusted as it is.
    pub best_below: Score,
    /// A lead of the best over the second at or above this one is trusted.
    pub gap_below: Score,
    /// An answer with less confidence than this is not accepted.
    pub min_confidence: Score,
}

/// The bits of 0.75.
pub const BEST_BELOW_BITS: u32 = 0x3f40_0000;

/// The bits of the single-precision number nearest to 0.08.
pub const GAP_BELOW_BITS: u32 = 0x3da3_d70a;

/// The bits of the single-precision number nearest to 0.7.
pub const MIN_CONFIDENCE_BITS: u32 = 0x3f33_3333;

impl ResolverConfig {
    /// The thresholds in use unless others are given: 0.75 for the best
    /// score, 0.08 for the lead, 0.7 for the confidence.
    pub fn standard() -> (cfg: ResolverConfig)
        ensures
            cfg.best_below.bits == BEST_BELOW_BITS,
            cfg.gap_below.bits == GAP_BELOW_BITS,
            cfg.min_confidence.bits == MIN_CONFIDENCE_BITS,
    {
        ResolverConfig {
            best_below: Score { bits: BEST_BELOW_BITS },
            gap_below: Score { bits: GAP_BELOW_BITS },
            min_confidence: Score { bits: MIN_CONFIDENCE_BITS },
        }
    }
}

/// Whether a ranking is a close call: the best score is below its threshold
/// and its lead over the second is below the threshold for leads.
pub open spec fn ambiguous(best: Score, gap: Score, cfg: ResolverConfig) -> bool {
    best.is_below(cfg.best_below) && gap.is_below(cfg.gap_below)
}

/// Whether the decider is to be asked. `best` is the score of the first
/// candidate and `gap` what it leads the second by: the best score minus the
/// second, as single-precision subtraction gives it.
pub fn is_ambiguous(best: Score, gap: Score, cfg: &ResolverConfig) -> (r: bool)
    ensures
        r == ambiguous(best, gap, *cfg),
{
    best.below(&cfg.best_below) && gap.below(&cfg.gap_below)
}

/// The line that puts one candidate to the decider; `score_text` is its score
/// written with four decimal places.
pub open spec fn candidate_line_text(c: CandidateView, score_text: Seq<char>) -> Seq<char> {
    decimal(c.idx) + ". "@ + c.file_name + " (ext="@ + c.ext + ", folder="@ + c.folder
        + ", score="@ + score_text + ")"@
}

/// Writes the line that puts one candidate to the decider.
pub fn candidate_line(c: &Candidate, score_text: &str) -> (line: String)
    ensures
        line@ == candidate_line_text(c@, score_text@),
{
    let mut out: Vec<char> = Vec::new();
    push_decimal(&mut out, c.idx);
    push_str(&mut out, ". ");
    push_str(&mut out, c.file_name.as_str());
    push_str(&mut out, " (ext=");
    push_str(&mut out, c.ext.as_str());
    push_str(&mut out, ", folder=");
    push_str(&mut out, c.folder.as_str());
    push_str(&mut out, ", score=");
    push_str(&mut out, score_text);
    push_str(&mut out, ")");
    assert(out@ =~= candidate_line_text(c@, score_text@));
    string_of(&out)
}

/// The instructions that follow the query in every prompt.
pub open spec fn instructions() -> Seq<char> {
    "\"\n\nChoose the SINGLE best matching file from the candidates below.\nIf you're not sure, choose null.\nYou MUST choose only from the given indices. Do NOT invent paths.\nReply ONLY in valid JSON with keys: choice, confidence.\nExample: {\"choice\": 2, \"confidence\": 0.82} or {\"choice\": null, \"confidence\": 0.3}\n\nCandidates:"@
}

/// The lines, each on a line of its own behind what came before.
pub open spec fn listing(lines: Seq<Seq<char>>) -> Seq<char>
    decreases lines.len(),
{
    if lines.len() == 0 {
        Seq::empty()
    } else {
        listing(lines.drop_last()) + seq!['\n'] + lines.last()
    }
}

/// The prompt for a query and the lines of its candidates: the query in
/// quotes, the instructions, then the lines.
pub open spec fn prompt(query: Seq<char>, lines: Seq<Seq<char>>) -> Seq<char> {
    "User query: \""@ + query + instructions() + listing(lines)
}

/// The views of the candidates, in order.
pub open spec fn views(candidates: Seq<Candidate>) -> Seq<CandidateView> {
    candidates.map_values(|c: Candidate| c@)
}

/// The score text of the candidate at place `i`; nothing where the texts
/// end before it.
pub open spec fn score_text_at(score_texts: Seq<Seq<char>>, i: int) -> Seq<char> {
    if 0 <= i < score_texts.len() {
        score_texts[i]
    } else {
        Seq::empty()
    }
}

/// The lines of the candidates, one for each in order, each with the score
/// text at its place.
pub open spec fn candidate_lines(candidates: Seq<CandidateView>, score_texts: Seq<Seq<char>>) -> Seq<
    Seq<char>,
> {
    Seq::new(
        candidates.len(),
        |i: int| candidate_line_text(candidates[i], score_text_at(score_texts, i)),
    )
}

/// Writes the prompt that puts the candidates to the decider: the query, the
/// instructions, which ask for one JSON object with a choice among the given
/// indices, or null, and a confidence, and then one line for every candidate
/// with its index, file name, extension, folder and score. `score_texts`
/// holds the candidates' scores in order, each written with four decimal
/// places; texts beyond the last candidate are not read.
pub fn build_prompt(query: &str, candidates: &Vec<Candidate>, score_texts: &Vec<String>) -> (text:
    String)
    ensures
        text@ == prompt(query@, candidate_lines(views(candidates@), texts(score_texts@))),
{
    let mut out: Vec<char> = Vec::new();
    push_str(&mut out, "User query: \"");
    push_str(&mut out, query);
    push_str(
        &mut out,
        "\"\n\nChoose the SINGLE best matching file from the candidates below.\nIf you're not sure, choose null.\nYou MUST choose only from the given indices. Do NOT invent paths.\nReply ONLY in valid JSON with keys: choice, confidence.\nExample: {\"choice\": 2, \"confidence\": 0.82} or {\"choice\": null, \"confidence\": 0.3}\n\nCandidates:",
    );
    let ghost head = out@;
    let ghost lines = candidate_lines(views(candidates@), texts(score_texts@));
    assert(head =~= "User query: \""@ + query@ + instructions());
    let mut i: usize = 0;
    assert(lines.take(0) =~= Seq::empty());
    while i < candidates.len()
        invariant
            i <= candidates.len(),
            lines == candidate_lines(views(candidates@), texts(score_texts@)),
            out@ == head + listing(lines.take(i as int)),
        decreases candidates.len() - i,
    {
        let line = if i < score_texts.len() {
            candidate_line(&candidates[i], score_texts[i].as_str())
        } else {
            candidate_line(&candidates[i], String::new().as_str())
        };
        out.push('\n');
        push_str(&mut out, line.as_str());
        proof {
            let next = lines.take(i + 1);
            assert(next.drop_last() =~= lines.take(i as int));
            assert(next.last() == line@);
            assert(out@ =~= head + listing(next));
        }
        i += 1;
    }
    assert(lines.take(candidates.len() as int) =~= lines);
    string_of(&out)
}

/// The JSON object in an answer: from the first `{` to the last `}`, where
/// the answer holds both and the `}` stands behind the `{`.
pub open spec fn json_object(s: Seq<char>) -> Option<Seq<char>> {
    match (s.index_of_first('{'), s.index_of_last('}')) {
        (Some(a), Some(b)) => if a < b {
            Some(s.subrange(a, b + 1))
        } else {
            None
        },
        _ => None,
    }
}

fn object_in(s: &Vec<char>) -> (r: Option<Vec<char>>)
    ensures
        match r {
            Some(o) => json_object(s@) == Some(o@),
            None => json_object(s@) is None,
        },
{
    let n: usize = s.len();
    proof {
        s@.index_of_first_ensures('{');
        s@.index_of_last_ensures('}');
    }
    let mut a: usize = 0;
    while a < n && s[a] != '{'
        invariant
            a <= n == s.len(),
            forall|k: int| 0 <= k < a ==> s@[k] != '{',
        decreases n - a,
    {
        a += 1;
    }
    if a == n {
        return None;
    }
    assert(s@.contains('{')) by {
        assert(s@[a as int] == '{');
    }
    assert(s@.index_of_first('{') == Some(a as int));
    let mut b: usize = n;
    while b > 0 && s[b - 1] != '}'
        invariant
            b <= n == s.len(),
            forall|k: int| b <= k < n ==> s@[k] != '}',
        decreases b,
    {
        b -= 1;
    }
    if b == 0 {
        return None;
    }
    assert(s@.contains('}')) by {
        assert(s@[b - 1] == '}');
    }
    assert(s@.index_of_last('}') == Some(b - 1));
    if b - 1 <= a {
        return None;
    }
    Some(slice_of(s, a, b))
}

/// Takes the JSON object out of an answer that may hold other text around it.
pub fn extract_json_object(s: &str) -> (r: Option<String>)
    ensures
        match r {
            Some(o) => json_object(s@) == Some(o@),
            None => json_object(s@) is None,
        },
{
    let chars = chars_of(s);
    match object_in(&chars) {
        Some(o) => Some(string_of(&o)),
        None => None,
    }
}

/// The text of an answer that is to be parsed: the JSON object in the answer
/// without the white space around it, or that whole answer where it holds no
/// such object.
pub open spec fn decision_source(raw: Seq<char>) -> Seq<char> {
    match json_object(trimmed(raw)) {
        Some(o) => o,
        None => trimmed(raw),
    }
}

/// The part of the decider's answer that is to be parsed.
pub fn decision_text(raw: &str) -> (text: String)
    ensures
        text@ == decision_source(raw@),
{
    let chars = chars_of(raw);
    let t = trim(&chars);
    match object_in(&t) {
        Some(o) => string_of(&o),
        None => string_of(&t),
    }
}

/// What was read from the decider's answer.
#[derive(Clone, Copy, Debug)]
pub struct DecisionReply {
    /// The index chosen, counted from one; absent for null.
    pub choice: Option<usize>,
    pub confidence: Score,
}

/// The winner that an answer names among `n` candidates: its choice, where
/// the confidence reaches the threshold and the choice is one of the indices
/// from 1 to `n`.
pub open spec fn accepted(reply: DecisionReply, n: nat, cfg: ResolverConfig) -> Option<usize> {
    match reply.choice {
        Some(choice) => if reply.confidence.is_at_least(cfg.min_confidence) && 1 <= choice <= n {
            Some(choice)
        } else {
            None
        },
        None => None,
    }
}

/// The winner among the candidates, if the decider named one that can be
/// accepted. `reply` is absent where no answer came or none could be read;
/// then, as for every answer that fails a threshold, there is no winner.
pub fn decide_best(candidates: &Vec<Candidate>, reply: Option<DecisionReply>, cfg: &ResolverConfig) -> (winner: Option<usize>)
    ensures
        winner == match reply {
            Some(r) => accepted(r, candidates@.len(), *cfg),
            None => None,
        },
        winner matches Some(w) ==> 1 <= w <= candidates@.len(),
{
    match reply {
        Some(r) => {
            if !r.confidence.at_least(&cfg.min_confidence) {
                return None;
            }
            match r.choice {
                Some(choice) => if choice >= 1 && choice <= candidates.len() {
                    Some(choice)
                } else {
                    None
                },
                None => None,
            }
        },
        None => None,
    }
}

/// An answer whose confidence is below the threshold names no winner,
/// whatever it chose.
pub proof fn lemma_low_confidence_is_rejected(reply: DecisionReply, n: nat, cfg: ResolverConfig)
    requires
        !reply.confidence.is_at_least(cfg.min_confidence),
    ensures
        accepted(reply, n, cfg) is None,
{
}

} // verus!

//! The query normalizer: filler words are taken out of a query before it is
//! embedded.

use crate::text::{
    blank, chars_of, eq_folded, folded, is_blank, is_space, is_whitespace, push_chars, slice_of,
    string_of,
};
use vstd::prelude::*;

verus! {

/// The run of characters other than white space that `s` begins with.
pub open spec fn leading_word(s: Seq<char>) -> Seq<char>
    decreases s.len(),
{
    if s.len() == 0 || is_space(s[0]) {
        Seq::empty()
    } else {
        seq![s[0]] + leading_word(s.drop_first())
    }
}

/// The leading word is no longer than the text, and not empty where the text
/// begins with a character other than white space.
pub proof fn lemma_leading_word_len(s: Seq<char>)
    ensures
        leading_word(s).len() <= s.len(),
        s.len() > 0 && !is_space(s[0]) ==> leading_word(s).len() >= 1,
    decreases s.len(),
{
    if !(s.len() == 0 || is_space(s[0])) {
        lemma_leading_word_len(s.drop_first());
    }
}

/// The words of `s`: its maximal runs of characters other than white space,
/// from left to right.
pub open spec fn words(s: Seq<char>) -> Seq<Seq<char>>
    decreases s.len(),
    via words_decreases
{
    if s.len() == 0 {
        Seq::empty()
    } else if is_space(s[0]) {
        words(s.drop_first())
    } else {
        seq![leading_word(s)] + words(s.skip(leading_word(s).len() as int))
    }
}

#[via_fn]
proof fn words_decreases(s: Seq<char>) {
    lemma_leading_word_len(s);
}

/// The words joined by single spaces.
pub open spec fn joined(ws: Seq<Seq<char>>) -> Seq<char>
    decreases ws.len(),
{
    if ws.len() == 0 {
        Seq::empty()
    } else if ws.len() == 1 {
        ws[0]
    } else {
        joined(ws.drop_last()) + seq![' '] + ws.last()
    }
}

/// Whether a word is filler: one of the listed words, in small or capital
/// letters. The listed words are ASCII, so a word lowercases to one of them
/// only where each of its letters lowercases to one ASCII letter, and
/// folding finds exactly the words that full lowercasing would find.
pub open spec fn is_stopword(w: Seq<char>) -> bool {
    let f = folded(w);
    ||| f == "find"@
    ||| f == "the"@
    ||| f == "file"@
    ||| f == "that"@
    ||| f == "i"@
    ||| f == "downloaded"@
    ||| f == "download"@
    ||| f == "yesterday"@
    ||| f == "today"@
    ||| f == "please"@
    ||| f == "can"@
    ||| f == "you"@
    ||| f == "my"@
    ||| f == "a"@
    ||| f == "an"@
    ||| f == "is"@
    ||| f == "was"@
    ||| f == "me"@
}

/// The words of a query that are kept: those that are no filler.
pub open spec fn kept_words(q: Seq<char>) -> Seq<Seq<char>> {
    words(q).filter(|w: Seq<char>| !is_stopword(w))
}

/// The query without its filler words, the words that stay joined by single
/// spaces.
pub open spec fn cleaned(q: Seq<char>) -> Seq<char> {
    joined(kept_words(q))
}

/// The text that is embedded for a query: the cleaned query, or the query
/// as it was typed where cleaning leaves nothing.
pub open spec fn normalized(q: Seq<char>) -> Seq<char> {
    if is_blank(cleaned(q)) {
        q
    } else {
        cleaned(q)
    }
}

/// A query that holds more than white space is never normalized to a text
/// that holds nothing else.
pub proof fn lemma_normalized_keeps_query(q: Seq<char>)
    requires
        !is_blank(q),
    ensures
        !is_blank(normalized(q)),
{
}

/// Whether `w` is a word: not empty, and without white space.
pub open spec fn is_word(w: Seq<char>) -> bool {
    w.len() > 0 && forall|i: int| 0 <= i < w.len() ==> !is_space(#[trigger] w[i])
}

/// Whether every entry of `ws` is a word.
pub open spec fn all_words(ws: Seq<Seq<char>>) -> bool {
    forall|i: int| 0 <= i < ws.len() ==> is_word(#[trigger] ws[i])
}

proof fn lemma_leading_word_has_no_space(s: Seq<char>, i: int)
    requires
        0 <= i < leading_word(s).len(),
    ensures
        !is_space(leading_word(s)[i]),
        leading_word(s)[i] == s[i],
    decreases s.len(),
{
    lemma_leading_word_len(s);
    if i > 0 {
        lemma_leading_word_has_no_space(s.drop_first(), i - 1);
    }
}

proof fn lemma_leading_word_stops(s: Seq<char>)
    ensures
        leading_word(s).len() == s.len() || is_space(s[leading_word(s).len() as int]),
    decreases s.len(),
{
    lemma_leading_word_len(s);
    if !(s.len() == 0 || is_space(s[0])) {
        let t = s.drop_first();
        lemma_leading_word_stops(t);
        lemma_leading_word_len(t);
        let n = leading_word(t).len() as int;
        assert(leading_word(s).len() == n + 1);
        if n < t.len() {
            assert(t[n] == s[n + 1]);
        }
    }
}

/// Every word of a text is a word.
pub proof fn lemma_words_are_words(s: Seq<char>)
    ensures
        all_words(words(s)),
    decreases s.len(),
{
    if s.len() == 0 {
    } else if is_space(s[0]) {
        lemma_words_are_words(s.drop_first());
    } else {
        let w = leading_word(s);
        lemma_leading_word_len(s);
        lemma_words_are_words(s.skip(w.len() as int));
        assert(is_word(w)) by {
            assert forall|i: int| 0 <= i < w.len() implies !is_space(#[trigger] w[i]) by {
                lemma_leading_word_has_no_space(s, i);
            }
        }
        let rest = words(s.skip(w.len() as int));
        assert forall|i: int| 0 <= i < words(s).len() implies is_word(#[trigger] words(s)[i]) by {
            if i > 0 {
                assert(words(s)[i] == rest[i - 1]);
            }
        }
    }
}

proof fn lemma_words_of_word(w: Seq<char>, t: Seq<char>)
    requires
        is_word(w),
        t.len() == 0 || is_space(t[0]),
    ensures
        words(w + t) == seq![w] + words(t),
{
    let s = w + t;
    assert forall|k: int| 0 <= k < w.len() implies !is_space(#[trigger] s[k]) by {
        assert(s[k] == w[k]);
    }
    if t.len() > 0 {
        assert(s[w.len() as int] == t[0]);
    }
    lemma_leading_word_is_run(s, w.len() as int);
    assert(s.take(w.len() as int) =~= w);
    assert(s.skip(w.len() as int) =~= t);
    assert(!is_space(s[0]));
}

proof fn lemma_words_before_space(s: Seq<char>, t: Seq<char>)
    requires
        t.len() > 0,
        is_space(t[0]),
    ensures
        words(s + t) == words(s) + words(t),
    decreases s.len(),
{
    let st = s + t;
    if s.len() == 0 {
        assert(st =~= t);
        assert(words(s) + words(t) =~= words(t));
    } else if is_space(s[0]) {
        assert(st[0] == s[0]);
        assert(st.drop_first() =~= s.drop_first() + t);
        lemma_words_before_space(s.drop_first(), t);
    } else {
        let w = leading_word(s);
        let n = w.len() as int;
        lemma_leading_word_len(s);
        lemma_leading_word_stops(s);
        assert forall|k: int| 0 <= k < n implies !is_space(#[trigger] st[k]) by {
            lemma_leading_word_has_no_space(s, k);
            assert(st[k] == s[k]);
        }
        if n < s.len() {
            assert(st[n] == s[n]);
        } else {
            assert(st[n] == t[0]);
        }
        lemma_leading_word_is_run(st, n);
        assert forall|k: int| 0 <= k < n implies !is_space(#[trigger] s[k]) by {
            lemma_leading_word_has_no_space(s, k);
        }
        lemma_leading_word_is_run(s, n);
        assert(st.take(n) =~= s.take(n));
        assert(st[0] == s[0]);
        assert(st.skip(n) =~= s.skip(n) + t);
        lemma_words_before_space(s.skip(n), t);
        assert(seq![w] + (words(s.skip(n)) + words(t)) =~= (seq![w] + words(s.skip(n))) + words(t));
    }
}

/// Words that are joined by single spaces are read back from the text as
/// they were.
pub proof fn lemma_words_of_joined(ws: Seq<Seq<char>>)
    requires
        all_words(ws),
    ensures
        words(joined(ws)) == ws,
    decreases ws.len(),
{
    let none = Seq::<char>::empty();
    if ws.len() == 0 {
    } else if ws.len() == 1 {
        assert(is_word(ws[0]));
        lemma_words_of_word(ws[0], none);
        assert(ws[0] + none =~= ws[0]);
        assert(seq![ws[0]] + words(none) =~= ws);
    } else {
        let front = ws.drop_last();
        let last = ws.last();
        assert(is_word(last));
        assert forall|i: int| 0 <= i < front.len() implies is_word(#[trigger] front[i]) by {
            assert(front[i] == ws[i]);
        }
        lemma_words_of_joined(front);
        let tail = seq![' '] + last;
        assert(joined(ws) =~= joined(front) + tail);
        lemma_words_before_space(joined(front), tail);
        assert(tail.drop_first() =~= last);
        lemma_words_of_word(last, none);
        assert(last + none =~= last);
        assert(words(tail) =~= seq![last]);
        assert(front + seq![last] =~= ws);
    }
}

/// The words of a cleaned query are the words of the query that are no
/// filler, in their order: cleaning takes out every filler word and nothing
/// else.
pub proof fn lemma_cleaned_words(q: Seq<char>)
    ensures
        words(cleaned(q)) == kept_words(q),
        forall|i: int| 0 <= i < words(cleaned(q)).len() ==> !is_stopword(#[trigger] words(cleaned(q))[i]),
{
    let keep = |w: Seq<char>| !is_stopword(w);
    let kept = kept_words(q);
    lemma_words_are_words(q);
    assert forall|i: int| 0 <= i < kept.len() implies is_word(#[trigger] kept[i]) by {
        words(q).lemma_filter_pred(keep, i);
        assert(kept.contains(kept[i]));
        words(q).lemma_filter_contains_rev(keep, kept[i]);
    }
    lemma_words_of_joined(kept);
    assert forall|i: int| 0 <= i < kept.len() implies !is_stopword(#[trigger] kept[i]) by {
        words(q).lemma_filter_pred(keep, i);
    }
}

/// Cleaning a cleaned query changes nothing.
pub proof fn lemma_cleaning_is_idempotent(q: Seq<char>)
    ensures
        cleaned(cleaned(q)) == cleaned(q),
{
    let keep = |w: Seq<char>| !is_stopword(w);
    let kept = kept_words(q);
    lemma_cleaned_words(q);
    assert(kept.filter(keep) == kept) by {
        lemma_filter_all(kept, keep);
    }
}

proof fn lemma_filter_all(s: Seq<Seq<char>>, pred: spec_fn(Seq<char>) -> bool)
    requires
        forall|i: int| 0 <= i < s.len() ==> pred(#[trigger] s[i]),
    ensures
        s.filter(pred) == s,
    decreases s.len(),
{
    reveal(Seq::filter);
    if s.len() > 0 {
        assert forall|i: int| 0 <= i < s.drop_last().len() implies pred(
            #[trigger] s.drop_last()[i],
        ) by {
            assert(s.drop_last()[i] == s[i]);
        }
        lemma_filter_all(s.drop_last(), pred);
        assert(pred(s[s.len() - 1]));
        assert(s.drop_last().push(s.last()) =~= s);
    }
}

/// Whether a word is filler.
pub fn stopword(w: &Vec<char>) -> (r: bool)
    ensures
        r == is_stopword(w@),
{
    eq_folded(w, "find") || eq_folded(w, "the") || eq_folded(w, "file") || eq_folded(w, "that")
        || eq_folded(w, "i") || eq_folded(w, "downloaded") || eq_folded(w, "download")
        || eq_folded(w, "yesterday") || eq_folded(w, "today") || eq_folded(w, "please")
        || eq_folded(w, "can") || eq_folded(w, "you") || eq_folded(w, "my") || eq_folded(w, "a")
        || eq_folded(w, "an") || eq_folded(w, "is") || eq_folded(w, "was") || eq_folded(w, "me")
}

proof fn lemma_leading_word_is_run(s: Seq<char>, n: int)
    requires
        0 <= n <= s.len(),
        forall|k: int| 0 <= k < n ==> !is_space(#[trigger] s[k]),
        n == s.len() || is_space(s[n]),
    ensures
        leading_word(s) == s.take(n),
    decreases n,
{
    if n == 0 {
        assert(s.take(0) =~= Seq::empty());
    } else {
        let t = s.drop_first();
        assert(!is_space(s[0]));
        assert forall|k: int| 0 <= k < n - 1 implies !is_space(#[trigger] t[k]) by {
            assert(t[k] == s[k + 1]);
        }
        lemma_leading_word_is_run(t, n - 1);
        assert(seq![s[0]] + t.take(n - 1) =~= s.take(n));
    }
}

fn clean_chars(s: &Vec<char>) -> (out: Vec<char>)
    ensures
        out@ == cleaned(s@),
{
    let n: usize = s.len();
    let mut out: Vec<char> = Vec::new();
    let mut any: bool = false;
    let mut i: usize = 0;
    let ghost keep = |w: Seq<char>| !is_stopword(w);
    let ghost mut done: Seq<Seq<char>> = Seq::empty();
    proof {
        reveal(Seq::filter);
        assert(s@.skip(0) =~= s@);
        assert(done + words(s@) =~= words(s@));
    }
    while i < n
        invariant
            i <= n == s.len(),
            keep == |w: Seq<char>| !is_stopword(w),
            done + words(s@.skip(i as int)) == words(s@),
            out@ == joined(done.filter(keep)),
            any == (done.filter(keep).len() > 0),
        decreases n - i,
    {
        let ghost rest = s@.skip(i as int);
        if is_whitespace(s[i]) {
            proof {
                assert(rest.drop_first() =~= s@.skip(i + 1));
            }
            i += 1;
        } else {
            let mut j: usize = i + 1;
            while j < n && !is_whitespace(s[j])
                invariant
                    i < j <= n == s.len(),
                    forall|k: int| i <= k < j ==> !is_space(#[trigger] s@[k]),
                decreases n - j,
            {
                j += 1;
            }
            let word = slice_of(s, i, j);
            proof {
                reveal(Seq::filter);
                assert forall|k: int| 0 <= k < j - i implies !is_space(#[trigger] rest[k]) by {
                    assert(rest[k] == s@[i + k]);
                }
                lemma_leading_word_is_run(rest, j - i);
                assert(rest.take(j - i) =~= word@);
                assert(rest.skip(j - i) =~= s@.skip(j as int));
                assert(words(rest) == seq![word@] + words(s@.skip(j as int)));
                assert(done.push(word@) + words(s@.skip(j as int)) =~= done + words(rest));
                assert(done.push(word@).drop_last() =~= done);
            }
            if !stopword(&word) {
                if any {
                    out.push(' ');
                }
                push_chars(&mut out, &word);
                any = true;
                proof {
                    let kept = done.filter(keep);
                    assert(done.push(word@).filter(keep) == kept.push(word@));
                    assert(kept.push(word@).drop_last() =~= kept);
                    if kept.len() > 0 {
                        assert(out@ =~= joined(kept) + seq![' '] + word@);
                    } else {
                        assert(out@ =~= word@);
                    }
                }
            }
            proof {
                done = done.push(word@);
            }
            i = j;
        }
    }
    proof {
        assert(s@.skip(n as int) =~= Seq::empty());
        assert(done + Seq::<Seq<char>>::empty() =~= done);
    }
    out
}

/// Normalizes a query for embedding: the query without its filler words,
/// the words that stay joined by single spaces, or the query as it came
/// where nothing but white space would be left.
pub fn clean_query(q: &str) -> (r: String)
    ensures
        r@ == normalized(q@),
{
    let s = chars_of(q);
    let out = clean_chars(&s);
    if blank(&out) {
        string_of(&s)
    } else {
        string_of(&out)
    }
}

} // verus!

//! Ranking of scored paths: descending by score, ties in the order given.

use crate::score::Score;
use vstd::prelude::*;

verus! {

/// A stored path with the similarity of its vector to the query.
pub struct ScoredPath {
    pub path: String,
    pub score: Score,
}

/// At most this many ranked entries become candidates.
pub const TOP_K: usize = 10;

/// The record with its score sanitized: plus zero where it was no number.
pub open spec fn clean(r: ScoredPath) -> ScoredPath {
    ScoredPath { path: r.path, score: r.score.sanitized() }
}

/// Every record with its score sanitized, in the order given.
pub open spec fn clean_all(records: Seq<ScoredPath>) -> Seq<ScoredPath> {
    records.map_values(|r: ScoredPath| clean(r))
}

/// No entry ranks above an entry before it.
pub open spec fn is_descending(s: Seq<ScoredPath>) -> bool {
    forall|i: int, j: int|
        0 <= i < j < s.len() ==> #[trigger] s[i].score.rank_key() >= #[trigger] s[j].score.rank_key()
}

/// The entries of `s` whose score stands at place `k` of the total order, in
/// the order in which `s` holds them.
pub open spec fn with_key(s: Seq<ScoredPath>, k: int) -> Seq<ScoredPath> {
    s.filter(|r: ScoredPath| r.score.rank_key() == k)
}

/// Whether `sorted` holds the entries of `entries` in stable descending
/// order: it is descending, and for every score it holds the entries with
/// that score, all of them and no others, in the order in which `entries`
/// holds them.
pub open spec fn is_sorted_of(sorted: Seq<ScoredPath>, entries: Seq<ScoredPath>) -> bool {
    &&& is_descending(sorted)
    &&& forall|k: int| #[trigger] with_key(sorted, k) == with_key(entries, k)
}

/// Whether `ranked` is the stable descending ranking of `records`: the
/// sanitized records in stable descending order.
pub open spec fn is_ranking_of(ranked: Seq<ScoredPath>, records: Seq<ScoredPath>) -> bool {
    is_sorted_of(ranked, clean_all(records))
}

/// `sorted` with `x` put behind the last entry that does not rank below it.
pub open spec fn placed(sorted: Seq<ScoredPath>, x: ScoredPath) -> Seq<ScoredPath>
    decreases sorted.len(),
{
    if sorted.len() == 0 || sorted.last().score.rank_key() >= x.score.rank_key() {
        sorted.push(x)
    } else {
        placed(sorted.drop_last(), x).push(sorted.last())
    }
}

/// The ranking of `records`: each record in turn, sanitized, is placed into
/// the ranking of those before it.
pub open spec fn ranking(records: Seq<ScoredPath>) -> Seq<ScoredPath>
    decreases records.len(),
{
    if records.len() == 0 {
        Seq::empty()
    } else {
        placed(ranking(records.drop_last()), clean(records.last()))
    }
}

/// Placing an entry adds one entry.
pub proof fn lemma_placed_len(sorted: Seq<ScoredPath>, x: ScoredPath)
    ensures
        placed(sorted, x).len() == sorted.len() + 1,
    decreases sorted.len(),
{
    if !(sorted.len() == 0 || sorted.last().score.rank_key() >= x.score.rank_key()) {
        lemma_placed_len(sorted.drop_last(), x);
    }
}

proof fn lemma_placed_bounds(sorted: Seq<ScoredPath>, x: ScoredPath, i: int)
    requires
        0 <= i < placed(sorted, x).len(),
    ensures
        placed(sorted, x)[i] == x || sorted.contains(placed(sorted, x)[i]),
    decreases sorted.len(),
{
    lemma_placed_len(sorted, x);
    if sorted.len() == 0 || sorted.last().score.rank_key() >= x.score.rank_key() {
        if i < sorted.len() {
            assert(sorted[i] == placed(sorted, x)[i]);
        }
    } else {
        let front = sorted.drop_last();
        lemma_placed_len(front, x);
        if i < front.len() + 1 {
            lemma_placed_bounds(front, x, i);
            if placed(front, x)[i] != x {
                let j = choose|j: int| 0 <= j < front.len() && front[j] == placed(front, x)[i];
                assert(sorted[j] == placed(sorted, x)[i]);
            }
        } else {
            assert(sorted[sorted.len() - 1] == placed(sorted, x)[i]);
        }
    }
}

proof fn lemma_placed_descending(sorted: Seq<ScoredPath>, x: ScoredPath)
    requires
        is_descending(sorted),
    ensures
        is_descending(placed(sorted, x)),
    decreases sorted.len(),
{
    let out = placed(sorted, x);
    lemma_placed_len(sorted, x);
    if sorted.len() == 0 {
    } else if sorted.last().score.rank_key() >= x.score.rank_key() {
        assert forall|i: int, j: int| 0 <= i < j < out.len() implies out[i].score.rank_key()
            >= out[j].score.rank_key() by {
            if j == sorted.len() {
                if i < sorted.len() - 1 {
                    assert(sorted[i].score.rank_key() >= sorted[sorted.len() - 1].score.rank_key());
                }
            } else {
                assert(sorted[i].score.rank_key() >= sorted[j].score.rank_key());
            }
        }
    } else {
        let front = sorted.drop_last();
        let last = sorted.last();
        assert(is_descending(front)) by {
            assert forall|i: int, j: int| 0 <= i < j < front.len() implies front[i].score.rank_key()
                >= front[j].score.rank_key() by {
                assert(sorted[i].score.rank_key() >= sorted[j].score.rank_key());
            }
        }
        lemma_placed_descending(front, x);
        lemma_placed_len(front, x);
        let mid = placed(front, x);
        assert forall|i: int, j: int| 0 <= i < j < out.len() implies out[i].score.rank_key()
            >= out[j].score.rank_key() by {
            if j < mid.len() {
                assert(mid[i].score.rank_key() >= mid[j].score.rank_key());
            } else {
                lemma_placed_bounds(front, x, i);
                if mid[i] != x {
                    let m = choose|m: int| 0 <= m < front.len() && front[m] == mid[i];
                    assert(sorted[m].score.rank_key() >= sorted[sorted.len() - 1].score.rank_key());
                }
            }
        }
    }
}

proof fn lemma_placed_with_key(sorted: Seq<ScoredPath>, x: ScoredPath, k: int)
    ensures
        with_key(placed(sorted, x), k) == if x.score.rank_key() == k {
            with_key(sorted, k).push(x)
        } else {
            with_key(sorted, k)
        },
    decreases sorted.len(),
{
    reveal(Seq::filter);
    let pred = |r: ScoredPath| r.score.rank_key() == k;
    if sorted.len() == 0 || sorted.last().score.rank_key() >= x.score.rank_key() {
        assert(sorted.push(x).drop_last() == sorted);
    } else {
        let front = sorted.drop_last();
        let last = sorted.last();
        lemma_placed_with_key(front, x, k);
        assert(placed(front, x).push(last).drop_last() == placed(front, x));
    }
}

/// The ranking holds as many entries as there are records.
pub proof fn lemma_ranking_len(records: Seq<ScoredPath>)
    ensures
        ranking(records).len() == records.len(),
    decreases records.len(),
{
    if records.len() > 0 {
        lemma_ranking_len(records.drop_last());
        lemma_placed_len(ranking(records.drop_last()), clean(records.last()));
    }
}

/// The ranking is the stable descending ranking of the records: descending by
/// score, and among equal scores in the order in which the records came.
pub proof fn lemma_ranking_is_stable(records: Seq<ScoredPath>)
    ensures
        is_ranking_of(ranking(records), records),
    decreases records.len(),
{
    reveal(Seq::filter);
    if records.len() == 0 {
        assert(clean_all(records) =~= Seq::empty());
    } else {
        let front = records.drop_last();
        let x = clean(records.last());
        lemma_ranking_is_stable(front);
        lemma_placed_descending(ranking(front), x);
        assert(clean_all(records).drop_last() =~= clean_all(front));
        assert(clean_all(records).last() == x);
        assert forall|k: int| #[trigger]
            with_key(ranking(records), k) == with_key(clean_all(records), k) by {
            lemma_placed_with_key(ranking(front), x, k);
            assert(with_key(ranking(front), k) == with_key(clean_all(front), k));
        }
    }
}

/// No entry of the ranking is a pattern that stands for no number.
pub proof fn lemma_ranking_has_numbers_only(records: Seq<ScoredPath>, i: int)
    requires
        0 <= i < ranking(records).len(),
    ensures
        !ranking(records)[i].score.is_nan(),
    decreases records.len(),
{
    if records.len() > 0 {
        let front = records.drop_last();
        let x = clean(records.last());
        lemma_placed_bounds(ranking(front), x, i);
        if ranking(records)[i] != x {
            let j = choose|j: int|
                0 <= j < ranking(front).len() && ranking(front)[j] == ranking(records)[i];
            lemma_ranking_has_numbers_only(front, j);
        }
    }
}

/// Records that all have the same score come out in the order in which they
/// went in.
pub proof fn lemma_equal_scores_keep_order(records: Seq<ScoredPath>)
    requires
        forall|i: int, j: int|
            0 <= i < j < records.len() ==> records[i].score.sanitized()
                == records[j].score.sanitized(),
    ensures
        ranking(records) == clean_all(records),
    decreases records.len(),
{
    if records.len() == 0 {
        assert(clean_all(records) =~= Seq::empty());
    } else {
        let front = records.drop_last();
        let x = clean(records.last());
        lemma_equal_scores_keep_order(front);
        assert(clean_all(records).drop_last() =~= clean_all(front));
        lemma_ranking_len(front);
        if front.len() > 0 {
            assert(ranking(front).last() == clean(records[front.len() - 1]));
            assert(records[front.len() - 1].score.sanitized() == records[front.len() as int].score.sanitized());
        }
        assert(ranking(records) =~= clean_all(records));
    }
}

proof fn lemma_with_key_single(x: ScoredPath, k: int)
    ensures
        with_key(seq![x], k) == if x.score.rank_key() == k {
            seq![x]
        } else {
            Seq::empty()
        },
{
    reveal(Seq::filter);
    let pred = |r: ScoredPath| r.score.rank_key() == k;
    let none = Seq::<ScoredPath>::empty();
    assert(seq![x].drop_last() =~= none);
    assert(none.filter(pred) =~= none);
    assert(seq![x].last() == x);
    if x.score.rank_key() == k {
        assert(none.push(x) =~= seq![x]);
    }
}

proof fn lemma_with_key_has(s: Seq<ScoredPath>, i: int)
    requires
        0 <= i < s.len(),
    ensures
        with_key(s, s[i].score.rank_key()).len() > 0,
{
    let k = s[i].score.rank_key();
    let pred = |r: ScoredPath| r.score.rank_key() == k;
    s.lemma_filter_contains(pred, i);
}

proof fn lemma_with_key_from(s: Seq<ScoredPath>, k: int)
    requires
        with_key(s, k).len() > 0,
    ensures
        exists|i: int| 0 <= i < s.len() && (#[trigger] s[i]).score.rank_key() == k,
{
    let pred = |r: ScoredPath| r.score.rank_key() == k;
    let x = with_key(s, k)[0];
    s.lemma_filter_pred(pred, 0);
    assert(with_key(s, k).contains(x));
    s.lemma_filter_contains_rev(pred, x);
    let i = choose|i: int| 0 <= i < s.len() && s[i] == x;
    assert(s[i].score.rank_key() == k);
}

proof fn lemma_descending_front(s: Seq<ScoredPath>)
    requires
        is_descending(s),
        s.len() > 0,
    ensures
        is_descending(s.drop_last()),
{
    let front = s.drop_last();
    assert forall|i: int, j: int| 0 <= i < j < front.len() implies front[i].score.rank_key()
        >= front[j].score.rank_key() by {
        assert(s[i].score.rank_key() >= s[j].score.rank_key());
    }
}

proof fn lemma_last_has_least_key(s: Seq<ScoredPath>, i: int)
    requires
        is_descending(s),
        0 <= i < s.len(),
    ensures
        s[i].score.rank_key() >= s.last().score.rank_key(),
{
    if i < s.len() - 1 {
        assert(s[i].score.rank_key() >= s[s.len() - 1].score.rank_key());
    }
}

/// Two sequences in descending order that hold, for every score, the same
/// entries in the same order are the same sequence: the stable descending
/// order of given entries is one order and no other.
pub proof fn lemma_stable_order_is_unique(a: Seq<ScoredPath>, b: Seq<ScoredPath>)
    requires
        is_descending(a),
        is_descending(b),
        forall|k: int| #[trigger] with_key(a, k) == with_key(b, k),
    ensures
        a == b,
    decreases a.len(),
{
    reveal(Seq::filter);
    if a.len() == 0 {
        if b.len() > 0 {
            lemma_with_key_has(b, 0);
            assert(with_key(a, b[0].score.rank_key()) == with_key(b, b[0].score.rank_key()));
        }
        assert(a =~= b);
    } else {
        let x = a.last();
        let k = x.score.rank_key();
        lemma_with_key_has(a, a.len() - 1);
        assert(with_key(a, k) == with_key(b, k));
        lemma_with_key_from(b, k);
        let j = choose|j: int| 0 <= j < b.len() && (#[trigger] b[j]).score.rank_key() == k;
        let y = b.last();
        let ky = y.score.rank_key();
        lemma_last_has_least_key(b, j);
        assert(ky <= k);
        lemma_with_key_has(b, b.len() - 1);
        assert(with_key(a, ky) == with_key(b, ky));
        lemma_with_key_from(a, ky);
        let i = choose|i: int| 0 <= i < a.len() && (#[trigger] a[i]).score.rank_key() == ky;
        lemma_last_has_least_key(a, i);
        assert(ky == k);
        assert(with_key(a, k) == with_key(a.drop_last(), k).push(x));
        assert(with_key(b, k) == with_key(b.drop_last(), k).push(y));
        assert(with_key(a, k).last() == x);
        assert(with_key(b, k).last() == y);
        assert(x == y);
        assert(with_key(a.drop_last(), k) == with_key(a, k).drop_last());
        assert(with_key(b.drop_last(), k) == with_key(b, k).drop_last());
        lemma_descending_front(a);
        lemma_descending_front(b);
        assert forall|q: int| #[trigger]
            with_key(a.drop_last(), q) == with_key(b.drop_last(), q) by {
            assert(with_key(a, q) == with_key(b, q));
        }
        lemma_stable_order_is_unique(a.drop_last(), b.drop_last());
        assert(a =~= a.drop_last().push(x));
        assert(b =~= b.drop_last().push(y));
    }
}

/// Whatever is the stable descending ranking of the records is the ranking
/// that [`ranking`] describes.
pub proof fn lemma_ranking_is_the_one(ranked: Seq<ScoredPath>, records: Seq<ScoredPath>)
    requires
        is_ranking_of(ranked, records),
    ensures
        ranked == ranking(records),
{
    lemma_ranking_is_stable(records);
    assert forall|k: int| #[trigger] with_key(ranked, k) == with_key(ranking(records), k) by {
        assert(with_key(ranked, k) == with_key(clean_all(records), k));
        assert(with_key(ranking(records), k) == with_key(clean_all(records), k));
    }
    lemma_stable_order_is_unique(ranked, ranking(records));
}

fn sanitize_all(records: &Vec<ScoredPath>) -> (cleaned: Vec<ScoredPath>)
    ensures
        cleaned@ == clean_all(records@),
{
    let mut cleaned: Vec<ScoredPath> = Vec::new();
    let mut i: usize = 0;
    while i < records.len()
        invariant
            i <= records.len(),
            cleaned@ == clean_all(records@).take(i as int),
        decreases records.len() - i,
    {
        let item = ScoredPath { path: records[i].path.clone(), score: records[i].score.sanitize() };
        cleaned.push(item);
        assert(clean_all(records@).take(i as int).push(item) =~= clean_all(records@).take(i + 1));
        i += 1;
    }
    assert(clean_all(records@).take(records.len() as int) =~= clean_all(records@));
    cleaned
}

fn reversed(mut v: Vec<ScoredPath>) -> (r: Vec<ScoredPath>)
    ensures
        r@.len() == v@.len(),
        forall|i: int| 0 <= i < r@.len() ==> r@[i] == v@[v@.len() - 1 - i],
{
    let ghost all = v@;
    let mut r: Vec<ScoredPath> = Vec::new();
    while v.len() > 0
        invariant
            v@ == all.take(v@.len() as int),
            v@.len() + r@.len() == all.len(),
            forall|i: int| 0 <= i < r@.len() ==> r@[i] == all[all.len() - 1 - i],
        decreases v.len(),
    {
        let x = v.pop().unwrap();
        r.push(x);
    }
    r
}

/// Merges two sequences in stable descending order into one: where scores
/// tie, the entries of `a` come before those of `b`.
fn merge(mut a: Vec<ScoredPath>, mut b: Vec<ScoredPath>) -> (merged: Vec<ScoredPath>)
    requires
        is_descending(a@),
        is_descending(b@),
    ensures
        is_sorted_of(merged@, a@ + b@),
{
    let ghost a0 = a@;
    let ghost b0 = b@;
    let ghost mut tail: Seq<ScoredPath> = Seq::empty();
    let mut back: Vec<ScoredPath> = Vec::new();
    proof {
        reveal(Seq::filter);
        assert(a0.skip(a0.len() as int) =~= Seq::empty());
        assert(b0.skip(b0.len() as int) =~= Seq::empty());
        assert forall|k: int| #[trigger]
            with_key(tail, k) == with_key(a0.skip(a@.len() as int), k) + with_key(
                b0.skip(b@.len() as int),
                k,
            ) by {
            assert(with_key(tail, k) =~= with_key(tail, k) + with_key(tail, k));
        }
    }
    while a.len() > 0 || b.len() > 0
        invariant
            is_descending(a0),
            is_descending(b0),
            a@ == a0.take(a@.len() as int),
            b@ == b0.take(b@.len() as int),
            a@.len() <= a0.len(),
            b@.len() <= b0.len(),
            tail.len() == back@.len(),
            forall|i: int| 0 <= i < tail.len() ==> tail[i] == back@[back@.len() - 1 - i],
            is_descending(tail),
            forall|i: int|
                0 <= i < a@.len() && tail.len() > 0 ==> (#[trigger] a@[i]).score.rank_key()
                    >= tail[0].score.rank_key(),
            forall|i: int|
                0 <= i < b@.len() && tail.len() > 0 ==> (#[trigger] b@[i]).score.rank_key()
                    >= tail[0].score.rank_key(),
            forall|i: int|
                a@.len() <= i < a0.len() && b@.len() > 0 ==> (#[trigger] a0[i]).score.rank_key()
                    < b@.last().score.rank_key(),
            forall|k: int| #[trigger]
                with_key(tail, k) == with_key(a0.skip(a@.len() as int), k) + with_key(
                    b0.skip(b@.len() as int),
                    k,
                ),
        decreases a.len() + b.len(),
    {
        let from_a: bool = if b.len() == 0 {
            true
        } else if a.len() == 0 {
            false
        } else {
            a[a.len() - 1].score.key() < b[b.len() - 1].score.key()
        };
        let ghost na = a@.len() as int;
        let ghost nb = b@.len() as int;
        let ghost old_tail = tail;
        if from_a {
            let x = a.pop().unwrap();
            proof {
                tail = seq![x] + old_tail;
                assert(a0[na - 1] == x);
                assert forall|i: int, j: int| 0 <= i < j < tail.len() implies tail[i].score.rank_key()
                    >= tail[j].score.rank_key() by {
                    if i == 0 {
                        assert(old_tail[j - 1].score.rank_key() <= old_tail[0].score.rank_key());
                        assert(a0.take(na)[na - 1].score.rank_key() >= old_tail[0].score.rank_key());
                    } else {
                        assert(old_tail[i - 1].score.rank_key() >= old_tail[j - 1].score.rank_key());
                    }
                }
                assert forall|i: int| 0 <= i < a@.len() implies (#[trigger] a@[i]).score.rank_key()
                    >= tail[0].score.rank_key() by {
                    assert(a0[i].score.rank_key() >= a0[na - 1].score.rank_key());
                }
                assert forall|i: int| 0 <= i < b@.len() implies (#[trigger] b@[i]).score.rank_key()
                    >= tail[0].score.rank_key() by {
                    assert(b0[i].score.rank_key() >= b0[nb - 1].score.rank_key());
                    assert(b@.last() == b0[nb - 1]);
                }
                assert(a0.skip(na - 1) =~= seq![x] + a0.skip(na));
                assert forall|k: int| #[trigger]
                    with_key(tail, k) == with_key(a0.skip(a@.len() as int), k) + with_key(
                        b0.skip(b@.len() as int),
                        k,
                    ) by {
                    let pred = |r: ScoredPath| r.score.rank_key() == k;
                    Seq::filter_distributes_over_add(seq![x], old_tail, pred);
                    Seq::filter_distributes_over_add(seq![x], a0.skip(na), pred);
                    assert(with_key(old_tail, k) == with_key(a0.skip(na), k) + with_key(
                        b0.skip(nb),
                        k,
                    ));
                    assert(with_key(tail, k) =~= with_key(seq![x], k) + with_key(a0.skip(na), k)
                        + with_key(b0.skip(nb), k));
                }
            }
            back.push(x);
        } else {
            let x = b.pop().unwrap();
            proof {
                tail = seq![x] + old_tail;
                assert(b0[nb - 1] == x);
                assert forall|i: int, j: int| 0 <= i < j < tail.len() implies tail[i].score.rank_key()
                    >= tail[j].score.rank_key() by {
                    if i == 0 {
                        assert(old_tail[j - 1].score.rank_key() <= old_tail[0].score.rank_key());
                        assert(b0.take(nb)[nb - 1].score.rank_key() >= old_tail[0].score.rank_key());
                    } else {
                        assert(old_tail[i - 1].score.rank_key() >= old_tail[j - 1].score.rank_key());
                    }
                }
                assert forall|i: int| 0 <= i < a@.len() implies (#[trigger] a@[i]).score.rank_key()
                    >= tail[0].score.rank_key() by {
                    assert(a0[i].score.rank_key() >= a0[na - 1].score.rank_key());
                    assert(a@.last() == a0[na - 1]);
                }
                assert forall|i: int| 0 <= i < b@.len() implies (#[trigger] b@[i]).score.rank_key()
                    >= tail[0].score.rank_key() by {
                    assert(b0[i].score.rank_key() >= b0[nb - 1].score.rank_key());
                }
                assert forall|i: int| a@.len() <= i < a0.len() && b@.len() > 0 implies (
                #[trigger] a0[i]).score.rank_key() < b@.last().score.rank_key() by {
                    assert(b@.last() == b0[nb - 2]);
                    assert(b0[nb - 2].score.rank_key() >= b0[nb - 1].score.rank_key());
                    assert(b0.take(nb).last() == b0[nb - 1]);
                }
                assert(b0.skip(nb - 1) =~= seq![x] + b0.skip(nb));
                assert forall|k: int| #[trigger]
                    with_key(tail, k) == with_key(a0.skip(a@.len() as int), k) + with_key(
                        b0.skip(b@.len() as int),
                        k,
                    ) by {
                    let pred = |r: ScoredPath| r.score.rank_key() == k;
                    Seq::filter_distributes_over_add(seq![x], old_tail, pred);
                    Seq::filter_distributes_over_add(seq![x], b0.skip(nb), pred);
                    assert(with_key(old_tail, k) == with_key(a0.skip(na), k) + with_key(
                        b0.skip(nb),
                        k,
                    ));
                    if x.score.rank_key() == k {
                        if with_key(a0.skip(na), k).len() > 0 {
                            lemma_with_key_from(a0.skip(na), k);
                            let i = choose|i: int|
                                0 <= i < a0.skip(na).len() && (#[trigger] a0.skip(
                                    na,
                                )[i]).score.rank_key() == k;
                            assert(a0[na + i].score.rank_key() < b0.take(nb).last().score.rank_key());
                        }
                        assert(with_key(a0.skip(na), k) =~= Seq::empty());
                        assert(with_key(tail, k) =~= with_key(a0.skip(na), k) + (with_key(
                            seq![x],
                            k,
                        ) + with_key(b0.skip(nb), k)));
                    } else {
                        lemma_with_key_single(x, k);
                        assert(with_key(tail, k) =~= with_key(a0.skip(na), k) + (with_key(
                            seq![x],
                            k,
                        ) + with_key(b0.skip(nb), k)));
                    }
                }
            }
            back.push(x);
        }
    }
    let merged = reversed(back);
    proof {
        assert(merged@ =~= tail);
        assert(a0.skip(0) =~= a0);
        assert(b0.skip(0) =~= b0);
        assert forall|k: int| #[trigger] with_key(merged@, k) == with_key(a0 + b0, k) by {
            let pred = |r: ScoredPath| r.score.rank_key() == k;
            Seq::filter_distributes_over_add(a0, b0, pred);
            assert(with_key(tail, k) == with_key(a0.skip(a@.len() as int), k) + with_key(
                b0.skip(b@.len() as int),
                k,
            ));
        }
    }
    merged
}

/// Sorts entries into stable descending order.
fn sort(mut entries: Vec<ScoredPath>) -> (sorted: Vec<ScoredPath>)
    ensures
        is_sorted_of(sorted@, entries@),
    decreases entries@.len(),
{
    if entries.len() <= 1 {
        proof {
            assert(is_descending(entries@));
        }
        return entries;
    }
    let ghost all = entries@;
    let mid: usize = entries.len() / 2;
    let right = entries.split_off(mid);
    let ghost left_part = entries@;
    let ghost right_part = right@;
    assert(left_part + right_part =~= all);
    let left_sorted = sort(entries);
    let right_sorted = sort(right);
    let merged = merge(left_sorted, right_sorted);
    proof {
        assert forall|k: int| #[trigger] with_key(merged@, k) == with_key(all, k) by {
            let pred = |r: ScoredPath| r.score.rank_key() == k;
            Seq::filter_distributes_over_add(left_sorted@, right_sorted@, pred);
            Seq::filter_distributes_over_add(left_part, right_part, pred);
            assert(with_key(merged@, k) == with_key(left_sorted@ + right_sorted@, k));
            assert(with_key(left_sorted@, k) == with_key(left_part, k));
            assert(with_key(right_sorted@, k) == with_key(right_part, k));
        }
    }
    merged
}

/// Ranks the records: descending by score, ties in the order given, and plus
/// zero in place of every score that is no number.
pub fn rank(records: &Vec<ScoredPath>) -> (ranked: Vec<ScoredPath>)
    ensures
        ranked@ == ranking(records@),
        is_ranking_of(ranked@, records@),
        ranked@.len() == records@.len(),
        forall|i: int| 0 <= i < ranked@.len() ==> !(#[trigger] ranked@[i]).score.is_nan(),
{
    let ranked = sort(sanitize_all(records));
    proof {
        lemma_ranking_is_the_one(ranked@, records@);
        lemma_ranking_len(records@);
        assert forall|i: int| 0 <= i < ranked@.len() implies !(#[trigger] ranked@[i]).score.is_nan() by {
            lemma_ranking_has_numbers_only(records@, i);
        }
    }
    ranked
}

} // verus!

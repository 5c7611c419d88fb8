//! The report does not depend on the order in which the messages come.
use vstd::prelude::*;

use crate::calendar::day_label_text;
use crate::detector::detections_of;
use crate::messages::UserMessage;
use crate::ranking::lemma_ranking_unique;
use crate::report::{
    describes, lemma_max_day_attained, lemma_min_day_attained, message_detections, report_outcome,
    DailyCount, ReportData, ReportError,
};
use crate::tally::{
    add_word, add_words, counts_total, day_total_upto, lemma_day_bounds, max_day_upto, message_day,
    min_day_upto, profanities_upto, word_totals_upto, WordCounts,
};

verus! {

/// The sum of `f` over the messages `ms`.
pub open spec fn sum_over(ms: Seq<UserMessage>, f: spec_fn(UserMessage) -> int) -> int
    decreases ms.len(),
{
    if ms.len() == 0 {
        0
    } else {
        sum_over(ms.drop_last(), f) + f(ms.last())
    }
}

proof fn lemma_sum_over_remove(ms: Seq<UserMessage>, f: spec_fn(UserMessage) -> int, i: int)
    requires
        0 <= i < ms.len(),
    ensures
        sum_over(ms, f) == sum_over(ms.remove(i), f) + f(ms[i]),
    decreases ms.len(),
{
    if i == ms.len() - 1 {
        assert(ms.remove(i) =~= ms.drop_last());
    } else {
        lemma_sum_over_remove(ms.drop_last(), f, i);
        assert(ms.remove(i).drop_last() =~= ms.drop_last().remove(i));
        assert(ms.remove(i).last() == ms.last());
    }
}

/// A sum over the messages does not depend on their order.
pub proof fn lemma_sum_over_permutation(a: Seq<UserMessage>, b: Seq<UserMessage>, f: spec_fn(UserMessage) -> int)
    requires
        a.to_multiset() == b.to_multiset(),
    ensures
        sum_over(a, f) == sum_over(b, f),
    decreases a.len(),
{
    broadcast use vstd::seq_lib::group_to_multiset_ensures;

    assert(a.to_multiset().len() == a.len() && b.to_multiset().len() == b.len());
    if a.len() == 0 {
        assert(b.len() == 0);
    } else {
        let n = a.len() - 1;
        let x = a[n];
        assert(a.contains(x));
        assert(a.to_multiset().count(x) > 0);
        assert(b.to_multiset().count(x) > 0);
        assert(b.contains(x));
        let k = choose|k: int| 0 <= k < b.len() && b[k] == x;
        assert(a.remove(n) =~= a.drop_last());
        assert(a.remove(n).to_multiset() == b.remove(k).to_multiset());
        lemma_sum_over_permutation(a.drop_last(), b.remove(k), f);
        lemma_sum_over_remove(b, f, k);
    }
}

/// The profanities of a message, as a detector with `words` finds them.
pub open spec fn total_of(words: Seq<Seq<char>>) -> spec_fn(UserMessage) -> int {
    |m: UserMessage| counts_total(detections_of(words, m.text@))
}

/// The profanities of a message if it falls on `day`, else 0.
pub open spec fn day_share(words: Seq<Seq<char>>, day: int) -> spec_fn(UserMessage) -> int {
    |m: UserMessage|
        if message_day(m.time) == day {
            counts_total(detections_of(words, m.text@))
        } else {
            0
        }
}

/// The count of `w` among `pairs`.
pub open spec fn word_count_in(pairs: WordCounts, w: Seq<char>) -> int
    decreases pairs.len(),
{
    if pairs.len() == 0 {
        0
    } else {
        word_count_in(pairs.drop_last(), w) + if pairs.last().0 == w {
            pairs.last().1 as int
        } else {
            0
        }
    }
}

/// `w` is among `pairs`.
pub open spec fn mentions(pairs: WordCounts, w: Seq<char>) -> bool
    decreases pairs.len(),
{
    pairs.len() > 0 && (mentions(pairs.drop_last(), w) || pairs.last().0 == w)
}

/// The count of `w` in a message.
pub open spec fn word_share(words: Seq<Seq<char>>, w: Seq<char>) -> spec_fn(UserMessage) -> int {
    |m: UserMessage| word_count_in(detections_of(words, m.text@), w)
}

/// 1 for a message in which `w` is found, else 0.
pub open spec fn mention_share(words: Seq<Seq<char>>, w: Seq<char>) -> spec_fn(UserMessage) -> int {
    |m: UserMessage|
        if mentions(detections_of(words, m.text@), w) {
            1
        } else {
            0
        }
}

/// The tally of `w` in `m`, or 0 when `m` has none.
pub open spec fn tally_of(m: Map<Seq<char>, int>, w: Seq<char>) -> int {
    if m.dom().contains(w) {
        m[w]
    } else {
        0
    }
}

proof fn lemma_add_words_pointwise(m: Map<Seq<char>, int>, pairs: WordCounts, w: Seq<char>)
    ensures
        add_words(m, pairs).dom().contains(w) == (m.dom().contains(w) || mentions(pairs, w)),
        tally_of(add_words(m, pairs), w) == tally_of(m, w) + word_count_in(pairs, w),
    decreases pairs.len(),
{
    if pairs.len() > 0 {
        lemma_add_words_pointwise(m, pairs.drop_last(), w);
    }
}

proof fn lemma_sums_of_prefix(words: Seq<Seq<char>>, msgs: Seq<UserMessage>, day: int, w: Seq<char>, k: int)
    requires
        0 <= k <= msgs.len(),
    ensures
        profanities_upto(message_detections(words, msgs), k) == sum_over(msgs.take(k), total_of(words)),
        day_total_upto(msgs, message_detections(words, msgs), day, k) == sum_over(
            msgs.take(k),
            day_share(words, day),
        ),
        word_totals_upto(message_detections(words, msgs), k).dom().contains(w) == (sum_over(
            msgs.take(k),
            mention_share(words, w),
        ) > 0),
        tally_of(word_totals_upto(message_detections(words, msgs), k), w) == sum_over(
            msgs.take(k),
            word_share(words, w),
        ),
        sum_over(msgs.take(k), mention_share(words, w)) >= 0,
    decreases k,
{
    let dets = message_detections(words, msgs);
    if k == 0 {
        assert(msgs.take(0) =~= Seq::<UserMessage>::empty());
    } else {
        lemma_sums_of_prefix(words, msgs, day, w, k - 1);
        assert(msgs.take(k).drop_last() =~= msgs.take(k - 1));
        assert(msgs.take(k).last() == msgs[k - 1]);
        assert(dets[k - 1] == detections_of(words, msgs[k - 1].text@));
        lemma_add_words_pointwise(word_totals_upto(dets, k - 1), dets[k - 1], w);
    }
}

proof fn lemma_full_take(msgs: Seq<UserMessage>)
    ensures
        msgs.take(msgs.len() as int) == msgs,
{
    assert(msgs.take(msgs.len() as int) =~= msgs);
}

proof fn lemma_day_range_unchanged(msgs: Seq<UserMessage>, perm: Seq<UserMessage>)
    requires
        msgs.to_multiset() == perm.to_multiset(),
        msgs.len() > 0,
    ensures
        perm.len() == msgs.len(),
        min_day_upto(msgs, msgs.len() as int) == min_day_upto(perm, perm.len() as int),
        max_day_upto(msgs, msgs.len() as int) == max_day_upto(perm, perm.len() as int),
{
    broadcast use vstd::seq_lib::group_to_multiset_ensures;

    let n = msgs.len() as int;
    assert(msgs.to_multiset().len() == msgs.len() && perm.to_multiset().len() == perm.len());
    assert(perm.len() == n);
    lemma_min_day_attained(msgs, n);
    lemma_min_day_attained(perm, n);
    lemma_max_day_attained(msgs, n);
    lemma_max_day_attained(perm, n);
    let a = choose|j: int| 0 <= j < n && message_day(msgs[j].time) == min_day_upto(msgs, n);
    let b = choose|j: int| 0 <= j < n && message_day(perm[j].time) == min_day_upto(perm, n);
    let c = choose|j: int| 0 <= j < n && message_day(msgs[j].time) == max_day_upto(msgs, n);
    let d = choose|j: int| 0 <= j < n && message_day(perm[j].time) == max_day_upto(perm, n);
    assert(msgs.contains(msgs[a]) && msgs.contains(msgs[c]));
    assert(perm.contains(perm[b]) && perm.contains(perm[d]));
    assert(msgs.to_multiset().count(msgs[a]) > 0 && msgs.to_multiset().count(msgs[c]) > 0);
    assert(perm.to_multiset().count(perm[b]) > 0 && perm.to_multiset().count(perm[d]) > 0);
    assert(perm.contains(msgs[a]) && perm.contains(msgs[c]));
    assert(msgs.contains(perm[b]) && msgs.contains(perm[d]));
    let pa = choose|j: int| 0 <= j < n && perm[j] == msgs[a];
    let mb = choose|j: int| 0 <= j < n && msgs[j] == perm[b];
    let pc = choose|j: int| 0 <= j < n && perm[j] == msgs[c];
    let md = choose|j: int| 0 <= j < n && msgs[j] == perm[d];
    lemma_day_bounds(perm, n, pa);
    lemma_day_bounds(msgs, n, mb);
    lemma_day_bounds(perm, n, pc);
    lemma_day_bounds(msgs, n, md);
}

/// The daily counts as plain values: each day's label and count.
pub open spec fn daily_view(days: Seq<DailyCount>) -> Seq<(Seq<char>, i64)> {
    days.map_values(|d: DailyCount| (d.label@, d.count))
}

/// `d1` and `d2` show the same report: every field holds the same value,
/// the order of the word list included.
pub open spec fn same_report(d1: ReportData, d2: ReportData) -> bool {
    &&& d1.total_profanities == d2.total_profanities
    &&& d1.total_tokens == d2.total_tokens
    &&& d1.message_count == d2.message_count
    &&& d1.range_start@ == d2.range_start@
    &&& d1.range_end@ == d2.range_end@
    &&& d1.submit_endpoint@ == d2.submit_endpoint@
    &&& d1.word_counts.deep_view() == d2.word_counts.deep_view()
    &&& daily_view(d1.daily_counts@) == daily_view(d2.daily_counts@)
}

proof fn lemma_same_data(
    words: Seq<Seq<char>>,
    msgs: Seq<UserMessage>,
    perm: Seq<UserMessage>,
    tokens: i64,
    d1: ReportData,
    d2: ReportData,
)
    requires
        msgs.to_multiset() == perm.to_multiset(),
        describes(d1, msgs, message_detections(words, msgs), tokens),
        describes(d2, perm, message_detections(words, perm), tokens),
    ensures
        same_report(d1, d2),
{
    broadcast use vstd::seq_lib::group_to_multiset_ensures;

    let n = msgs.len() as int;
    assert(msgs.to_multiset().len() == msgs.len() && perm.to_multiset().len() == perm.len());
    assert(perm.len() == n);
    let dm = message_detections(words, msgs);
    let dp = message_detections(words, perm);
    lemma_full_take(msgs);
    lemma_full_take(perm);
    lemma_sums_of_prefix(words, msgs, 0, Seq::empty(), n);
    lemma_sums_of_prefix(words, perm, 0, Seq::empty(), n);
    lemma_sum_over_permutation(msgs, perm, total_of(words));
    let m1 = word_totals_upto(dm, n);
    let m2 = word_totals_upto(dp, n);
    assert(m1 =~= m2) by {
        assert forall|w: Seq<char>| #[trigger] m1.dom().contains(w) == m2.dom().contains(w) by {
            lemma_sums_of_prefix(words, msgs, 0, w, n);
            lemma_sums_of_prefix(words, perm, 0, w, n);
            lemma_sum_over_permutation(msgs, perm, mention_share(words, w));
        }
        assert forall|w: Seq<char>| #[trigger] m1.dom().contains(w) implies m1[w] == m2[w] by {
            lemma_sums_of_prefix(words, msgs, 0, w, n);
            lemma_sums_of_prefix(words, perm, 0, w, n);
            lemma_sum_over_permutation(msgs, perm, mention_share(words, w));
            lemma_sum_over_permutation(msgs, perm, word_share(words, w));
        }
    }
    lemma_ranking_unique(d1.word_counts.deep_view(), d2.word_counts.deep_view(), m1);
    if n > 0 {
        lemma_day_range_unchanged(msgs, perm);
        let lo = min_day_upto(msgs, n);
        assert forall|k: int| 0 <= k < d1.daily_counts@.len() implies #[trigger] daily_view(
            d1.daily_counts@,
        )[k] == daily_view(d2.daily_counts@)[k] by {
            lemma_sums_of_prefix(words, msgs, lo + k, Seq::empty(), n);
            lemma_sums_of_prefix(words, perm, lo + k, Seq::empty(), n);
            lemma_sum_over_permutation(msgs, perm, day_share(words, lo + k));
            assert(d1.daily_counts@[k].count == d2.daily_counts@[k].count);
            assert(d1.daily_counts@[k].label@ == day_label_text(lo + k));
            assert(d2.daily_counts@[k].label@ == day_label_text(lo + k));
        }
    }
    assert(daily_view(d1.daily_counts@) =~= daily_view(d2.daily_counts@));
}

/// The report does not depend on the order of the messages: for two lists
/// that hold the same messages, building the report gives the same data,
/// every field and the order of the word list included, or, for both, the
/// error for the same day.
pub proof fn lemma_report_ignores_message_order(
    words: Seq<Seq<char>>,
    msgs: Seq<UserMessage>,
    perm: Seq<UserMessage>,
    tokens: i64,
    r1: Result<ReportData, ReportError>,
    r2: Result<ReportData, ReportError>,
)
    requires
        msgs.to_multiset() == perm.to_multiset(),
        report_outcome(r1, msgs, message_detections(words, msgs), tokens),
        report_outcome(r2, perm, message_detections(words, perm), tokens),
    ensures
        (r1 is Ok) == (r2 is Ok),
        r1 matches Ok(d1) ==> (r2 matches Ok(d2) && same_report(d1, d2)),
        r1 matches Err(ReportError::InvalidTimestamp { value: v1, .. }) ==> (r2 matches Err(
            ReportError::InvalidTimestamp { value: v2, .. },
        ) && v1 == v2),
{
    broadcast use vstd::seq_lib::group_to_multiset_ensures;

    let n = msgs.len() as int;
    assert(msgs.to_multiset().len() == msgs.len() && perm.to_multiset().len() == perm.len());
    assert(perm.len() == n);
    if n > 0 {
        lemma_day_range_unchanged(msgs, perm);
    }
    if let Ok(d1) = r1 {
        if let Ok(d2) = r2 {
            lemma_same_data(words, msgs, perm, tokens, d1, d2);
        }
    }
}

} // verus!

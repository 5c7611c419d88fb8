//! Tallies of the detected profanities: per message, per day and per word.
use vstd::prelude::*;

use crate::messages::UserMessage;

verus! {

/// Milliseconds in a day.
pub const DAY_MS: i64 = 86_400_000;

/// The day (days since the Unix epoch, rounded down) of a time in
/// milliseconds since the epoch.
pub open spec fn message_day(time: i64) -> int {
    time as int / DAY_MS as int
}

/// The day of a time in milliseconds since the Unix epoch
/// (`time.div_euclid(DAY_MS)`).
pub fn day_of(time: i64) -> (d: i64)
    ensures
        d == message_day(time),
{
    if time >= 0 {
        time / DAY_MS
    } else {
        let u: i64 = -(time + 1);
        let q: i64 = u / DAY_MS;
        proof {
            let r = u % DAY_MS;
            assert(u == q * DAY_MS + r && 0 <= r < DAY_MS) by (nonlinear_arith)
                requires
                    u >= 0,
                    q == u / DAY_MS,
                    r == u % DAY_MS,
            ;
            assert(time as int == (-q - 1) * DAY_MS + (DAY_MS - r - 1)) by (nonlinear_arith)
                requires
                    time == -(u + 1),
                    u == q * DAY_MS + r,
            ;
            vstd::arithmetic::div_mod::lemma_fundamental_div_mod_converse(
                time as int,
                DAY_MS as int,
                -q - 1,
                DAY_MS - r - 1,
            );
        }
        -q - 1
    }
}

/// What a detector reports for one text: each word with the number of
/// times it was found.
pub type WordCounts = Seq<(Seq<char>, i64)>;

/// The sum of the counts in `pairs`.
pub open spec fn counts_total(pairs: WordCounts) -> int
    decreases pairs.len(),
{
    if pairs.len() == 0 {
        0
    } else {
        counts_total(pairs.drop_last()) + pairs.last().1
    }
}

/// No count in `pairs` is negative.
pub open spec fn counts_nonnegative(pairs: WordCounts) -> bool {
    forall|i: int| 0 <= i < pairs.len() ==> 0 <= #[trigger] pairs[i].1
}

/// No count in any entry of `dets` is negative.
pub open spec fn all_counts_nonnegative(dets: Seq<WordCounts>) -> bool {
    forall|i: int| 0 <= i < dets.len() ==> counts_nonnegative(#[trigger] dets[i])
}

/// The profanities found in the first `n` messages.
pub open spec fn profanities_upto(dets: Seq<WordCounts>, n: int) -> int
    decreases n,
{
    if n <= 0 {
        0
    } else {
        profanities_upto(dets, n - 1) + counts_total(dets[n - 1])
    }
}

/// The profanities found in those of the first `n` messages that fall on `day`.
pub open spec fn day_total_upto(msgs: Seq<UserMessage>, dets: Seq<WordCounts>, day: int, n: int) -> int
    decreases n,
{
    if n <= 0 {
        0
    } else {
        day_total_upto(msgs, dets, day, n - 1) + if message_day(msgs[n - 1].time) == day {
            counts_total(dets[n - 1])
        } else {
            0
        }
    }
}

/// The earliest day among the first `n >= 1` messages.
pub open spec fn min_day_upto(msgs: Seq<UserMessage>, n: int) -> int
    decreases n,
{
    if n <= 1 {
        message_day(msgs[0].time)
    } else {
        let prev = min_day_upto(msgs, n - 1);
        let d = message_day(msgs[n - 1].time);
        if d < prev {
            d
        } else {
            prev
        }
    }
}

/// The latest day among the first `n >= 1` messages.
pub open spec fn max_day_upto(msgs: Seq<UserMessage>, n: int) -> int
    decreases n,
{
    if n <= 1 {
        message_day(msgs[0].time)
    } else {
        let prev = max_day_upto(msgs, n - 1);
        let d = message_day(msgs[n - 1].time);
        if d > prev {
            d
        } else {
            prev
        }
    }
}

/// `m` with `c` added to the tally of `w` (a word not yet tallied starts at 0).
pub open spec fn add_word(m: Map<Seq<char>, int>, w: Seq<char>, c: int) -> Map<Seq<char>, int> {
    m.insert(w, (if m.dom().contains(w) { m[w] } else { 0 }) + c)
}

/// `m` with every pair of `pairs` added, in order.
pub open spec fn add_words(m: Map<Seq<char>, int>, pairs: WordCounts) -> Map<Seq<char>, int>
    decreases pairs.len(),
{
    if pairs.len() == 0 {
        m
    } else {
        add_word(add_words(m, pairs.drop_last()), pairs.last().0, pairs.last().1 as int)
    }
}

/// The tally of each word over the first `n` messages.
pub open spec fn word_totals_upto(dets: Seq<WordCounts>, n: int) -> Map<Seq<char>, int>
    decreases n,
{
    if n <= 0 {
        Map::empty()
    } else {
        add_words(word_totals_upto(dets, n - 1), dets[n - 1])
    }
}

// ---------------------------------------------------------------------------
// Lemmas on the tallies
// ---------------------------------------------------------------------------

pub(crate) proof fn lemma_counts_total_nonnegative(pairs: WordCounts)
    requires
        counts_nonnegative(pairs),
    ensures
        0 <= counts_total(pairs),
        forall|j: int| 0 <= j <= pairs.len() ==> #[trigger] counts_total(pairs.take(j)) <= counts_total(pairs),
    decreases pairs.len(),
{
    if pairs.len() > 0 {
        let p = pairs.drop_last();
        assert(counts_nonnegative(p)) by {
            assert forall|i: int| 0 <= i < p.len() implies 0 <= #[trigger] p[i].1 by {
                assert(p[i] == pairs[i]);
            }
        }
        lemma_counts_total_nonnegative(p);
        assert(0 <= pairs[pairs.len() - 1].1);
        assert forall|j: int| 0 <= j <= pairs.len() implies #[trigger] counts_total(pairs.take(j))
            <= counts_total(pairs) by {
            if j == pairs.len() {
                assert(pairs.take(j) =~= pairs);
            } else {
                assert(pairs.take(j) =~= p.take(j));
            }
        }
    }
}

pub(crate) proof fn lemma_counts_total_update(s: WordCounts, k: int, e: (Seq<char>, i64))
    requires
        0 <= k < s.len(),
    ensures
        counts_total(s.update(k, e)) == counts_total(s) - s[k].1 + e.1,
    decreases s.len(),
{
    if k < s.len() - 1 {
        lemma_counts_total_update(s.drop_last(), k, e);
        assert(s.update(k, e).drop_last() =~= s.drop_last().update(k, e));
    } else {
        assert(s.update(k, e).drop_last() =~= s.drop_last());
    }
}

pub(crate) proof fn lemma_counts_total_insert(s: WordCounts, p: int, e: (Seq<char>, i64))
    requires
        0 <= p <= s.len(),
    ensures
        counts_total(s.insert(p, e)) == counts_total(s) + e.1,
    decreases s.len(),
{
    if p == s.len() {
        assert(s.insert(p, e) =~= s.push(e));
        assert(s.push(e).drop_last() =~= s);
    } else {
        lemma_counts_total_insert(s.drop_last(), p, e);
        assert(s.insert(p, e).drop_last() =~= s.drop_last().insert(p, e));
    }
}

pub(crate) proof fn lemma_profanities_monotone(dets: Seq<WordCounts>, a: int, b: int)
    requires
        0 <= a <= b <= dets.len(),
        all_counts_nonnegative(dets),
    ensures
        0 <= profanities_upto(dets, a) <= profanities_upto(dets, b),
    decreases b,
{
    if b > 0 {
        lemma_counts_total_nonnegative(dets[b - 1]);
        if a < b {
            lemma_profanities_monotone(dets, a, b - 1);
        } else {
            lemma_profanities_monotone(dets, b - 1, b - 1);
        }
    }
}

pub(crate) proof fn lemma_day_total_bounded(msgs: Seq<UserMessage>, dets: Seq<WordCounts>, day: int, n: int)
    requires
        0 <= n <= dets.len(),
        n <= msgs.len(),
        all_counts_nonnegative(dets),
    ensures
        0 <= day_total_upto(msgs, dets, day, n) <= profanities_upto(dets, n),
    decreases n,
{
    if n > 0 {
        lemma_counts_total_nonnegative(dets[n - 1]);
        lemma_day_total_bounded(msgs, dets, day, n - 1);
    }
}

pub(crate) proof fn lemma_day_bounds(msgs: Seq<UserMessage>, n: int, i: int)
    requires
        0 <= i < n <= msgs.len(),
    ensures
        min_day_upto(msgs, n) <= message_day(msgs[i].time) <= max_day_upto(msgs, n),
        min_day_upto(msgs, n) <= max_day_upto(msgs, n),
    decreases n,
{
    if n > 1 && i < n - 1 {
        lemma_day_bounds(msgs, n - 1, i);
    } else if n > 1 {
        lemma_day_bounds(msgs, n - 1, 0);
    }
}

// ---------------------------------------------------------------------------
// Aggregation
// ---------------------------------------------------------------------------

/// The earliest and the latest day among the (non-empty) `messages`.
pub(crate) fn day_range(messages: &[UserMessage]) -> (r: (i64, i64))
    requires
        messages@.len() > 0,
    ensures
        r.0 == min_day_upto(messages@, messages@.len() as int),
        r.1 == max_day_upto(messages@, messages@.len() as int),
{
    let mut lo = day_of(messages[0].time);
    let mut hi = lo;
    let mut i: usize = 1;
    while i < messages.len()
        invariant
            1 <= i <= messages@.len(),
            lo == min_day_upto(messages@, i as int),
            hi == max_day_upto(messages@, i as int),
        decreases messages@.len() - i,
    {
        let d = day_of(messages[i].time);
        if d < lo {
            lo = d;
        }
        if d > hi {
            hi = d;
        }
        i = i + 1;
    }
    (lo, hi)
}

/// The sum of the counts of one message's detections.
pub(crate) fn message_total(pairs: &Vec<(String, i64)>, Ghost(bound): Ghost<int>) -> (t: i64)
    requires
        counts_nonnegative(pairs.deep_view()),
        counts_total(pairs.deep_view()) <= bound <= i64::MAX,
    ensures
        t == counts_total(pairs.deep_view()),
{
    let ghost pv = pairs.deep_view();
    proof {
        lemma_counts_total_nonnegative(pv);
    }
    let mut t: i64 = 0;
    let mut j: usize = 0;
    while j < pairs.len()
        invariant
            j <= pairs.len(),
            pv == pairs.deep_view(),
            counts_nonnegative(pv),
            counts_total(pv) <= i64::MAX,
            forall|k: int| 0 <= k <= pv.len() ==> #[trigger] counts_total(pv.take(k)) <= counts_total(pv),
            t == counts_total(pv.take(j as int)),
        decreases pairs.len() - j,
    {
        proof {
            assert(pv.take(j + 1).drop_last() =~= pv.take(j as int));
            assert(counts_total(pv.take(j + 1)) <= counts_total(pv));
        }
        t = t + pairs[j].1;
        j = j + 1;
    }
    proof {
        assert(pv.take(pv.len() as int) =~= pv);
    }
    t
}

/// The profanities of each day from `lo` to `hi`, in order.
pub(crate) fn daily_counts_between(
    messages: &[UserMessage],
    dets: &Vec<Vec<(String, i64)>>,
    lo: i64,
    hi: i64,
) -> (counts: Vec<i64>)
    requires
        messages@.len() > 0,
        dets@.len() == messages@.len(),
        lo == min_day_upto(messages@, messages@.len() as int),
        hi == max_day_upto(messages@, messages@.len() as int),
        hi - lo < 100_000_000,
        all_counts_nonnegative(dets.deep_view()),
        profanities_upto(dets.deep_view(), messages@.len() as int) <= i64::MAX,
    ensures
        counts@.len() == hi - lo + 1,
        forall|k: int|
            0 <= k < counts@.len() ==> #[trigger] counts@[k] == day_total_upto(
                messages@,
                dets.deep_view(),
                lo + k,
                messages@.len() as int,
            ),
{
    let ghost msgs = messages@;
    let ghost dv = dets.deep_view();
    let ghost n = msgs.len() as int;
    proof {
        lemma_day_bounds(msgs, n, 0);
    }
    let len: usize = (hi - lo) as usize + 1;
    let mut counts: Vec<i64> = Vec::new();
    while counts.len() < len
        invariant
            counts@.len() <= len,
            forall|k: int| 0 <= k < counts@.len() ==> #[trigger] counts@[k] == 0,
        decreases len - counts@.len(),
    {
        counts.push(0);
    }
    let mut i: usize = 0;
    while i < messages.len()
        invariant
            i <= messages@.len(),
            msgs == messages@,
            dv == dets.deep_view(),
            n == msgs.len(),
            dets@.len() == n,
            counts@.len() == len == hi - lo + 1,
            hi - lo < 100_000_000,
            lo == min_day_upto(msgs, n),
            hi == max_day_upto(msgs, n),
            all_counts_nonnegative(dv),
            profanities_upto(dv, n) <= i64::MAX,
            forall|k: int|
                0 <= k < counts@.len() ==> #[trigger] counts@[k] == day_total_upto(
                    msgs,
                    dv,
                    lo + k,
                    i as int,
                ),
        decreases messages@.len() - i,
    {
        proof {
            lemma_day_bounds(msgs, n, i as int);
            lemma_profanities_monotone(dv, i + 1, n);
            lemma_profanities_monotone(dv, i as int, i as int);
            lemma_counts_total_nonnegative(dv[i as int]);
            assert(dv[i as int] == dets@[i as int].deep_view());
        }
        let d = day_of(messages[i].time);
        let t = message_total(&dets[i], Ghost(profanities_upto(dv, n)));
        let k: usize = (d - lo) as usize;
        proof {
            lemma_day_total_bounded(msgs, dv, d as int, i + 1);
            assert(counts@[k as int] + t == day_total_upto(msgs, dv, d as int, i + 1));
        }
        let updated = counts[k] + t;
        counts.set(k, updated);
        i = i + 1;
    }
    counts
}

/// `acc` lists each word of `m` once, with its tally.
pub open spec fn tallies(acc: WordCounts, m: Map<Seq<char>, int>) -> bool {
    &&& forall|i: int, j: int| 0 <= i < j < acc.len() ==> acc[i].0 != acc[j].0
    &&& forall|i: int|
        0 <= i < acc.len() ==> m.dom().contains(#[trigger] acc[i].0) && m[acc[i].0] == acc[i].1
    &&& forall|w: Seq<char>| #[trigger]
        m.dom().contains(w) ==> exists|i: int| 0 <= i < acc.len() && acc[i].0 == w
}

/// Adds `c` to the tally of `w` in `acc`.
pub(crate) fn add_to_tally(
    acc: &mut Vec<(String, i64)>,
    w: &String,
    c: i64,
    Ghost(m): Ghost<Map<Seq<char>, int>>,
    Ghost(bound): Ghost<int>,
)
    requires
        tallies(old(acc).deep_view(), m),
        0 <= bound,
        0 <= c,
        bound + c <= i64::MAX,
        forall|i: int| 0 <= i < old(acc)@.len() ==> 0 <= #[trigger] old(acc)@[i].1 <= bound,
    ensures
        tallies(final(acc).deep_view(), add_word(m, w@, c as int)),
        forall|i: int| 0 <= i < final(acc)@.len() ==> 0 <= #[trigger] final(acc)@[i].1 <= bound + c,
        counts_total(final(acc).deep_view()) == counts_total(old(acc).deep_view()) + c,
{
    let ghost m2 = add_word(m, w@, c as int);
    let mut k: usize = 0;
    while k < acc.len()
        invariant
            k <= acc@.len(),
            acc@ == old(acc)@,
            m2 == add_word(m, w@, c as int),
            tallies(old(acc).deep_view(), m),
            0 <= c,
            bound + c <= i64::MAX,
            forall|i: int| 0 <= i < old(acc)@.len() ==> 0 <= #[trigger] old(acc)@[i].1 <= bound,
            forall|i: int| 0 <= i < k ==> (#[trigger] acc@[i]).0@ != w@,
        decreases acc@.len() - k,
    {
        if acc[k].0 == *w {
            let v = acc[k].1 + c;
            let key = acc[k].0.clone();
            let ghost before = acc.deep_view();
            acc.set(k, (key, v));
            proof {
                let after = acc.deep_view();
                assert(after =~= before.update(k as int, (w@, v)));
                lemma_counts_total_update(before, k as int, (w@, v));
                assert(before[k as int].0 == w@);
                assert forall|i: int, j: int| 0 <= i < j < after.len() implies after[i].0
                    != after[j].0 by {
                    assert(after[i].0 == before[i].0);
                    assert(after[j].0 == before[j].0);
                }
                assert forall|i: int| 0 <= i < after.len() implies m2.dom().contains(
                    #[trigger] after[i].0,
                ) && m2[after[i].0] == after[i].1 by {
                    if i != k {
                        assert(after[i] == before[i]);
                        assert(before[i].0 != before[k as int].0);
                    }
                }
                assert forall|x: Seq<char>| #[trigger] m2.dom().contains(x) implies exists|i: int|
                    0 <= i < after.len() && after[i].0 == x by {
                    if x == w@ {
                        assert(after[k as int].0 == x);
                    } else {
                        assert(m.dom().contains(x));
                        let i = choose|i: int| 0 <= i < before.len() && before[i].0 == x;
                        assert(after[i].0 == x);
                    }
                }
            }
            return;
        }
        k = k + 1;
    }
    let ghost before = acc.deep_view();
    acc.push((w.clone(), c));
    proof {
        let after = acc.deep_view();
        assert(after =~= before.push((w@, c)));
        assert(after.drop_last() =~= before);
        assert(!m.dom().contains(w@)) by {
            if m.dom().contains(w@) {
                let i = choose|i: int| 0 <= i < before.len() && before[i].0 == w@;
                assert(acc@[i].0@ == w@);
            }
        }
        assert forall|i: int, j: int| 0 <= i < j < after.len() implies after[i].0 != after[j].0 by {
            if j == after.len() - 1 {
                assert(after[i].0 == acc@[i].0@);
            } else {
                assert(after[i] == before[i]);
                assert(after[j] == before[j]);
            }
        }
        assert forall|i: int| 0 <= i < after.len() implies m2.dom().contains(#[trigger] after[i].0)
            && m2[after[i].0] == after[i].1 by {
            if i < before.len() {
                assert(after[i] == before[i]);
            }
        }
        assert forall|x: Seq<char>| #[trigger] m2.dom().contains(x) implies exists|i: int|
            0 <= i < after.len() && after[i].0 == x by {
            if x == w@ {
                assert(after[before.len() as int].0 == x);
            } else {
                let i = choose|i: int| 0 <= i < before.len() && before[i].0 == x;
                assert(after[i].0 == x);
            }
        }
    }
}

/// Each word found in `dets`, once, with its total count.
pub(crate) fn word_totals(dets: &Vec<Vec<(String, i64)>>) -> (acc: Vec<(String, i64)>)
    requires
        all_counts_nonnegative(dets.deep_view()),
        profanities_upto(dets.deep_view(), dets@.len() as int) <= i64::MAX,
    ensures
        tallies(acc.deep_view(), word_totals_upto(dets.deep_view(), dets@.len() as int)),
        counts_total(acc.deep_view()) == profanities_upto(dets.deep_view(), dets@.len() as int),
{
    let ghost dv = dets.deep_view();
    let ghost n = dv.len() as int;
    let mut acc: Vec<(String, i64)> = Vec::new();
    let mut i: usize = 0;
    proof {
        assert(tallies(acc.deep_view(), word_totals_upto(dv, 0)));
    }
    while i < dets.len()
        invariant
            i <= dets@.len(),
            dv == dets.deep_view(),
            n == dets@.len(),
            all_counts_nonnegative(dv),
            profanities_upto(dv, n) <= i64::MAX,
            tallies(acc.deep_view(), word_totals_upto(dv, i as int)),
            counts_total(acc.deep_view()) == profanities_upto(dv, i as int),
            forall|k: int| 0 <= k < acc@.len() ==> 0 <= #[trigger] acc@[k].1 <= profanities_upto(dv, i as int),
        decreases dets@.len() - i,
    {
        let pairs = &dets[i];
        let ghost p = dv[i as int];
        proof {
            assert(p == pairs.deep_view());
            lemma_counts_total_nonnegative(p);
            lemma_profanities_monotone(dv, i + 1, n);
            lemma_profanities_monotone(dv, i as int, i as int);
            assert(p.take(0) =~= Seq::<(Seq<char>, i64)>::empty());
        }
        let mut j: usize = 0;
        while j < pairs.len()
            invariant
                i < dets@.len(),
                j <= pairs@.len(),
                p == pairs.deep_view(),
                p == dv[i as int],
                dv == dets.deep_view(),
                n == dets@.len(),
                counts_nonnegative(p),
                0 <= profanities_upto(dv, i as int),
                profanities_upto(dv, i as int) + counts_total(p) == profanities_upto(dv, i + 1),
                profanities_upto(dv, i + 1) <= profanities_upto(dv, n) <= i64::MAX,
                forall|k: int| 0 <= k <= p.len() ==> #[trigger] counts_total(p.take(k)) <= counts_total(p),
                tallies(acc.deep_view(), add_words(word_totals_upto(dv, i as int), p.take(j as int))),
                counts_total(acc.deep_view()) == profanities_upto(dv, i as int) + counts_total(p.take(j as int)),
                forall|k: int|
                    0 <= k < acc@.len() ==> 0 <= #[trigger] acc@[k].1 <= profanities_upto(dv, i as int)
                        + counts_total(p.take(j as int)),
            decreases pairs@.len() - j,
        {
            let ghost m = add_words(word_totals_upto(dv, i as int), p.take(j as int));
            let ghost bound = profanities_upto(dv, i as int) + counts_total(p.take(j as int));
            proof {
                assert(p.take(j + 1).drop_last() =~= p.take(j as int));
                assert(p.take(j + 1).last() == p[j as int]);
                assert(counts_total(p.take(j + 1)) <= counts_total(p));
                assert(0 <= p[j as int].1);
                assert(0 <= counts_total(p.take(j as int))) by {
                    assert(counts_nonnegative(p.take(j as int)));
                    lemma_counts_total_nonnegative(p.take(j as int));
                }
            }
            add_to_tally(&mut acc, &pairs[j].0, pairs[j].1, Ghost(m), Ghost(bound));
            j = j + 1;
        }
        proof {
            assert(p.take(p.len() as int) =~= p);
        }
        i = i + 1;
    }
    acc
}

} // verus!

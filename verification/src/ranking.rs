//! The order of the report's word list: the highest count first, equal
//! counts by word.
use vstd::prelude::*;

use crate::tally::{counts_total, lemma_counts_total_insert, tallies, WordCounts};
use crate::text::chars_of;

verus! {

/// `a` comes before `b` in the order of `String`'s `Ord`: lexicographic by
/// character (UTF-8 byte order and code point order agree), a proper prefix
/// first.
pub open spec fn chars_before(a: Seq<char>, b: Seq<char>) -> bool
    decreases a.len(),
{
    if a.len() == 0 {
        b.len() > 0
    } else if b.len() == 0 {
        false
    } else if a[0] != b[0] {
        (a[0] as u32) < (b[0] as u32)
    } else {
        chars_before(a.drop_first(), b.drop_first())
    }
}

/// `x` is listed before `y`: a higher count first, equal counts by word.
pub open spec fn ranks_before(x: (Seq<char>, i64), y: (Seq<char>, i64)) -> bool {
    x.1 > y.1 || (x.1 == y.1 && chars_before(x.0, y.0))
}

/// Every entry of `s` is listed before every later one.
pub open spec fn ranked(s: WordCounts) -> bool {
    forall|i: int, j: int| 0 <= i < j < s.len() ==> ranks_before(#[trigger] s[i], #[trigger] s[j])
}

/// No word comes before itself.
pub proof fn lemma_chars_before_irreflexive(a: Seq<char>)
    ensures
        !chars_before(a, a),
    decreases a.len(),
{
    if a.len() > 0 {
        lemma_chars_before_irreflexive(a.drop_first());
    }
}

/// Of two different words, one comes before the other, and not both ways.
pub proof fn lemma_chars_before_total(a: Seq<char>, b: Seq<char>)
    ensures
        a != b ==> chars_before(a, b) || chars_before(b, a),
        !(chars_before(a, b) && chars_before(b, a)),
    decreases a.len(),
{
    if a.len() > 0 && b.len() > 0 && a[0] == b[0] {
        lemma_chars_before_total(a.drop_first(), b.drop_first());
        if a.drop_first() == b.drop_first() {
            assert(a =~= b) by {
                assert forall|i: int| 0 <= i < a.len() implies a[i] == b[i] by {
                    if i > 0 {
                        assert(a[i] == a.drop_first()[i - 1]);
                        assert(b[i] == b.drop_first()[i - 1]);
                    }
                }
            }
        }
    } else if a.len() == 0 && b.len() == 0 {
        assert(a =~= b);
    } else if a.len() > 0 && b.len() > 0 {
        vstd::utf8::char_u32_cast(a[0], a[0] as u32);
        vstd::utf8::char_u32_cast(b[0], b[0] as u32);
        assert((a[0] as u32) != (b[0] as u32));
    }
}

/// The order of words is transitive.
pub proof fn lemma_chars_before_transitive(a: Seq<char>, b: Seq<char>, c: Seq<char>)
    requires
        chars_before(a, b),
        chars_before(b, c),
    ensures
        chars_before(a, c),
    decreases a.len(),
{
    if a.len() > 0 && b.len() > 0 && c.len() > 0 && a[0] == b[0] && b[0] == c[0] {
        lemma_chars_before_transitive(a.drop_first(), b.drop_first(), c.drop_first());
    }
}

pub(crate) proof fn lemma_ranks_before_order(x: (Seq<char>, i64), y: (Seq<char>, i64), z: (Seq<char>, i64))
    ensures
        !ranks_before(x, x),
        x.0 != y.0 ==> ranks_before(x, y) || ranks_before(y, x),
        ranks_before(x, y) && ranks_before(y, z) ==> ranks_before(x, z),
{
    lemma_chars_before_irreflexive(x.0);
    lemma_chars_before_total(x.0, y.0);
    if ranks_before(x, y) && ranks_before(y, z) && x.1 == y.1 && y.1 == z.1 {
        lemma_chars_before_transitive(x.0, y.0, z.0);
    }
}

/// Whether `a` comes before `b` character by character.
pub(crate) fn chars_less(a: &Vec<char>, b: &Vec<char>) -> (r: bool)
    ensures
        r == chars_before(a@, b@),
{
    let mut k: usize = 0;
    assert(a@.skip(0) =~= a@ && b@.skip(0) =~= b@);
    loop
        invariant
            k <= a@.len(),
            k <= b@.len(),
            chars_before(a@, b@) == chars_before(a@.skip(k as int), b@.skip(k as int)),
        decreases a@.len() - k,
    {
        let ghost sa = a@.skip(k as int);
        let ghost sb = b@.skip(k as int);
        if k == a.len() {
            return k < b.len();
        }
        if k == b.len() {
            return false;
        }
        if a[k] != b[k] {
            return (a[k] as u32) < (b[k] as u32);
        }
        proof {
            assert(sa.drop_first() =~= a@.skip(k + 1));
            assert(sb.drop_first() =~= b@.skip(k + 1));
        }
        k = k + 1;
    }
}

/// Whether the word count `x` is listed before `y`.
pub(crate) fn word_ranks_before(x: &(String, i64), y: &(String, i64)) -> (r: bool)
    ensures
        r == ranks_before(x.deep_view(), y.deep_view()),
{
    if x.1 != y.1 {
        x.1 > y.1
    } else {
        let a = crate::text::chars_of(x.0.as_str());
        let b = crate::text::chars_of(y.0.as_str());
        chars_less(&a, &b)
    }
}

/// `out` holds exactly the entries `wv[0..i]`.
#[verifier::opaque]
pub open spec fn holds_first(out: WordCounts, wv: WordCounts, i: int) -> bool {
    &&& forall|k: int| 0 <= k < out.len() ==> exists|j: int| 0 <= j < i && #[trigger] out[k] == wv[j]
    &&& forall|j: int| 0 <= j < i ==> exists|k: int| 0 <= k < out.len() && out[k] == #[trigger] wv[j]
}

pub(crate) proof fn lemma_insert_ranked(ov: WordCounts, xv: (Seq<char>, i64), p: int)
    requires
        ranked(ov),
        0 <= p <= ov.len(),
        forall|q: int| 0 <= q < p ==> !ranks_before(xv, #[trigger] ov[q]),
        p < ov.len() ==> ranks_before(xv, ov[p]),
        forall|q: int| 0 <= q < ov.len() ==> xv.0 != (#[trigger] ov[q]).0,
    ensures
        ranked(ov.insert(p, xv)),
{
    let nv = ov.insert(p, xv);
    assert forall|a: int, b: int| 0 <= a < b < nv.len() implies ranks_before(
        #[trigger] nv[a],
        #[trigger] nv[b],
    ) by {
        if a < p && b < p {
            assert(nv[a] == ov[a] && nv[b] == ov[b]);
        } else if a < p && b == p {
            assert(nv[a] == ov[a]);
            lemma_ranks_before_order(xv, ov[a], xv);
        } else if a < p {
            assert(nv[a] == ov[a] && nv[b] == ov[b - 1]);
        } else if a == p {
            assert(nv[b] == ov[b - 1]);
            if b - 1 > p {
                assert(ranks_before(ov[p], ov[b - 1]));
            }
            lemma_ranks_before_order(xv, ov[p], ov[b - 1]);
        } else {
            assert(nv[a] == ov[a - 1] && nv[b] == ov[b - 1]);
        }
    }
}

pub(crate) proof fn lemma_insert_holds(ov: WordCounts, wv: WordCounts, i: int, p: int)
    requires
        0 <= i < wv.len(),
        0 <= p <= ov.len(),
        holds_first(ov, wv, i),
    ensures
        holds_first(ov.insert(p, wv[i]), wv, i + 1),
{
    reveal(holds_first);
    let nv = ov.insert(p, wv[i]);
    assert forall|k: int| 0 <= k < nv.len() implies exists|j: int|
        0 <= j < i + 1 && #[trigger] nv[k] == wv[j] by {
        if k < p {
            assert(nv[k] == ov[k]);
            let j = choose|j: int| 0 <= j < i && ov[k] == wv[j];
        } else if k == p {
            assert(nv[k] == wv[i]);
        } else {
            assert(nv[k] == ov[k - 1]);
            let j = choose|j: int| 0 <= j < i && ov[k - 1] == wv[j];
        }
    }
    assert forall|j: int| 0 <= j < i + 1 implies exists|k: int|
        0 <= k < nv.len() && nv[k] == #[trigger] wv[j] by {
        if j == i {
            assert(nv[p] == wv[j]);
        } else {
            let k = choose|k: int| 0 <= k < ov.len() && ov[k] == wv[j];
            if k < p {
                assert(nv[k] == wv[j]);
            } else {
                assert(nv[k + 1] == wv[j]);
            }
        }
    }
}

pub(crate) proof fn lemma_ranked_tallies(ov: WordCounts, wv: WordCounts, m: Map<Seq<char>, int>)
    requires
        tallies(wv, m),
        ranked(ov),
        holds_first(ov, wv, wv.len() as int),
    ensures
        tallies(ov, m),
{
    reveal(holds_first);
    assert forall|a: int, b: int| 0 <= a < b < ov.len() implies ov[a].0 != ov[b].0 by {
        let ja = choose|j: int| 0 <= j < wv.len() && ov[a] == wv[j];
        let jb = choose|j: int| 0 <= j < wv.len() && ov[b] == wv[j];
        assert(ranks_before(ov[a], ov[b]));
        lemma_ranks_before_order(ov[a], ov[b], ov[b]);
        if ja != jb {
            if ja < jb {
                assert(wv[ja].0 != wv[jb].0);
            } else {
                assert(wv[jb].0 != wv[ja].0);
            }
        }
    }
    assert forall|k: int| 0 <= k < ov.len() implies m.dom().contains(#[trigger] ov[k].0) && m[ov[k].0]
        == ov[k].1 by {
        let j = choose|j: int| 0 <= j < wv.len() && ov[k] == wv[j];
    }
    assert forall|w: Seq<char>| #[trigger] m.dom().contains(w) implies exists|k: int|
        0 <= k < ov.len() && ov[k].0 == w by {
        let j = choose|j: int| 0 <= j < wv.len() && wv[j].0 == w;
        let k = choose|k: int| 0 <= k < ov.len() && ov[k] == wv[j];
    }
}

pub(crate) proof fn lemma_new_key(ov: WordCounts, wv: WordCounts, m: Map<Seq<char>, int>, i: int)
    requires
        0 <= i < wv.len(),
        tallies(wv, m),
        holds_first(ov, wv, i),
    ensures
        forall|q: int| 0 <= q < ov.len() ==> wv[i].0 != (#[trigger] ov[q]).0,
{
    reveal(holds_first);
    assert forall|q: int| 0 <= q < ov.len() implies wv[i].0 != (#[trigger] ov[q]).0 by {
        let j = choose|j: int| 0 <= j < i && ov[q] == wv[j];
        assert(wv[j].0 != wv[i].0);
    }
}

/// Inserts `words[i]` into `out`, which holds `words[0..i]` ranked.
pub(crate) fn insert_ranked(
    out: &mut Vec<(String, i64)>,
    words: &Vec<(String, i64)>,
    i: usize,
    Ghost(m): Ghost<Map<Seq<char>, int>>,
)
    requires
        i < words@.len(),
        tallies(words.deep_view(), m),
        ranked(old(out).deep_view()),
        holds_first(old(out).deep_view(), words.deep_view(), i as int),
    ensures
        ranked(final(out).deep_view()),
        holds_first(final(out).deep_view(), words.deep_view(), i + 1),
        sum_of_counts(final(out).deep_view()) == sum_of_counts(old(out).deep_view()) + words.deep_view()[i as int].1,
{
    let ghost wv = words.deep_view();
    let x = (words[i].0.clone(), words[i].1);
    let ghost xv = wv[i as int];
    assert(x.deep_view() == xv);
    let ghost ov = out.deep_view();
    let mut p: usize = 0;
    while p < out.len() && !word_ranks_before(&x, &out[p])
        invariant
            p <= out@.len(),
            ov == out.deep_view(),
            x.deep_view() == xv,
            forall|q: int| 0 <= q < p ==> !ranks_before(xv, #[trigger] ov[q]),
        decreases out@.len() - p,
    {
        p = p + 1;
    }
    proof {
        lemma_new_key(ov, wv, m, i as int);
        lemma_insert_ranked(ov, xv, p as int);
        lemma_insert_holds(ov, wv, i as int, p as int);
        lemma_counts_total_insert(ov, p as int, xv);
        reveal(sum_of_counts);
    }
    out.insert(p, x);
    proof {
        assert(out.deep_view() =~= ov.insert(p as int, xv));
    }
}

/// The entries of `words` (one per word) listed from the highest count down,
/// equal counts by word.
pub(crate) fn rank_word_counts(words: &Vec<(String, i64)>, Ghost(m): Ghost<Map<Seq<char>, int>>) -> (out: Vec<(String, i64)>)
    requires
        tallies(words.deep_view(), m),
    ensures
        tallies(out.deep_view(), m),
        ranked(out.deep_view()),
        sum_of_counts(out.deep_view()) == sum_of_counts(words.deep_view()),
{
    let ghost wv = words.deep_view();
    let mut out: Vec<(String, i64)> = Vec::new();
    let mut i: usize = 0;
    proof {
        reveal(holds_first);
        lemma_take_none(wv);
        lemma_take_none(out.deep_view());
    }
    while i < words.len()
        invariant
            i <= words@.len(),
            wv == words.deep_view(),
            tallies(wv, m),
            ranked(out.deep_view()),
            holds_first(out.deep_view(), wv, i as int),
            sum_of_counts(out.deep_view()) == sum_of_counts(wv.take(i as int)),
        decreases words@.len() - i,
    {
        insert_ranked(&mut out, words, i, Ghost(m));
        proof {
            lemma_take_step(wv, i as int);
        }
        i = i + 1;
    }
    proof {
        lemma_ranked_tallies(out.deep_view(), wv, m);
        lemma_take_all(wv);
        lemma_take_all(out.deep_view());
    }
    out
}

/// The sum of the counts in `s`, kept folded where the sum is carried along.
#[verifier::opaque]
pub open spec fn sum_of_counts(s: WordCounts) -> int {
    counts_total(s)
}

pub(crate) proof fn lemma_take_step(s: WordCounts, i: int)
    requires
        0 <= i < s.len(),
    ensures
        sum_of_counts(s.take(i + 1)) == sum_of_counts(s.take(i)) + s[i].1,
{
    reveal(sum_of_counts);
    assert(s.take(i + 1).drop_last() =~= s.take(i));
}

pub(crate) proof fn lemma_take_none(s: WordCounts)
    ensures
        sum_of_counts(s.take(0)) == 0,
        s.len() == 0 ==> sum_of_counts(s) == 0,
{
    reveal(sum_of_counts);
    assert(s.take(0) =~= Seq::<(Seq<char>, i64)>::empty());
}

pub(crate) proof fn lemma_take_all(s: WordCounts)
    ensures
        s.take(s.len() as int) == s,
        sum_of_counts(s) == counts_total(s),
{
    reveal(sum_of_counts);
    assert(s.take(s.len() as int) =~= s);
}

pub(crate) proof fn lemma_tallies_tail(s: WordCounts, m: Map<Seq<char>, int>)
    requires
        tallies(s, m),
        ranked(s),
        s.len() > 0,
    ensures
        tallies(s.drop_first(), m.remove(s[0].0)),
        ranked(s.drop_first()),
{
    let t = s.drop_first();
    let k = s[0].0;
    let m2 = m.remove(k);
    assert forall|i: int, j: int| 0 <= i < j < t.len() implies t[i].0 != t[j].0 by {
        assert(t[i] == s[i + 1] && t[j] == s[j + 1]);
    }
    assert forall|i: int| 0 <= i < t.len() implies m2.dom().contains(#[trigger] t[i].0) && m2[t[i].0]
        == t[i].1 by {
        assert(t[i] == s[i + 1]);
        assert(s[0].0 != s[i + 1].0);
    }
    assert forall|w: Seq<char>| #[trigger] m2.dom().contains(w) implies exists|i: int|
        0 <= i < t.len() && t[i].0 == w by {
        let i = choose|i: int| 0 <= i < s.len() && s[i].0 == w;
        assert(i != 0);
        assert(t[i - 1] == s[i]);
    }
    assert forall|i: int, j: int| 0 <= i < j < t.len() implies ranks_before(#[trigger] t[i], #[trigger] t[j]) by {
        assert(t[i] == s[i + 1] && t[j] == s[j + 1]);
        assert(ranks_before(s[i + 1], s[j + 1]));
    }
}

/// The report's word list is determined by the word totals: two lists that
/// each hold the same totals, ranked, are the same list.
pub proof fn lemma_ranking_unique(s1: WordCounts, s2: WordCounts, m: Map<Seq<char>, int>)
    requires
        tallies(s1, m),
        ranked(s1),
        tallies(s2, m),
        ranked(s2),
    ensures
        s1 == s2,
    decreases s1.len(),
{
    if s1.len() == 0 {
        if s2.len() > 0 {
            assert(m.dom().contains(s2[0].0));
        }
        assert(s1 =~= s2);
    } else {
        let k = s1[0].0;
        assert(m.dom().contains(k));
        let j = choose|j: int| 0 <= j < s2.len() && s2[j].0 == k;
        assert(m.dom().contains(s2[0].0));
        let i = choose|i: int| 0 <= i < s1.len() && s1[i].0 == s2[0].0;
        assert(s2[j] == s1[0]);
        assert(s1[i] == s2[0]);
        if j != 0 {
            assert(ranks_before(s2[0], s2[j]));
            if i != 0 {
                assert(ranks_before(s1[0], s1[i]));
                lemma_ranks_before_order(s1[0], s2[0], s1[0]);
            } else {
                assert(s2[0].0 == s2[j].0);
            }
        }
        assert(s1[0] == s2[0]);
        lemma_tallies_tail(s1, m);
        lemma_tallies_tail(s2, m);
        lemma_ranking_unique(s1.drop_first(), s2.drop_first(), m.remove(k));
        assert(s1 =~= s2) by {
            assert forall|q: int| 0 <= q < s1.len() implies s1[q] == s2[q] by {
                if q > 0 {
                    assert(s1[q] == s1.drop_first()[q - 1]);
                    assert(s2[q] == s2.drop_first()[q - 1]);
                }
            }
        }
    }
}

} // verus!

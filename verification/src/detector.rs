//! Finding profane words in a text: a lexicon of words, each counted by its
//! non-overlapping occurrences.
use vstd::prelude::*;

use crate::text::{chars_of, count_occurrences, occurrences, string_from_chars, trim, trimmed};

verus! {

/// The pieces of `s` between line feeds (what `str::split('\n')` gives).
pub open spec fn split_lines(s: Seq<char>) -> Seq<Seq<char>>
    decreases s.len(),
{
    if s.len() == 0 {
        seq![Seq::empty()]
    } else {
        let p = split_lines(s.drop_last());
        if s.last() == '\n' {
            p.push(Seq::empty())
        } else {
            p.update(p.len() - 1, p.last().push(s.last()))
        }
    }
}

/// The trimmed pieces that are not empty, each kept at its first occurrence.
pub open spec fn collect_words(pieces: Seq<Seq<char>>) -> Seq<Seq<char>>
    decreases pieces.len(),
{
    if pieces.len() == 0 {
        Seq::empty()
    } else {
        let w = collect_words(pieces.drop_last());
        let t = trimmed(pieces.last());
        if t.len() == 0 || w.contains(t) {
            w
        } else {
            w.push(t)
        }
    }
}

/// The words of a lexicon text: one per line, trimmed, blank lines and
/// repeated words left out.
pub open spec fn lexicon_words(s: Seq<char>) -> Seq<Seq<char>> {
    collect_words(split_lines(s))
}

/// The lines `lines` written one after another, with a line feed between
/// each two.
pub open spec fn joined_lines(lines: Seq<Seq<char>>) -> Seq<char>
    decreases lines.len(),
{
    if lines.len() == 0 {
        Seq::empty()
    } else if lines.len() == 1 {
        lines[0]
    } else {
        joined_lines(lines.drop_last()) + seq!['\n'] + lines.last()
    }
}

/// A lexicon text is split at its line feeds and nowhere else: there is at
/// least one piece, no piece holds a line feed, and the pieces joined again
/// with line feeds give back the text.
pub proof fn lemma_split_lines_at_line_feeds(s: Seq<char>)
    ensures
        split_lines(s).len() >= 1,
        forall|i: int| 0 <= i < split_lines(s).len() ==> !(#[trigger] split_lines(s)[i]).contains('\n'),
        joined_lines(split_lines(s)) == s,
    decreases s.len(),
{
    if s.len() == 0 {
        assert(split_lines(s)[0] =~= Seq::<char>::empty());
    } else {
        let rest = s.drop_last();
        lemma_split_lines_at_line_feeds(rest);
        let p = split_lines(rest);
        let c = s.last();
        let q = split_lines(s);
        if c == '\n' {
            assert(q == p.push(Seq::empty()));
            assert(q.drop_last() =~= p);
            assert(joined_lines(q) == joined_lines(p) + seq!['\n'] + Seq::<char>::empty());
            assert(joined_lines(q) =~= s);
            assert forall|i: int| 0 <= i < q.len() implies !(#[trigger] q[i]).contains('\n') by {
                if i < p.len() {
                    assert(q[i] == p[i]);
                } else {
                    assert(q[i] =~= Seq::<char>::empty());
                }
            }
        } else {
            let n = p.len() as int;
            let x = p.last().push(c);
            assert(q == p.update(n - 1, x));
            assert(!p[n - 1].contains('\n'));
            assert(!x.contains('\n')) by {
                if x.contains('\n') {
                    let j = choose|j: int| 0 <= j < x.len() && x[j] == '\n';
                    if j < p[n - 1].len() {
                        assert(x[j] == p[n - 1][j]);
                    }
                }
            }
            assert forall|i: int| 0 <= i < q.len() implies !(#[trigger] q[i]).contains('\n') by {
                if i < n - 1 {
                    assert(q[i] == p[i]);
                }
            }
            assert(rest.push(c) =~= s);
            if n == 1 {
                assert(joined_lines(q) == q[0]);
                assert(joined_lines(p) == p[0]);
                assert(q[0] == x);
                assert(p.last() == p[0]);
                assert(joined_lines(q) =~= s);
            } else {
                assert(q.drop_last() =~= p.drop_last());
                assert(joined_lines(q) == joined_lines(p.drop_last()) + seq!['\n'] + x);
                assert(joined_lines(p) == joined_lines(p.drop_last()) + seq!['\n'] + p.last());
                assert(joined_lines(q) =~= s);
            }
        }
    }
}

/// A text without a line feed is a single piece.
proof fn lemma_split_one_line(line: Seq<char>)
    requires
        !line.contains('\n'),
    ensures
        split_lines(line) == seq![line],
    decreases line.len(),
{
    if line.len() == 0 {
        assert(line =~= Seq::<char>::empty());
        assert(split_lines(line) =~= seq![line]);
    } else {
        let rest = line.drop_last();
        assert(!rest.contains('\n')) by {
            if rest.contains('\n') {
                let j = choose|j: int| 0 <= j < rest.len() && rest[j] == '\n';
                assert(line[j] == rest[j]);
            }
        }
        assert(line.last() != '\n') by {
            assert(line[line.len() - 1] == line.last());
        }
        lemma_split_one_line(rest);
        let p = split_lines(rest);
        assert(p == seq![rest]);
        assert(split_lines(line) == p.update(p.len() - 1, p.last().push(line.last())));
        assert(p.last() == rest);
        assert(rest.push(line.last()) =~= line);
        let u = split_lines(line);
        assert(u.len() == 1);
        assert(u[0] == line);
        assert(u =~= seq![line]);
    }
}

/// The words collected from `pieces` are exactly its trimmed pieces that are
/// not blank, each once: every word is some trimmed piece and is not blank,
/// every trimmed piece that is not blank is a word, and no word repeats.
pub proof fn lemma_collect_words_are_trimmed_pieces(pieces: Seq<Seq<char>>)
    ensures
        forall|i: int|
            0 <= i < collect_words(pieces).len() ==> (#[trigger] collect_words(pieces)[i]).len() > 0
                && exists|j: int| 0 <= j < pieces.len() && collect_words(pieces)[i] == trimmed(#[trigger] pieces[j]),
        forall|j: int|
            0 <= j < pieces.len() && trimmed(#[trigger] pieces[j]).len() > 0 ==> collect_words(pieces).contains(
                trimmed(pieces[j]),
            ),
        collect_words(pieces).no_duplicates(),
    decreases pieces.len(),
{
    if pieces.len() > 0 {
        let before = pieces.drop_last();
        lemma_collect_words_are_trimmed_pieces(before);
        let w = collect_words(before);
        let t = trimmed(pieces.last());
        let out = collect_words(pieces);
        assert forall|j: int| 0 <= j < before.len() implies #[trigger] pieces[j] == before[j] by {}
        if t.len() == 0 || w.contains(t) {
            assert(out == w);
            assert forall|i: int| 0 <= i < out.len() implies (#[trigger] out[i]).len() > 0 && exists|j: int|
                0 <= j < pieces.len() && out[i] == trimmed(#[trigger] pieces[j]) by {
                let j = choose|j: int| 0 <= j < before.len() && w[i] == trimmed(#[trigger] before[j]);
                assert(pieces[j] == before[j]);
            }
            assert forall|j: int| 0 <= j < pieces.len() && trimmed(#[trigger] pieces[j]).len() > 0 implies out.contains(
                trimmed(pieces[j]),
            ) by {
                if j < before.len() {
                    assert(pieces[j] == before[j]);
                } else {
                    assert(pieces[j] == pieces.last());
                }
            }
        } else {
            assert(out == w.push(t));
            assert forall|i: int| 0 <= i < out.len() implies (#[trigger] out[i]).len() > 0 && exists|j: int|
                0 <= j < pieces.len() && out[i] == trimmed(#[trigger] pieces[j]) by {
                if i < w.len() {
                    assert(out[i] == w[i]);
                    let j = choose|j: int| 0 <= j < before.len() && w[i] == trimmed(#[trigger] before[j]);
                    assert(pieces[j] == before[j]);
                } else {
                    assert(out[i] == t);
                    assert(pieces[pieces.len() - 1] == pieces.last());
                }
            }
            assert forall|j: int| 0 <= j < pieces.len() && trimmed(#[trigger] pieces[j]).len() > 0 implies out.contains(
                trimmed(pieces[j]),
            ) by {
                if j < before.len() {
                    assert(pieces[j] == before[j]);
                    let k = choose|k: int| 0 <= k < w.len() && w[k] == trimmed(before[j]);
                    assert(out[k] == w[k]);
                } else {
                    assert(pieces[j] == pieces.last());
                    assert(out[w.len() as int] == t);
                }
            }
            assert forall|a: int, b: int| 0 <= a < out.len() && 0 <= b < out.len() && a != b implies out[a]
                != out[b] by {
                if a < w.len() && b < w.len() {
                    assert(out[a] == w[a] && out[b] == w[b]);
                } else if a < w.len() {
                    assert(out[a] == w[a]);
                    assert(out[b] == t);
                } else if b < w.len() {
                    assert(out[b] == w[b]);
                    assert(out[a] == t);
                }
            }
        }
    }
}

/// A lexicon of a single line without a line feed, whether or not a line
/// feed ends it, has exactly one word, the whole line trimmed, when that is
/// not blank: words are never split inside a line.
pub proof fn lemma_one_line_lexicon(line: Seq<char>)
    requires
        !line.contains('\n'),
        trimmed(line).len() > 0,
    ensures
        lexicon_words(line) == seq![trimmed(line)],
        lexicon_words(line.push('\n')) == seq![trimmed(line)],
{
    lemma_split_one_line(line);
    let one = seq![line];
    assert(one.drop_last() =~= Seq::<Seq<char>>::empty());
    assert(collect_words(one.drop_last()) == Seq::<Seq<char>>::empty());
    assert(!Seq::<Seq<char>>::empty().contains(trimmed(line)));
    assert(collect_words(one) =~= seq![trimmed(line)]);
    let s = line.push('\n');
    assert(s.drop_last() =~= line);
    let two = split_lines(s);
    assert(two == one.push(Seq::empty()));
    assert(two.drop_last() =~= one);
    assert(trimmed(Seq::<char>::empty()) =~= Seq::<char>::empty());
    assert(trimmed(two.last()).len() == 0);
}

/// For each word of `words` that occurs in `text`, in order, the word and
/// the number of its non-overlapping occurrences.
pub open spec fn detections_of(words: Seq<Seq<char>>, text: Seq<char>) -> Seq<(Seq<char>, i64)>
    decreases words.len(),
{
    if words.len() == 0 {
        Seq::empty()
    } else {
        let prev = detections_of(words.drop_last(), text);
        let c = occurrences(text, words.last());
        if c > 0 {
            prev.push((words.last(), c as i64))
        } else {
            prev
        }
    }
}

/// Why a detector could not be built.
#[derive(Debug, PartialEq, Eq, Structural)]
pub enum FuckDetectorError {
    /// The lexicon holds no word.
    EmptyLexicon,
}

/// A profanity detector: the words of its lexicon, none of them empty.
#[derive(Debug)]
pub struct FuckDetector {
    words: Vec<String>,
}

impl View for FuckDetector {
    type V = Seq<Seq<char>>;

    closed spec fn view(&self) -> Seq<Seq<char>> {
        self.words.deep_view()
    }
}

proof fn lemma_collect_words_nonempty(pieces: Seq<Seq<char>>)
    ensures
        forall|i: int|
            0 <= i < collect_words(pieces).len() ==> (#[trigger] collect_words(pieces)[i]).len() > 0,
    decreases pieces.len(),
{
    if pieces.len() > 0 {
        lemma_collect_words_nonempty(pieces.drop_last());
        let w = collect_words(pieces.drop_last());
        let t = trimmed(pieces.last());
        if !(t.len() == 0 || w.contains(t)) {
            assert forall|i: int| 0 <= i < w.push(t).len() implies (#[trigger] w.push(t)[i]).len()
                > 0 by {
                if i < w.len() {
                    assert(w.push(t)[i] == w[i]);
                }
            }
        }
    }
}

proof fn lemma_detections_positive(words: Seq<Seq<char>>, text: Seq<char>)
    requires
        text.len() <= i64::MAX,
    ensures
        forall|i: int|
            0 <= i < detections_of(words, text).len() ==> 0 < (#[trigger] detections_of(words, text)[i]).1,
    decreases words.len(),
{
    if words.len() > 0 {
        lemma_detections_positive(words.drop_last(), text);
        let prev = detections_of(words.drop_last(), text);
        let c = occurrences(text, words.last());
        crate::text::lemma_occurrences_bounded(text, words.last());
        if c > 0 {
            let e = (words.last(), c as i64);
            assert forall|i: int| 0 <= i < prev.push(e).len() implies 0 < (
            #[trigger] prev.push(e)[i]).1 by {
                if i < prev.len() {
                    assert(prev.push(e)[i] == prev[i]);
                }
            }
        }
    }
}

/// Adds the trimmed `piece` to `words` unless it is blank or already there.
fn add_piece(words: &mut Vec<String>, piece: &Vec<char>)
    ensures
        ({
            let t = trimmed(piece@);
            final(words).deep_view() == if t.len() == 0 || old(words).deep_view().contains(t) {
                old(words).deep_view()
            } else {
                old(words).deep_view().push(t)
            }
        }),
{
    let raw = string_from_chars(piece);
    let t = trim(raw.as_str());
    if t.as_str().is_empty() {
        return;
    }
    let ghost wv = words.deep_view();
    let mut k: usize = 0;
    while k < words.len()
        invariant
            k <= words@.len(),
            wv == words.deep_view(),
            t@ == trimmed(piece@),
            forall|q: int| 0 <= q < k ==> wv[q] != t@,
        decreases words@.len() - k,
    {
        if words[k] == t {
            proof {
                assert(wv[k as int] == t@);
            }
            return;
        }
        k = k + 1;
    }
    proof {
        assert(!wv.contains(t@));
    }
    words.push(t);
    proof {
        assert(words.deep_view() =~= wv.push(t@));
    }
}

impl FuckDetector {
    #[verifier::type_invariant]
    spec fn words_not_empty(&self) -> bool {
        forall|i: int| 0 <= i < self.words@.len() ==> (#[trigger] self.words@[i])@.len() > 0
    }

    /// A detector for the words of `lexicon`, one per line; blank lines and
    /// repeated words are left out, and each word is trimmed.
    pub fn from_lexicon(lexicon: &str) -> (r: Result<FuckDetector, FuckDetectorError>)
        ensures
            lexicon_words(lexicon@).len() == 0 ==> r == Err::<FuckDetector, FuckDetectorError>(
                FuckDetectorError::EmptyLexicon,
            ),
            lexicon_words(lexicon@).len() > 0 ==> (r matches Ok(d) && d@ == lexicon_words(lexicon@)),
    {
        let cs = chars_of(lexicon);
        let mut words: Vec<String> = Vec::new();
        let mut current: Vec<char> = Vec::new();
        let mut i: usize = 0;
        proof {
            assert(cs@.take(0) =~= Seq::<char>::empty());
        }
        while i < cs.len()
            invariant
                i <= cs@.len(),
                split_lines(cs@.take(i as int)).len() >= 1,
                current@ == split_lines(cs@.take(i as int)).last(),
                words.deep_view() == collect_words(split_lines(cs@.take(i as int)).drop_last()),
            decreases cs@.len() - i,
        {
            let ghost p = split_lines(cs@.take(i as int));
            let ghost s2 = cs@.take(i + 1);
            proof {
                assert(s2.drop_last() =~= cs@.take(i as int));
                assert(s2.last() == cs@[i as int]);
            }
            if cs[i] == '\n' {
                add_piece(&mut words, &current);
                current = Vec::new();
                proof {
                    let p2 = split_lines(s2);
                    assert(p2 == p.push(Seq::empty()));
                    assert(p2.drop_last() =~= p);
                    assert(p =~= p.drop_last().push(p.last()));
                    assert(current@ =~= p2.last());
                }
            } else {
                current.push(cs[i]);
                proof {
                    let p2 = split_lines(s2);
                    assert(p2.drop_last() =~= p.drop_last());
                }
            }
            i = i + 1;
        }
        let ghost p = split_lines(cs@.take(i as int));
        add_piece(&mut words, &current);
        proof {
            assert(cs@.take(i as int) =~= lexicon@);
            assert(p =~= p.drop_last().push(p.last()));
            assert(p.drop_last().push(p.last()).drop_last() =~= p.drop_last());
            assert(words.deep_view() == collect_words(p));
            lemma_collect_words_nonempty(p);
            assert forall|q: int| 0 <= q < words@.len() implies (#[trigger] words@[q])@.len() > 0 by {
                assert(words.deep_view()[q] == words@[q]@);
            }
        }
        if words.len() == 0 {
            return Err(FuckDetectorError::EmptyLexicon);
        }
        let d = FuckDetector { words };
        Ok(d)
    }

    /// The words of the lexicon found in `text`, in lexicon order, each with
    /// the number of its non-overlapping occurrences.
    pub fn detect(&self, text: &str) -> (found: Vec<(String, i64)>)
        requires
            text@.len() <= i64::MAX,
        ensures
            found.deep_view() == detections_of(self@, text@),
    {
        proof {
            use_type_invariant(self);
        }
        let cs = chars_of(text);
        let mut found: Vec<(String, i64)> = Vec::new();
        let mut k: usize = 0;
        proof {
            assert(self@.take(0) =~= Seq::<Seq<char>>::empty());
        }
        while k < self.words.len()
            invariant
                k <= self.words@.len(),
                cs@ == text@,
                text@.len() <= i64::MAX,
                self@ == self.words.deep_view(),
                forall|i: int| 0 <= i < self.words@.len() ==> (#[trigger] self.words@[i])@.len() > 0,
                found.deep_view() == detections_of(self@.take(k as int), text@),
            decreases self.words@.len() - k,
        {
            let ws = chars_of(self.words[k].as_str());
            let n = count_occurrences(&cs, &ws);
            let ghost before = found.deep_view();
            proof {
                assert(self@.take(k + 1).drop_last() =~= self@.take(k as int));
                assert(self@.take(k + 1).last() == ws@);
            }
            if n > 0 {
                let entry = (self.words[k].clone(), n as i64);
                found.push(entry);
                proof {
                    assert(found.deep_view() =~= before.push((ws@, n as i64)));
                }
            }
            k = k + 1;
        }
        proof {
            assert(self@.take(self@.len() as int) =~= self@);
        }
        found
    }
}

/// Every count a detector reports is positive.
pub proof fn lemma_detector_counts_positive(words: Seq<Seq<char>>, text: Seq<char>)
    requires
        text.len() <= i64::MAX,
    ensures
        forall|i: int|
            0 <= i < detections_of(words, text).len() ==> 0 < (#[trigger] detections_of(words, text)[i]).1,
{
    lemma_detections_positive(words, text);
}

} // verus!

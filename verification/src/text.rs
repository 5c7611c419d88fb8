//! Character-level text utilities: trimming, HTML escaping, substring
//! replacement and counting, and decimal rendering of integers.
use vstd::prelude::*;

verus! {

// ---------------------------------------------------------------------------
// Specifications
// ---------------------------------------------------------------------------

/// The Unicode `White_Space` property, which `char::is_whitespace` and
/// `str::trim` go by.
pub open spec fn is_unicode_whitespace(c: char) -> bool {
    let u = c as u32;
    ||| 0x9 <= u <= 0xd
    ||| u == 0x20
    ||| u == 0x85
    ||| u == 0xa0
    ||| u == 0x1680
    ||| 0x2000 <= u <= 0x200a
    ||| u == 0x2028
    ||| u == 0x2029
    ||| u == 0x202f
    ||| u == 0x205f
    ||| u == 0x3000
}

/// `s` without its leading whitespace.
pub open spec fn trim_start_seq(s: Seq<char>) -> Seq<char>
    decreases s.len(),
{
    if s.len() > 0 && is_unicode_whitespace(s[0]) {
        trim_start_seq(s.drop_first())
    } else {
        s
    }
}

/// `s` without its trailing whitespace.
pub open spec fn trim_end_seq(s: Seq<char>) -> Seq<char>
    decreases s.len(),
{
    if s.len() > 0 && is_unicode_whitespace(s.last()) {
        trim_end_seq(s.drop_last())
    } else {
        s
    }
}

/// `s` without leading and trailing whitespace (what `str::trim` gives).
pub open spec fn trimmed(s: Seq<char>) -> Seq<char> {
    trim_end_seq(trim_start_seq(s))
}

/// The HTML text for one character: `&`, `<`, `>` and `"` become entities.
pub open spec fn escape_html_char(c: char) -> Seq<char> {
    if c == '&' {
        "&amp;"@
    } else if c == '<' {
        "&lt;"@
    } else if c == '>' {
        "&gt;"@
    } else if c == '"' {
        "&quot;"@
    } else {
        seq![c]
    }
}

/// Every character of `s` escaped for HTML, in order.
pub open spec fn escaped_html(s: Seq<char>) -> Seq<char>
    decreases s.len(),
{
    if s.len() == 0 {
        Seq::empty()
    } else {
        escaped_html(s.drop_last()) + escape_html_char(s.last())
    }
}

/// `pat` occurs in `s` at position `i`.
pub open spec fn occurs_at(s: Seq<char>, i: int, pat: Seq<char>) -> bool {
    &&& 0 <= i
    &&& i + pat.len() <= s.len()
    &&& s.subrange(i, i + pat.len()) == pat
}

/// `s` with the non-overlapping occurrences of the non-empty `pat`, found
/// from left to right, replaced by `rep` (what `str::replace` gives).
pub open spec fn replaced(s: Seq<char>, pat: Seq<char>, rep: Seq<char>) -> Seq<char>
    decreases s.len(),
{
    if pat.len() == 0 || s.len() < pat.len() {
        s
    } else if occurs_at(s, 0, pat) {
        rep + replaced(s.skip(pat.len() as int), pat, rep)
    } else {
        seq![s[0]] + replaced(s.skip(1), pat, rep)
    }
}

/// The number of non-overlapping occurrences of the non-empty `pat` in `s`,
/// found from left to right (what `str::matches(..).count()` gives).
pub open spec fn occurrences(s: Seq<char>, pat: Seq<char>) -> nat
    decreases s.len(),
{
    if pat.len() == 0 || s.len() < pat.len() {
        0
    } else if occurs_at(s, 0, pat) {
        1 + occurrences(s.skip(pat.len() as int), pat)
    } else {
        occurrences(s.skip(1), pat)
    }
}

/// The ASCII digit for `d < 10`.
pub open spec fn digit_char(d: nat) -> char {
    if d == 0 {
        '0'
    } else if d == 1 {
        '1'
    } else if d == 2 {
        '2'
    } else if d == 3 {
        '3'
    } else if d == 4 {
        '4'
    } else if d == 5 {
        '5'
    } else if d == 6 {
        '6'
    } else if d == 7 {
        '7'
    } else if d == 8 {
        '8'
    } else {
        '9'
    }
}

/// The decimal digits of `n`, most significant first, without leading zeros.
pub open spec fn decimal_digits(n: nat) -> Seq<char>
    decreases n,
{
    if n < 10 {
        seq![digit_char(n)]
    } else {
        decimal_digits(n / 10).push(digit_char(n % 10))
    }
}

/// The decimal text of `i`, with a leading `-` when negative (what
/// `Display` for the integer types gives).
pub open spec fn int_text(i: int) -> Seq<char> {
    if i < 0 {
        seq!['-'] + decimal_digits((-i) as nat)
    } else {
        decimal_digits(i as nat)
    }
}

// ---------------------------------------------------------------------------
// Building strings
// ---------------------------------------------------------------------------

/// Appends one character to a `String` (`String::push`).
/// Claims: the string afterwards is the old one with `c` added at the end.
#[verifier::external_body]
pub(crate) fn push_char(s: &mut String, c: char)
    ensures
        final(s)@ == old(s)@.push(c),
{
    s.push(c);
}

/// The characters of `s`, in order.
pub fn chars_of(s: &str) -> (out: Vec<char>)
    ensures
        out@ == s@,
{
    let mut out: Vec<char> = Vec::new();
    for c in it: s.chars()
        invariant
            out@ == it.seq().take(it.index() as int),
            it.seq() == s@,
    {
        out.push(c);
    }
    out
}

/// Appends `cs[from..to]` to `out`.
pub fn push_chars(out: &mut String, cs: &Vec<char>, from: usize, to: usize)
    requires
        from <= to <= cs.len(),
    ensures
        final(out)@ == old(out)@ + cs@.subrange(from as int, to as int),
{
    let mut i: usize = from;
    while i < to
        invariant
            from <= i <= to <= cs.len(),
            out@ == old(out)@ + cs@.subrange(from as int, i as int),
        decreases to - i,
    {
        push_char(out, cs[i]);
        proof {
            assert(cs@.subrange(from as int, i + 1) =~= cs@.subrange(from as int, i as int).push(
                cs@[i as int],
            ));
        }
        i = i + 1;
    }
}

/// A `String` holding exactly the characters `cs`.
pub fn string_from_chars(cs: &Vec<char>) -> (out: String)
    ensures
        out@ == cs@,
{
    let mut out = String::new();
    push_chars(&mut out, cs, 0, cs.len());
    proof {
        assert(cs@.subrange(0, cs.len() as int) =~= cs@);
    }
    out
}

// ---------------------------------------------------------------------------
// Whitespace and trimming
// ---------------------------------------------------------------------------

/// Whether `c` is Unicode whitespace (`char::is_whitespace`).
pub fn is_whitespace(c: char) -> (b: bool)
    ensures
        b == is_unicode_whitespace(c),
{
    let u = c as u32;
    (0x9 <= u && u <= 0xd) || u == 0x20 || u == 0x85 || u == 0xa0 || u == 0x1680 || (0x2000
        <= u && u <= 0x200a) || u == 0x2028 || u == 0x2029 || u == 0x202f || u == 0x205f || u
        == 0x3000
}

/// `s` with leading and trailing whitespace removed, as an owned `String`.
pub fn trim(s: &str) -> (out: String)
    ensures
        out@ == trimmed(s@),
{
    let cs = chars_of(s);
    let n = cs.len();
    let mut i: usize = 0;
    assert(cs@.skip(0) =~= cs@);
    while i < n && is_whitespace(cs[i])
        invariant
            i <= n == cs.len(),
            trim_start_seq(cs@) == trim_start_seq(cs@.skip(i as int)),
        decreases n - i,
    {
        proof {
            assert(cs@.skip(i as int).drop_first() =~= cs@.skip(i + 1));
        }
        i = i + 1;
    }
    let ghost start = cs@.skip(i as int);
    assert(trim_start_seq(cs@) == start);
    let mut j: usize = n;
    while j > i && is_whitespace(cs[j - 1])
        invariant
            i <= j <= n == cs.len(),
            start == cs@.subrange(i as int, n as int),
            trim_end_seq(start) == trim_end_seq(cs@.subrange(i as int, j as int)),
        decreases j - i,
    {
        proof {
            assert(cs@.subrange(i as int, j as int).drop_last() =~= cs@.subrange(
                i as int,
                j - 1,
            ));
        }
        j = j - 1;
    }
    let mut out = String::new();
    push_chars(&mut out, &cs, i, j);
    proof {
        assert(cs@.skip(i as int) =~= cs@.subrange(i as int, n as int));
        assert(out@ =~= cs@.subrange(i as int, j as int));
    }
    out
}

// ---------------------------------------------------------------------------
// HTML escaping
// ---------------------------------------------------------------------------

/// `text` with `&`, `<`, `>` and `"` replaced by their HTML entities.
pub fn escape_html(text: &str) -> (out: String)
    ensures
        out@ == escaped_html(text@),
{
    let cs = chars_of(text);
    let mut out = String::new();
    let mut i: usize = 0;
    while i < cs.len()
        invariant
            i <= cs.len(),
            out@ == escaped_html(cs@.take(i as int)),
        decreases cs.len() - i,
    {
        let c = cs[i];
        if c == '&' {
            out.append("&amp;");
        } else if c == '<' {
            out.append("&lt;");
        } else if c == '>' {
            out.append("&gt;");
        } else if c == '"' {
            out.append("&quot;");
        } else {
            push_char(&mut out, c);
        }
        proof {
            let t = cs@.take(i + 1);
            assert(t.drop_last() =~= cs@.take(i as int));
            assert(t.last() == c);
        }
        i = i + 1;
    }
    proof {
        assert(cs@.take(cs.len() as int) =~= cs@);
    }
    out
}

// ---------------------------------------------------------------------------
// Substring search
// ---------------------------------------------------------------------------

/// Whether `pat` occurs in `cs` at position `i`.
pub fn matches_at(cs: &Vec<char>, i: usize, pat: &Vec<char>) -> (b: bool)
    ensures
        b == occurs_at(cs@, i as int, pat@),
{
    if i > cs.len() || pat.len() > cs.len() - i {
        return false;
    }
    let mut k: usize = 0;
    while k < pat.len()
        invariant
            i + pat.len() <= cs.len(),
            k <= pat.len(),
            forall|m: int| 0 <= m < k ==> cs@[i + m] == pat@[m],
        decreases pat.len() - k,
    {
        if cs[i + k] != pat[k] {
            proof {
                assert(cs@.subrange(i as int, i + pat.len())[k as int] != pat@[k as int]);
            }
            return false;
        }
        k = k + 1;
    }
    proof {
        assert(cs@.subrange(i as int, i + pat.len()) =~= pat@);
    }
    true
}

proof fn lemma_occurs_at_skip(s: Seq<char>, i: int, pat: Seq<char>)
    requires
        0 <= i <= s.len(),
    ensures
        occurs_at(s.skip(i), 0, pat) == occurs_at(s, i, pat),
{
    if i + pat.len() <= s.len() {
        assert(s.skip(i).subrange(0, pat.len() as int) =~= s.subrange(i, i + pat.len()));
    }
}

/// `text` with every non-overlapping occurrence of the non-empty `pat`,
/// found from left to right, replaced by `rep`.
pub fn replace_all(text: &str, pat: &str, rep: &str) -> (out: String)
    requires
        pat@.len() > 0,
    ensures
        out@ == replaced(text@, pat@, rep@),
{
    let cs = chars_of(text);
    let ps = chars_of(pat);
    let mut out = String::new();
    let mut i: usize = 0;
    assert(cs@.skip(0) =~= cs@);
    assert(out@ + replaced(cs@, ps@, rep@) =~= replaced(cs@, ps@, rep@));
    while i < cs.len()
        invariant
            i <= cs.len(),
            cs@ == text@,
            ps@ == pat@,
            ps@.len() > 0,
            out@ + replaced(cs@.skip(i as int), ps@, rep@) == replaced(cs@, ps@, rep@),
        decreases cs.len() - i,
    {
        let ghost rest = cs@.skip(i as int);
        proof {
            lemma_occurs_at_skip(cs@, i as int, ps@);
        }
        if matches_at(&cs, i, &ps) {
            let ghost old_out = out@;
            out.append(rep);
            proof {
                assert(rest.skip(ps@.len() as int) =~= cs@.skip(i + ps@.len()));
                assert(old_out + (rep@ + replaced(cs@.skip(i + ps@.len()), ps@, rep@)) =~= out@
                    + replaced(cs@.skip(i + ps@.len()), ps@, rep@));
            }
            i = i + ps.len();
        } else {
            let ghost old_out = out@;
            push_char(&mut out, cs[i]);
            proof {
                assert(rest.skip(1) =~= cs@.skip(i + 1));
                if rest.len() < ps@.len() {
                    assert(rest.skip(1).len() < ps@.len());
                    assert(rest =~= seq![rest[0]] + rest.skip(1));
                }
                assert(old_out + (seq![cs@[i as int]] + replaced(cs@.skip(i + 1), ps@, rep@))
                    =~= out@ + replaced(cs@.skip(i + 1), ps@, rep@));
            }
            i = i + 1;
        }
    }
    proof {
        assert(cs@.skip(cs.len() as int) =~= Seq::<char>::empty());
        assert(out@ + Seq::<char>::empty() =~= out@);
    }
    out
}

/// The number of non-overlapping occurrences of the non-empty `pat` in
/// `text`, found from left to right.
pub fn count_occurrences(text: &Vec<char>, pat: &Vec<char>) -> (n: usize)
    requires
        pat@.len() > 0,
    ensures
        n == occurrences(text@, pat@),
        n <= text@.len(),
{
    let mut n: usize = 0;
    let mut i: usize = 0;
    assert(text@.skip(0) =~= text@);
    while i < text.len()
        invariant
            i <= text.len(),
            pat@.len() > 0,
            n <= i,
            n + occurrences(text@.skip(i as int), pat@) == occurrences(text@, pat@),
        decreases text.len() - i,
    {
        let ghost rest = text@.skip(i as int);
        proof {
            lemma_occurs_at_skip(text@, i as int, pat@);
        }
        if matches_at(text, i, pat) {
            proof {
                assert(rest.skip(pat@.len() as int) =~= text@.skip(i + pat@.len()));
            }
            n = n + 1;
            i = i + pat.len();
        } else {
            proof {
                assert(rest.skip(1) =~= text@.skip(i + 1));
                if rest.len() < pat@.len() {
                    lemma_occurrences_short(rest.skip(1), pat@);
                }
            }
            i = i + 1;
        }
    }
    proof {
        lemma_occurrences_short(text@.skip(i as int), pat@);
    }
    n
}

/// A text holds no more non-overlapping occurrences of a word than characters.
pub proof fn lemma_occurrences_bounded(s: Seq<char>, pat: Seq<char>)
    ensures
        occurrences(s, pat) <= s.len(),
    decreases s.len(),
{
    if pat.len() > 0 && s.len() >= pat.len() {
        if occurs_at(s, 0, pat) {
            lemma_occurrences_bounded(s.skip(pat.len() as int), pat);
        } else {
            lemma_occurrences_bounded(s.skip(1), pat);
        }
    }
}

proof fn lemma_occurrences_short(s: Seq<char>, pat: Seq<char>)
    requires
        s.len() < pat.len(),
    ensures
        occurrences(s, pat) == 0,
{
}

// ---------------------------------------------------------------------------
// Decimal rendering
// ---------------------------------------------------------------------------

fn digit(d: u64) -> (c: char)
    requires
        d < 10,
    ensures
        c == digit_char(d as nat),
{
    if d == 0 {
        '0'
    } else if d == 1 {
        '1'
    } else if d == 2 {
        '2'
    } else if d == 3 {
        '3'
    } else if d == 4 {
        '4'
    } else if d == 5 {
        '5'
    } else if d == 6 {
        '6'
    } else if d == 7 {
        '7'
    } else if d == 8 {
        '8'
    } else {
        '9'
    }
}

/// Appends the decimal digits of `n` to `out`.
pub fn push_decimal(out: &mut String, n: u64)
    ensures
        final(out)@ == old(out)@ + decimal_digits(n as nat),
{
    let mut acc: Vec<char> = Vec::new();
    let mut m: u64 = n;
    while m >= 10
        invariant
            decimal_digits(n as nat) == decimal_digits(m as nat) + acc@,
        decreases m,
    {
        let ghost old_acc = acc@;
        acc.insert(0, digit(m % 10));
        proof {
            assert(decimal_digits(m as nat) == decimal_digits((m / 10) as nat).push(
                digit_char((m % 10) as nat),
            ));
            assert(decimal_digits((m / 10) as nat).push(digit_char((m % 10) as nat)) + old_acc
                =~= decimal_digits((m / 10) as nat) + acc@);
        }
        m = m / 10;
    }
    acc.insert(0, digit(m));
    proof {
        assert(decimal_digits(n as nat) =~= acc@);
    }
    let ghost before = out@;
    push_chars(out, &acc, 0, acc.len());
    proof {
        assert(acc@.subrange(0, acc.len() as int) =~= acc@);
    }
}

/// The decimal text of `n`.
pub fn format_u64(n: u64) -> (out: String)
    ensures
        out@ == int_text(n as int),
{
    let mut out = String::new();
    push_decimal(&mut out, n);
    proof {
        assert(Seq::<char>::empty() + decimal_digits(n as nat) =~= decimal_digits(n as nat));
    }
    out
}

/// The decimal text of `n`.
pub fn format_usize(n: usize) -> (out: String)
    ensures
        out@ == int_text(n as int),
{
    format_u64(n as u64)
}

/// The decimal text of `i`, with a leading `-` when negative.
pub fn format_i64(i: i64) -> (out: String)
    ensures
        out@ == int_text(i as int),
{
    let mut out = String::new();
    if i < 0 {
        push_char(&mut out, '-');
        let magnitude: u64 = (-(i + 1)) as u64 + 1;
        push_decimal(&mut out, magnitude);
        proof {
            assert(magnitude == -(i as int));
            assert(seq!['-'] =~= Seq::<char>::empty().push('-'));
        }
    } else {
        push_decimal(&mut out, i as u64);
        proof {
            assert(Seq::<char>::empty() + decimal_digits(i as nat) =~= decimal_digits(i as nat));
        }
    }
    out
}

// ---------------------------------------------------------------------------
// Laws
// ---------------------------------------------------------------------------

proof fn lemma_trim_start_front(s: Seq<char>)
    ensures
        trim_start_seq(s).len() > 0 ==> !is_unicode_whitespace(trim_start_seq(s)[0]),
        trim_start_seq(s).len() <= s.len(),
        trim_start_seq(s) == s.skip(s.len() - trim_start_seq(s).len()),
    decreases s.len(),
{
    if s.len() > 0 && is_unicode_whitespace(s[0]) {
        lemma_trim_start_front(s.drop_first());
        let t = trim_start_seq(s.drop_first());
        assert(s.drop_first().skip(s.drop_first().len() - t.len()) =~= s.skip(s.len() - t.len()));
    } else {
        assert(s.skip(0) =~= s);
    }
}

proof fn lemma_trim_end_back(s: Seq<char>)
    ensures
        trim_end_seq(s).len() > 0 ==> !is_unicode_whitespace(trim_end_seq(s).last()),
        trim_end_seq(s).len() <= s.len(),
        trim_end_seq(s) == s.take(trim_end_seq(s).len() as int),
    decreases s.len(),
{
    if s.len() > 0 && is_unicode_whitespace(s.last()) {
        lemma_trim_end_back(s.drop_last());
        let t = trim_end_seq(s.drop_last());
        assert(s.drop_last().take(t.len() as int) =~= s.take(t.len() as int));
    } else {
        assert(s.take(s.len() as int) =~= s);
    }
}

proof fn lemma_trim_start_noop(s: Seq<char>)
    requires
        s.len() == 0 || !is_unicode_whitespace(s[0]),
    ensures
        trim_start_seq(s) == s,
{
}

proof fn lemma_trim_end_noop(s: Seq<char>)
    requires
        s.len() == 0 || !is_unicode_whitespace(s.last()),
    ensures
        trim_end_seq(s) == s,
{
}

/// Trimming leaves no whitespace at either end: a non-empty trimmed text
/// starts and ends with a character that is not whitespace.
pub proof fn lemma_trimmed_edges(s: Seq<char>)
    ensures
        trimmed(s).len() > 0 ==> !is_unicode_whitespace(trimmed(s)[0]),
        trimmed(s).len() > 0 ==> !is_unicode_whitespace(trimmed(s).last()),
{
    let a = trim_start_seq(s);
    lemma_trim_start_front(s);
    lemma_trim_end_back(a);
    let b = trim_end_seq(a);
    if b.len() > 0 {
        assert(b[0] == a[0]);
    }
}

/// Trimming twice is the same as trimming once.
pub proof fn lemma_trim_idempotent(s: Seq<char>)
    ensures
        trimmed(trimmed(s)) == trimmed(s),
{
    let t = trimmed(s);
    lemma_trimmed_edges(s);
    lemma_trim_start_noop(t);
    lemma_trim_end_noop(t);
}

/// HTML escaping leaves no `<`, `>` or `"` in the text, so escaped text
/// cannot open or close a tag or end an attribute value.
pub proof fn lemma_escaped_html_has_no_markup(s: Seq<char>)
    ensures
        forall|i: int|
            0 <= i < escaped_html(s).len() ==> {
                let c = #[trigger] escaped_html(s)[i];
                c != '<' && c != '>' && c != '"'
            },
    decreases s.len(),
{
    reveal_strlit("&amp;");
    reveal_strlit("&lt;");
    reveal_strlit("&gt;");
    reveal_strlit("&quot;");
    if s.len() > 0 {
        lemma_escaped_html_has_no_markup(s.drop_last());
        let a = escaped_html(s.drop_last());
        let b = escape_html_char(s.last());
        assert forall|i: int| 0 <= i < (a + b).len() implies {
            let c = #[trigger] (a + b)[i];
            c != '<' && c != '>' && c != '"'
        } by {
            if i < a.len() {
                assert((a + b)[i] == a[i]);
            } else {
                assert((a + b)[i] == b[i - a.len()]);
            }
        }
    }
}

proof fn lemma_replaced_first(s: Seq<char>)
    requires
        s.len() > 0,
    ensures
        replaced(s, "</"@, "<\\/"@).len() > 0,
        replaced(s, "</"@, "<\\/"@)[0] == s[0] || replaced(s, "</"@, "<\\/"@)[0] == '<',
{
    reveal_strlit("</");
    reveal_strlit("<\\/");
    let r = replaced(s, "</"@, "<\\/"@);
    if s.len() >= 2 {
        if occurs_at(s, 0, "</"@) {
            assert(r[0] == ("<\\/"@)[0]);
        } else {
            assert(r[0] == s[0]);
        }
    }
}

/// After `</` is written `<\/`, the text holds no `</`: data written this
/// way into a page cannot close an element there.
pub proof fn lemma_replaced_closes_nothing(s: Seq<char>)
    ensures
        forall|i: int| !occurs_at(replaced(s, "</"@, "<\\/"@), i, "</"@),
    decreases s.len(),
{
    reveal_strlit("</");
    reveal_strlit("<\\/");
    let pat = "</"@;
    let rep = "<\\/"@;
    let r = replaced(s, pat, rep);
    if s.len() < 2 {
        assert forall|i: int| !occurs_at(r, i, pat) by {
            if occurs_at(r, i, pat) {
                assert(r.len() >= 2);
            }
        }
    } else if occurs_at(s, 0, pat) {
        let rest = replaced(s.skip(2), pat, rep);
        lemma_replaced_closes_nothing(s.skip(2));
        assert(r == rep + rest);
        assert forall|i: int| !occurs_at(r, i, pat) by {
            if occurs_at(r, i, pat) {
                assert(r.subrange(i, i + 2)[0] == r[i]);
                assert(r.subrange(i, i + 2)[1] == r[i + 1]);
                if i >= 3 {
                    assert(rest.subrange(i - 3, i - 1) =~= r.subrange(i, i + 2));
                    assert(occurs_at(rest, i - 3, pat));
                }
            }
        }
    } else {
        let t = s.skip(1);
        let rest = replaced(t, pat, rep);
        lemma_replaced_closes_nothing(t);
        lemma_replaced_first(t);
        assert(r == seq![s[0]] + rest);
        assert forall|i: int| !occurs_at(r, i, pat) by {
            if occurs_at(r, i, pat) {
                assert(r.subrange(i, i + 2)[0] == r[i]);
                assert(r.subrange(i, i + 2)[1] == r[i + 1]);
                if i == 0 {
                    assert(r[1] == rest[0]);
                    assert(t[0] == s[1]);
                    if s[0] == '<' && s[1] == '/' {
                        assert(s.subrange(0, 2) =~= pat);
                    }
                } else {
                    assert(rest.subrange(i - 1, i + 1) =~= r.subrange(i, i + 2));
                    assert(occurs_at(rest, i - 1, pat));
                }
            }
        }
    }
}

/// The entity `&lt;`.
pub open spec fn entity_lt() -> Seq<char> {
    seq!['&', 'l', 't', ';']
}

/// The entity `&gt;`.
pub open spec fn entity_gt() -> Seq<char> {
    seq!['&', 'g', 't', ';']
}

/// The entity `&quot;`.
pub open spec fn entity_quot() -> Seq<char> {
    seq!['&', 'q', 'u', 'o', 't', ';']
}

/// The entity `&amp;`.
pub open spec fn entity_amp() -> Seq<char> {
    seq!['&', 'a', 'm', 'p', ';']
}

/// One left-to-right pass that turns `&lt;`, `&gt;`, `&quot;` and `&amp;`
/// back into `<`, `>`, `"` and `&`; every other character passes through.
pub open spec fn unescaped_html(s: Seq<char>) -> Seq<char>
    decreases s.len(),
{
    if s.len() == 0 {
        Seq::empty()
    } else if occurs_at(s, 0, entity_lt()) {
        seq!['<'] + unescaped_html(s.skip(4))
    } else if occurs_at(s, 0, entity_gt()) {
        seq!['>'] + unescaped_html(s.skip(4))
    } else if occurs_at(s, 0, entity_quot()) {
        seq!['"'] + unescaped_html(s.skip(6))
    } else if occurs_at(s, 0, entity_amp()) {
        seq!['&'] + unescaped_html(s.skip(5))
    } else {
        seq![s[0]] + unescaped_html(s.skip(1))
    }
}

proof fn lemma_escaped_html_front(c: char, t: Seq<char>)
    ensures
        escaped_html(seq![c] + t) == escape_html_char(c) + escaped_html(t),
    decreases t.len(),
{
    let s = seq![c] + t;
    assert(escaped_html(s) == escaped_html(s.drop_last()) + escape_html_char(s.last()));
    if t.len() == 0 {
        assert(s.drop_last() =~= Seq::<char>::empty());
        assert(s.last() == c);
        assert(escape_html_char(c) + Seq::<char>::empty() =~= escape_html_char(c));
        assert(Seq::<char>::empty() + escape_html_char(c) =~= escape_html_char(c));
    } else {
        assert(s.drop_last() =~= seq![c] + t.drop_last());
        assert(s.last() == t.last());
        assert(escaped_html(t) == escaped_html(t.drop_last()) + escape_html_char(t.last()));
        lemma_escaped_html_front(c, t.drop_last());
        assert(escape_html_char(c) + escaped_html(t.drop_last()) + escape_html_char(t.last())
            =~= escape_html_char(c) + (escaped_html(t.drop_last()) + escape_html_char(t.last())));
    }
}

proof fn lemma_unescape_entity(e: Seq<char>, c: char, rest: Seq<char>)
    requires
        e == escape_html_char(c),
    ensures
        unescaped_html(e + rest) == seq![c] + unescaped_html(rest),
{
    reveal_strlit("&amp;");
    reveal_strlit("&lt;");
    reveal_strlit("&gt;");
    reveal_strlit("&quot;");
    let x = e + rest;
    if c == '<' {
        assert(e =~= entity_lt());
        assert(x.subrange(0, 4) =~= entity_lt());
        assert(x.skip(4) =~= rest);
    } else if c == '>' {
        assert(e =~= entity_gt());
        assert(x.subrange(0, 4)[1] != entity_lt()[1]);
        assert(x.subrange(0, 4) =~= entity_gt());
        assert(x.skip(4) =~= rest);
    } else if c == '"' {
        assert(e =~= entity_quot());
        assert(x.subrange(0, 4)[1] != entity_lt()[1]);
        assert(x.subrange(0, 4)[1] != entity_gt()[1]);
        assert(x.subrange(0, 6) =~= entity_quot());
        assert(x.skip(6) =~= rest);
    } else if c == '&' {
        assert(e =~= entity_amp());
        assert(x.subrange(0, 4)[1] != entity_lt()[1]);
        assert(x.subrange(0, 4)[1] != entity_gt()[1]);
        if x.len() >= 6 {
            assert(x.subrange(0, 6)[1] != entity_quot()[1]);
        }
        assert(x.subrange(0, 5) =~= entity_amp());
        assert(x.skip(5) =~= rest);
    } else {
        assert(e =~= seq![c]);
        assert(x[0] == c);
        if x.len() >= 4 {
            assert(x.subrange(0, 4)[0] != entity_lt()[0]);
            assert(x.subrange(0, 4)[0] != entity_gt()[0]);
        }
        if x.len() >= 6 {
            assert(x.subrange(0, 6)[0] != entity_quot()[0]);
        }
        if x.len() >= 5 {
            assert(x.subrange(0, 5)[0] != entity_amp()[0]);
        }
        assert(x.skip(1) =~= rest);
    }
}

/// Escaping can be undone: one left-to-right pass that turns the four
/// entities back into their characters gives back the original text.
pub proof fn lemma_unescape_escaped_html(s: Seq<char>)
    ensures
        unescaped_html(escaped_html(s)) == s,
    decreases s.len(),
{
    if s.len() > 0 {
        let t = s.drop_first();
        assert(s =~= seq![s[0]] + t);
        lemma_escaped_html_front(s[0], t);
        lemma_unescape_entity(escape_html_char(s[0]), s[0], escaped_html(t));
        lemma_unescape_escaped_html(t);
    } else {
        assert(escaped_html(s) =~= Seq::<char>::empty());
    }
}

} // verus!

//! The report: its data (the daily series, the ranked word totals and the
//! totals), its headline, word cloud and page.
use vstd::prelude::*;

use crate::calendar::{day_in_calendar, day_label, day_label_text, lemma_message_day_fits, DAY_SECONDS};
use crate::detector::{detections_of, lemma_detector_counts_positive, FuckDetector};
use crate::cursor::{join_path, joined, Platform};
use crate::messages::UserMessage;
use crate::page::{
    HEADLINE_CLOSE, HEADLINE_OPEN, PAGE_AFTER_CHART, PAGE_AFTER_FORM_PROFANITIES, PAGE_AFTER_FORM_SBAI,
    PAGE_AFTER_FORM_TOKENS, PAGE_AFTER_HEADLINE, PAGE_AFTER_MESSAGE_COUNT, PAGE_AFTER_PROFANITIES,
    PAGE_AFTER_SBAI, PAGE_AFTER_SUBMIT_ENDPOINT, PAGE_AFTER_TOKENS, PAGE_DOCTYPE, PAGE_END, PAGE_HEAD,
    PAGE_TAIL, SBAI_FIELD_CLOSE, SBAI_FIELD_OPEN,
};
use crate::ranking::{lemma_take_all, rank_word_counts, ranked};
use crate::tally::{
    all_counts_nonnegative, counts_nonnegative, counts_total, day_range, day_total_upto,
    daily_counts_between, lemma_counts_total_nonnegative, lemma_day_bounds, lemma_profanities_monotone,
    max_day_upto, message_day, message_total, min_day_upto, profanities_upto, tallies, word_totals,
    word_totals_upto, WordCounts,
};
use crate::text::{format_i64, format_u64, format_usize, int_text, replace_all, replaced};

verus! {

#[verifier::external_type_specification]
#[verifier::external_body]
pub struct ExJsonError(serde_json::Error);

/// Why the report could not be built.
#[derive(Debug)]
pub enum ReportError {
    /// A day of the messages lies outside the calendar's range.
    InvalidTimestamp { value: i64, source: time::error::ComponentRange },
    /// The word-cloud data could not be encoded.
    WordCloudJson(serde_json::Error),
}

/// The profanities of one day.
#[derive(Debug)]
pub struct DailyCount {
    pub label: String,
    pub count: i64,
}

/// What the report shows, apart from the SBAI index (profanities per ten
/// million tokens), which is a floating-point figure of `total_profanities`
/// and `total_tokens`.
#[derive(Debug)]
pub struct ReportData {
    pub daily_counts: Vec<DailyCount>,
    pub word_counts: Vec<(String, i64)>,
    pub total_profanities: i64,
    pub total_tokens: i64,
    pub message_count: usize,
    pub range_start: String,
    pub range_end: String,
    pub submit_endpoint: String,
}

/// The range label when there are no messages.
pub open spec fn no_records_text() -> Seq<char> {
    "还没有记录"@
}

/// Where the report's form submits the figures.
pub open spec fn submit_endpoint_text() -> Seq<char> {
    "https://leaderboard.sbai.uk/submit"@
}

/// `data` is the report of `msgs`, with `dets[i]` the detections in
/// `msgs[i]`, and `tokens` tokens used.
pub open spec fn describes(
    data: ReportData,
    msgs: Seq<UserMessage>,
    dets: Seq<WordCounts>,
    tokens: i64,
) -> bool {
    let n = msgs.len() as int;
    &&& data.total_tokens == tokens
    &&& data.message_count == n
    &&& data.submit_endpoint@ == submit_endpoint_text()
    &&& data.total_profanities == profanities_upto(dets, n)
    &&& tallies(data.word_counts.deep_view(), word_totals_upto(dets, n))
    &&& ranked(data.word_counts.deep_view())
    &&& counts_total(data.word_counts.deep_view()) == data.total_profanities
    &&& if n == 0 {
        &&& data.daily_counts@.len() == 0
        &&& data.range_start@ == no_records_text()
        &&& data.range_end@ == no_records_text()
    } else {
        let lo = min_day_upto(msgs, n);
        let hi = max_day_upto(msgs, n);
        &&& data.range_start@ == day_label_text(lo)
        &&& data.range_end@ == day_label_text(hi)
        &&& data.daily_counts@.len() == hi - lo + 1
        &&& forall|k: int|
            0 <= k < data.daily_counts@.len() ==> {
                &&& (#[trigger] data.daily_counts@[k]).count == day_total_upto(msgs, dets, lo + k, n)
                &&& data.daily_counts@[k].label@ == day_label_text(lo + k)
            }
    }
}

/// `r` is what building the report of `msgs` (with detections `dets` and
/// `tokens` tokens) gives: the report, or, when the first or the last day
/// lies outside the calendar, the error for that day (the first day is
/// checked first).
pub open spec fn report_outcome(
    r: Result<ReportData, ReportError>,
    msgs: Seq<UserMessage>,
    dets: Seq<WordCounts>,
    tokens: i64,
) -> bool {
    let n = msgs.len() as int;
    let lo = min_day_upto(msgs, n);
    let hi = max_day_upto(msgs, n);
    &&& (n == 0 || (day_in_calendar(lo) && day_in_calendar(hi))) ==> (r matches Ok(data) && describes(
        data,
        msgs,
        dets,
        tokens,
    ))
    &&& (n > 0 && !day_in_calendar(lo)) ==> (r matches Err(ReportError::InvalidTimestamp { value, .. })
        && value == lo * DAY_SECONDS)
    &&& (n > 0 && day_in_calendar(lo) && !day_in_calendar(hi)) ==> (r matches Err(
        ReportError::InvalidTimestamp { value, .. },
    ) && value == hi * DAY_SECONDS)
}

/// The sum of all detected counts.
fn profanities_total(dets: &Vec<Vec<(String, i64)>>) -> (t: i64)
    requires
        all_counts_nonnegative(dets.deep_view()),
        profanities_upto(dets.deep_view(), dets@.len() as int) <= i64::MAX,
    ensures
        t == profanities_upto(dets.deep_view(), dets@.len() as int),
{
    let ghost dv = dets.deep_view();
    let ghost n = dv.len() as int;
    let mut t: i64 = 0;
    let mut i: usize = 0;
    while i < dets.len()
        invariant
            i <= dets@.len(),
            dv == dets.deep_view(),
            n == dets@.len(),
            all_counts_nonnegative(dv),
            profanities_upto(dv, n) <= i64::MAX,
            t == profanities_upto(dv, i as int),
        decreases dets@.len() - i,
    {
        proof {
            lemma_profanities_monotone(dv, i + 1, n);
            lemma_profanities_monotone(dv, i as int, i as int);
            lemma_counts_total_nonnegative(dv[i as int]);
            assert(dv[i as int] == dets@[i as int].deep_view());
        }
        let m = message_total(&dets[i], Ghost(profanities_upto(dv, n)));
        t = t + m;
        i = i + 1;
    }
    t
}

/// The report of `messages`, given the words found in each
/// (`detections[i]` for `messages[i]`) and the tokens used.
pub fn aggregate_report_data(
    messages: &[UserMessage],
    detections: &Vec<Vec<(String, i64)>>,
    tokens: i64,
) -> (r: Result<ReportData, ReportError>)
    requires
        detections@.len() == messages@.len(),
        all_counts_nonnegative(detections.deep_view()),
        profanities_upto(detections.deep_view(), messages@.len() as int) <= i64::MAX,
    ensures
        report_outcome(r, messages@, detections.deep_view(), tokens),
        r matches Ok(data) ==> data.message_count == messages@.len() && data.total_tokens == tokens,
{
    let ghost msgs = messages@;
    let ghost dv = detections.deep_view();
    let ghost n = msgs.len() as int;
    let words = word_totals(detections);
    let word_counts = rank_word_counts(&words, Ghost(word_totals_upto(dv, n)));
    proof {
        lemma_take_all(words.deep_view());
        lemma_take_all(word_counts.deep_view());
    }
    let total_profanities = profanities_total(detections);
    if messages.len() == 0 {
        return Ok(
            ReportData {
                daily_counts: Vec::new(),
                word_counts,
                total_profanities,
                total_tokens: tokens,
                message_count: 0,
                range_start: String::from_str("还没有记录"),
                range_end: String::from_str("还没有记录"),
                submit_endpoint: String::from_str("https://leaderboard.sbai.uk/submit"),
            },
        );
    }
    let (lo, hi) = day_range(messages);
    proof {
        lemma_day_bounds(msgs, n, 0);
        lemma_min_day_attained(msgs, n);
        lemma_max_day_attained(msgs, n);
        let a = choose|j: int| 0 <= j < n && message_day(msgs[j].time) == lo;
        let b = choose|j: int| 0 <= j < n && message_day(msgs[j].time) == hi;
        lemma_message_day_fits(msgs[a].time);
        lemma_message_day_fits(msgs[b].time);
    }
    let range_start = match day_label(lo) {
        Ok(text) => text,
        Err(error) => return Err(error),
    };
    let range_end = match day_label(hi) {
        Ok(text) => text,
        Err(error) => return Err(error),
    };
    let counts = daily_counts_between(messages, detections, lo, hi);
    let mut daily_counts: Vec<DailyCount> = Vec::new();
    let mut k: usize = 0;
    while k < counts.len()
        invariant
            k <= counts@.len(),
            counts@.len() == hi - lo + 1,
            day_in_calendar(lo as int),
            day_in_calendar(hi as int),
            daily_counts@.len() == k,
            forall|q: int|
                0 <= q < k ==> {
                    &&& (#[trigger] daily_counts@[q]).count == counts@[q]
                    &&& daily_counts@[q].label@ == day_label_text(lo + q)
                },
        decreases counts@.len() - k,
    {
        let day = lo + k as i64;
        let label = match day_label(day) {
            Ok(text) => text,
            Err(error) => return Err(error),
        };
        daily_counts.push(DailyCount { label, count: counts[k] });
        k = k + 1;
    }
    Ok(
        ReportData {
            daily_counts,
            word_counts,
            total_profanities,
            total_tokens: tokens,
            message_count: messages.len(),
            range_start,
            range_end,
            submit_endpoint: String::from_str("https://leaderboard.sbai.uk/submit"),
        },
    )
}

pub(crate) proof fn lemma_min_day_attained(msgs: Seq<UserMessage>, n: int)
    requires
        1 <= n <= msgs.len(),
    ensures
        exists|j: int| 0 <= j < n && message_day(msgs[j].time) == min_day_upto(msgs, n),
    decreases n,
{
    if n > 1 {
        lemma_min_day_attained(msgs, n - 1);
    } else {
        assert(message_day(msgs[0].time) == min_day_upto(msgs, 1));
    }
}

pub(crate) proof fn lemma_max_day_attained(msgs: Seq<UserMessage>, n: int)
    requires
        1 <= n <= msgs.len(),
    ensures
        exists|j: int| 0 <= j < n && message_day(msgs[j].time) == max_day_upto(msgs, n),
    decreases n,
{
    if n > 1 {
        lemma_max_day_attained(msgs, n - 1);
    } else {
        assert(message_day(msgs[0].time) == max_day_upto(msgs, 1));
    }
}

// ---------------------------------------------------------------------------
// Headline
// ---------------------------------------------------------------------------

/// The headline over the report: its tone goes by how many profanities
/// there were (fewer than 10, fewer than 100, or more).
pub open spec fn headline_text(start: Seq<char>, end: Seq<char>, total: i64) -> Seq<char> {
    let n = int_text(total as int);
    if total < 10 {
        "心如止水。"@ + start + " 到 "@ + end + "，你只骂了 AI <span class=\"headline-count\">"@ + n
            + "</span> 次。"@
    } else if total < 100 {
        "喜报！！！你的心态也太平稳了叭！！！！"@ + start + " 到 "@ + end
            + "，只骂了 AI <span class=\"headline-count\">"@ + n + "</span> 次！"@
    } else {
        "喜报！！你从 "@ + start + " 到 "@ + end + " 一共骂了 AI <span class=\"headline-count\">"@
            + n + "</span> 次！"@
    }
}

/// The headline for a report over `range_start` to `range_end` with
/// `total_profanities` profanities.
pub fn report_headline(range_start: &str, range_end: &str, total_profanities: i64) -> (h: String)
    ensures
        h@ == headline_text(range_start@, range_end@, total_profanities),
{
    let count = format_i64(total_profanities);
    let mut h: String;
    if total_profanities < 10 {
        h = String::from_str("心如止水。");
        h.append(range_start);
        h.append(" 到 ");
        h.append(range_end);
        h.append("，你只骂了 AI <span class=\"headline-count\">");
        h.append(count.as_str());
        h.append("</span> 次。");
    } else if total_profanities < 100 {
        h = String::from_str("喜报！！！你的心态也太平稳了叭！！！！");
        h.append(range_start);
        h.append(" 到 ");
        h.append(range_end);
        h.append("，只骂了 AI <span class=\"headline-count\">");
        h.append(count.as_str());
        h.append("</span> 次！");
    } else {
        h = String::from_str("喜报！！你从 ");
        h.append(range_start);
        h.append(" 到 ");
        h.append(range_end);
        h.append(" 一共骂了 AI <span class=\"headline-count\">");
        h.append(count.as_str());
        h.append("</span> 次！");
    }
    h
}

// ---------------------------------------------------------------------------
// Word cloud
// ---------------------------------------------------------------------------

/// The JSON text that `serde_json` writes for a list of `[word, count]` pairs.
pub uninterp spec fn json_word_list(words: WordCounts) -> Seq<char>;

/// `serde_json::to_string` of the pairs as a list of two-element lists of a
/// JSON string (`Value::String`) and a JSON number (`Value::from(i64)`).
/// Claims: the result is `Ok`, with the text `json_word_list` of the pairs.
/// The crate documents that serialisation fails only where a `Serialize`
/// impl decides to or a map has non-string keys; this value holds no map,
/// `Value`'s impl fails for neither strings nor numbers, and the output goes
/// into a `Vec<u8>`, whose writes do not fail.
#[verifier::external_body]
fn word_list_json(words: &Vec<(String, i64)>) -> (r: Result<String, serde_json::Error>)
    ensures
        r is Ok,
        r matches Ok(text) ==> text@ == json_word_list(words.deep_view()),
{
    let rows: Vec<Vec<serde_json::Value>> = words.iter().map(
        |(word, count)| vec![serde_json::Value::String(word.clone()), serde_json::Value::from(*count)],
    ).collect();
    serde_json::to_string(&rows)
}

/// How many words the cloud shows at most.
pub const WORD_CLOUD_LIMIT: usize = 42;

/// The word cloud when no profanity was found.
pub const EMPTY_WORD_CLOUD: &'static str = "<div class=\"empty\">没有检测到脏话。</div>";

/// The markup before the word data.
pub const WORD_CLOUD_OPEN: &'static str = "<div class=\"cloud\"><canvas id=\"word-cloud-canvas\" class=\"cloud-canvas\" data-words='";

/// The markup after the word data.
pub const WORD_CLOUD_CLOSE: &'static str = "'></canvas><div class=\"cloud-fallback\">词云加载失败。</div></div>";

/// The word-cloud canvas for the JSON word data `json`, with every `</`
/// written `<\/` so that the data cannot end the page's markup.
pub open spec fn word_cloud_markup_text(json: Seq<char>) -> Seq<char> {
    WORD_CLOUD_OPEN@ + replaced(json, "</"@, "<\\/"@) + WORD_CLOUD_CLOSE@
}

/// The word cloud for `word_counts`: an empty note, or the canvas holding
/// the first `WORD_CLOUD_LIMIT` words as JSON.
pub open spec fn word_cloud_text(word_counts: WordCounts) -> Seq<char> {
    if word_counts.len() == 0 {
        EMPTY_WORD_CLOUD@
    } else {
        word_cloud_markup_text(json_word_list(word_counts.take(
            if word_counts.len() < WORD_CLOUD_LIMIT { word_counts.len() as int } else { WORD_CLOUD_LIMIT as int },
        )))
    }
}

/// The word-cloud canvas for the JSON word data `words_json`.
pub fn word_cloud_markup(words_json: &str) -> (html: String)
    ensures
        html@ == word_cloud_markup_text(words_json@),
{
    proof {
        reveal_strlit("</");
    }
    let escaped = replace_all(words_json, "</", "<\\/");
    let mut html = String::from_str(WORD_CLOUD_OPEN);
    html.append(escaped.as_str());
    html.append(WORD_CLOUD_CLOSE);
    html
}

/// The word cloud of the report.
pub fn render_word_cloud(word_counts: &Vec<(String, i64)>) -> (r: Result<String, ReportError>)
    ensures
        r matches Ok(html) && html@ == word_cloud_text(word_counts.deep_view()),
{
    if word_counts.len() == 0 {
        return Ok(String::from_str(EMPTY_WORD_CLOUD));
    }
    let limit = if word_counts.len() < WORD_CLOUD_LIMIT {
        word_counts.len()
    } else {
        WORD_CLOUD_LIMIT
    };
    let mut shown: Vec<(String, i64)> = Vec::new();
    let mut i: usize = 0;
    while i < limit
        invariant
            i <= limit <= word_counts@.len(),
            shown.deep_view() =~= word_counts.deep_view().take(i as int),
        decreases limit - i,
    {
        let ghost before = shown.deep_view();
        let entry = (word_counts[i].0.clone(), word_counts[i].1);
        assert(entry.deep_view() == word_counts.deep_view()[i as int]);
        shown.push(entry);
        proof {
            assert(shown.deep_view() =~= before.push(word_counts.deep_view()[i as int]));
            assert(word_counts.deep_view().take(i + 1) =~= word_counts.deep_view().take(
                i as int,
            ).push(word_counts.deep_view()[i as int]));
        }
        i = i + 1;
    }
    match word_list_json(&shown) {
        Ok(json) => Ok(word_cloud_markup(json.as_str())),
        Err(error) => Err(ReportError::WordCloudJson(error)),
    }
}

// ---------------------------------------------------------------------------
// The page
// ---------------------------------------------------------------------------

/// The headline as the page shows it: inside an `h1` element.
pub open spec fn headline_element(data: ReportData) -> Seq<char> {
    HEADLINE_OPEN@ + headline_text(data.range_start@, data.range_end@, data.total_profanities)
        + HEADLINE_CLOSE@
}

/// The figures between the headline and the form's SBAI field: the number
/// of messages, of profanities and of tokens, and the form up to that field.
pub open spec fn figures_text(data: ReportData) -> Seq<char> {
    let profanities = int_text(data.total_profanities as int);
    let tokens = int_text(data.total_tokens as int);
    PAGE_AFTER_HEADLINE@ + int_text(data.message_count as int) + PAGE_AFTER_MESSAGE_COUNT@
        + profanities + PAGE_AFTER_PROFANITIES@ + tokens + PAGE_AFTER_TOKENS@ + data.submit_endpoint@
        + PAGE_AFTER_SUBMIT_ENDPOINT@ + profanities + PAGE_AFTER_FORM_PROFANITIES@ + tokens
        + PAGE_AFTER_FORM_TOKENS@
}

/// The form's SBAI field with its value.
pub open spec fn sbai_field(sbai: Seq<char>) -> Seq<char> {
    SBAI_FIELD_OPEN@ + sbai + SBAI_FIELD_CLOSE@
}

/// The report page for `data`, with the SBAI index written `sbai`, the
/// daily chart `chart` and the word cloud `cloud`.
pub open spec fn page_text(data: ReportData, sbai: Seq<char>, chart: Seq<char>, cloud: Seq<char>) -> Seq<char> {
    PAGE_DOCTYPE@ + PAGE_HEAD@ + headline_element(data) + figures_text(data) + sbai_field(sbai)
        + PAGE_AFTER_FORM_SBAI@ + sbai + PAGE_AFTER_SBAI@ + chart + PAGE_AFTER_CHART@ + cloud
        + PAGE_TAIL@ + PAGE_END@
}

/// `x` stands somewhere in `s`, as a run of consecutive characters.
pub open spec fn contains_text(s: Seq<char>, x: Seq<char>) -> bool {
    exists|i: int| 0 <= i && i + x.len() <= s.len() && #[trigger] s.subrange(i, i + x.len()) == x
}

proof fn lemma_contains_middle(a: Seq<char>, x: Seq<char>, b: Seq<char>)
    ensures
        contains_text(a + x + b, x),
{
    let s = a + x + b;
    let i = a.len() as int;
    assert(s.subrange(i, i + x.len()) =~= x);
}

proof fn lemma_contains_within(a: Seq<char>, s: Seq<char>, b: Seq<char>, x: Seq<char>)
    requires
        contains_text(s, x),
    ensures
        contains_text(a + s + b, x),
{
    let i = choose|i: int| 0 <= i && i + x.len() <= s.len() && #[trigger] s.subrange(i, i + x.len()) == x;
    let j = a.len() + i;
    assert((a + s + b).subrange(j, j + x.len()) =~= s.subrange(i, i + x.len()));
}

/// The page starts with its document type and ends with `</html>`, and it
/// holds, each as written, the headline in its `h1` element, the SBAI field
/// with its value, the chart and the word cloud.
#[verifier::spinoff_prover]
#[verifier::rlimit(60)]
pub proof fn lemma_page_layout(data: ReportData, sbai: Seq<char>, chart: Seq<char>, cloud: Seq<char>)
    ensures
        ({
            let page = page_text(data, sbai, chart, cloud);
            &&& page.subrange(0, "<!DOCTYPE html>"@.len() as int) == "<!DOCTYPE html>"@
            &&& page.subrange(page.len() - "</html>"@.len(), page.len() as int) == "</html>"@
            &&& contains_text(page, "<h1>"@ + headline_text(data.range_start@, data.range_end@, data.total_profanities) + "</h1>"@)
            &&& contains_text(page, "name=\"sbai\" value=\""@ + sbai + "\""@)
            &&& contains_text(page, chart)
            &&& contains_text(page, cloud)
        }),
{
    let page = page_text(data, sbai, chart, cloud);
    let top = PAGE_DOCTYPE@ + PAGE_HEAD@;
    let h = headline_element(data);
    let f = figures_text(data);
    let sf = sbai_field(sbai);
    let card = PAGE_AFTER_FORM_SBAI@ + sbai + PAGE_AFTER_SBAI@;
    let after = PAGE_AFTER_CHART@ + cloud + PAGE_TAIL@ + PAGE_END@;
    let end = PAGE_TAIL@ + PAGE_END@;
    assert(page =~= PAGE_DOCTYPE@ + (PAGE_HEAD@ + h + f + sf + card + chart + after));
    assert(page.subrange(0, PAGE_DOCTYPE@.len() as int) =~= PAGE_DOCTYPE@);
    assert(page =~= (top + h + f + sf + card + chart + PAGE_AFTER_CHART@ + cloud + PAGE_TAIL@) + PAGE_END@);
    assert(page.subrange(page.len() - PAGE_END@.len(), page.len() as int) =~= PAGE_END@);
    assert(page =~= top + h + (f + sf + card + chart + after));
    lemma_contains_middle(top, h, f + sf + card + chart + after);
    assert(page =~= (top + h + f) + sf + (card + chart + after));
    lemma_contains_middle(top + h + f, sf, card + chart + after);
    assert(page =~= (top + h + f + sf + card) + chart + after);
    lemma_contains_middle(top + h + f + sf + card, chart, after);
    assert(page =~= (top + h + f + sf + card + chart + PAGE_AFTER_CHART@) + cloud + end);
    lemma_contains_middle(top + h + f + sf + card + chart + PAGE_AFTER_CHART@, cloud, end);
}

/// Each figure of the page stands, as its decimal text, in the slot of its
/// own label: the number of chat messages right after the "聊天输入" label,
/// the number of profanities after "脏话次数", the number of tokens after
/// "总 Tokens", the form posting to the submit endpoint with the profanity
/// and token figures in its hidden fields, and the SBAI index in the SBAI
/// card.
#[verifier::spinoff_prover]
#[verifier::rlimit(60)]
pub proof fn lemma_page_figures(data: ReportData, sbai: Seq<char>, chart: Seq<char>, cloud: Seq<char>)
    ensures
        ({
            let page = page_text(data, sbai, chart, cloud);
            let messages = int_text(data.message_count as int);
            let profanities = int_text(data.total_profanities as int);
            let tokens = int_text(data.total_tokens as int);
            &&& contains_text(page, PAGE_AFTER_HEADLINE@ + messages + PAGE_AFTER_MESSAGE_COUNT@)
            &&& contains_text(page, PAGE_AFTER_MESSAGE_COUNT@ + profanities + PAGE_AFTER_PROFANITIES@)
            &&& contains_text(page, PAGE_AFTER_PROFANITIES@ + tokens + PAGE_AFTER_TOKENS@)
            &&& contains_text(page, PAGE_AFTER_TOKENS@ + data.submit_endpoint@ + PAGE_AFTER_SUBMIT_ENDPOINT@)
            &&& contains_text(page, PAGE_AFTER_SUBMIT_ENDPOINT@ + profanities + PAGE_AFTER_FORM_PROFANITIES@)
            &&& contains_text(page, PAGE_AFTER_FORM_PROFANITIES@ + tokens + PAGE_AFTER_FORM_TOKENS@)
            &&& contains_text(page, PAGE_AFTER_FORM_SBAI@ + sbai + PAGE_AFTER_SBAI@)
        }),
{
    let page = page_text(data, sbai, chart, cloud);
    let m = int_text(data.message_count as int);
    let p = int_text(data.total_profanities as int);
    let t = int_text(data.total_tokens as int);
    let e = data.submit_endpoint@;
    let a0 = PAGE_AFTER_HEADLINE@;
    let a1 = PAGE_AFTER_MESSAGE_COUNT@;
    let a2 = PAGE_AFTER_PROFANITIES@;
    let a3 = PAGE_AFTER_TOKENS@;
    let a4 = PAGE_AFTER_SUBMIT_ENDPOINT@;
    let a5 = PAGE_AFTER_FORM_PROFANITIES@;
    let a6 = PAGE_AFTER_FORM_TOKENS@;
    let f = figures_text(data);
    let top = PAGE_DOCTYPE@ + PAGE_HEAD@ + headline_element(data);
    let card = PAGE_AFTER_FORM_SBAI@ + sbai + PAGE_AFTER_SBAI@;
    let after = chart + PAGE_AFTER_CHART@ + cloud + PAGE_TAIL@ + PAGE_END@;
    let sf = sbai_field(sbai);
    assert(page =~= top + f + (sf + card + after));
    assert(f =~= (a0 + m + a1) + (p + a2 + t + a3 + e + a4 + p + a5 + t + a6));
    lemma_contains_middle(Seq::empty(), a0 + m + a1, p + a2 + t + a3 + e + a4 + p + a5 + t + a6);
    assert(Seq::<char>::empty() + (a0 + m + a1) + (p + a2 + t + a3 + e + a4 + p + a5 + t + a6) =~= f);
    lemma_contains_within(top, f, sf + card + after, a0 + m + a1);
    assert(f =~= (a0 + m) + (a1 + p + a2) + (t + a3 + e + a4 + p + a5 + t + a6));
    lemma_contains_middle(a0 + m, a1 + p + a2, t + a3 + e + a4 + p + a5 + t + a6);
    lemma_contains_within(top, f, sf + card + after, a1 + p + a2);
    assert(f =~= (a0 + m + a1 + p) + (a2 + t + a3) + (e + a4 + p + a5 + t + a6));
    lemma_contains_middle(a0 + m + a1 + p, a2 + t + a3, e + a4 + p + a5 + t + a6);
    lemma_contains_within(top, f, sf + card + after, a2 + t + a3);
    assert(f =~= (a0 + m + a1 + p + a2 + t) + (a3 + e + a4) + (p + a5 + t + a6));
    lemma_contains_middle(a0 + m + a1 + p + a2 + t, a3 + e + a4, p + a5 + t + a6);
    lemma_contains_within(top, f, sf + card + after, a3 + e + a4);
    assert(f =~= (a0 + m + a1 + p + a2 + t + a3 + e) + (a4 + p + a5) + (t + a6));
    lemma_contains_middle(a0 + m + a1 + p + a2 + t + a3 + e, a4 + p + a5, t + a6);
    lemma_contains_within(top, f, sf + card + after, a4 + p + a5);
    assert(f =~= (a0 + m + a1 + p + a2 + t + a3 + e + a4 + p) + (a5 + t + a6) + Seq::empty());
    lemma_contains_middle(a0 + m + a1 + p + a2 + t + a3 + e + a4 + p, a5 + t + a6, Seq::empty());
    lemma_contains_within(top, f, sf + card + after, a5 + t + a6);
    assert(page =~= (top + f + sf) + card + after);
    lemma_contains_middle(top + f + sf, card, after);
}

/// The HTML report page for `data`, given the SBAI index as it is to be
/// shown (two decimals) and the daily chart's markup.
pub fn render_report(data: &ReportData, sbai: &str, chart: &str) -> (r: Result<String, ReportError>)
    ensures
        r matches Ok(html) && html@ == page_text(
            *data,
            sbai@,
            chart@,
            word_cloud_text(data.word_counts.deep_view()),
        ),
{
    let cloud = match render_word_cloud(&data.word_counts) {
        Ok(html) => html,
        Err(error) => return Err(error),
    };
    let headline = report_headline(data.range_start.as_str(), data.range_end.as_str(), data.total_profanities);
    let message_count = format_usize(data.message_count);
    let profanities = format_i64(data.total_profanities);
    let tokens = format_i64(data.total_tokens);
    let mut html = String::from_str(PAGE_DOCTYPE);
    html.append(PAGE_HEAD);
    html.append(HEADLINE_OPEN);
    html.append(headline.as_str());
    html.append(HEADLINE_CLOSE);
    html.append(PAGE_AFTER_HEADLINE);
    html.append(message_count.as_str());
    html.append(PAGE_AFTER_MESSAGE_COUNT);
    html.append(profanities.as_str());
    html.append(PAGE_AFTER_PROFANITIES);
    html.append(tokens.as_str());
    html.append(PAGE_AFTER_TOKENS);
    html.append(data.submit_endpoint.as_str());
    html.append(PAGE_AFTER_SUBMIT_ENDPOINT);
    html.append(profanities.as_str());
    html.append(PAGE_AFTER_FORM_PROFANITIES);
    html.append(tokens.as_str());
    html.append(PAGE_AFTER_FORM_TOKENS);
    html.append(SBAI_FIELD_OPEN);
    html.append(sbai);
    html.append(SBAI_FIELD_CLOSE);
    html.append(PAGE_AFTER_FORM_SBAI);
    html.append(sbai);
    html.append(PAGE_AFTER_SBAI);
    html.append(chart);
    html.append(PAGE_AFTER_CHART);
    html.append(cloud.as_str());
    html.append(PAGE_TAIL);
    html.append(PAGE_END);
    Ok(html)
}

// ---------------------------------------------------------------------------
// Detection over the messages
// ---------------------------------------------------------------------------

/// What a detector with `words` finds in each of `msgs`.
pub open spec fn message_detections(words: Seq<Seq<char>>, msgs: Seq<UserMessage>) -> Seq<WordCounts> {
    Seq::new(msgs.len(), |i: int| detections_of(words, msgs[i].text@))
}

/// No message text is longer than an `i64` can count.
pub open spec fn texts_countable(msgs: Seq<UserMessage>) -> bool {
    forall|i: int| 0 <= i < msgs.len() ==> (#[trigger] msgs[i]).text@.len() <= i64::MAX
}

/// What `detector` finds in each message.
pub fn detect_messages(detector: &FuckDetector, messages: &[UserMessage]) -> (found: Vec<Vec<(String, i64)>>)
    requires
        texts_countable(messages@),
    ensures
        found.deep_view() == message_detections(detector@, messages@),
{
    let mut found: Vec<Vec<(String, i64)>> = Vec::new();
    let mut i: usize = 0;
    while i < messages.len()
        invariant
            i <= messages@.len(),
            texts_countable(messages@),
            found.deep_view() =~= message_detections(detector@, messages@).take(i as int),
        decreases messages@.len() - i,
    {
        let ghost before = found.deep_view();
        let d = detector.detect(messages[i].text.as_str());
        found.push(d);
        proof {
            assert(found.deep_view() =~= before.push(detections_of(detector@, messages@[i as int].text@)));
        }
        i = i + 1;
    }
    found
}

/// Detections made by a detector never count below zero.
proof fn lemma_message_detections_nonnegative(words: Seq<Seq<char>>, msgs: Seq<UserMessage>)
    requires
        texts_countable(msgs),
    ensures
        all_counts_nonnegative(message_detections(words, msgs)),
{
    let dets = message_detections(words, msgs);
    assert forall|i: int| 0 <= i < dets.len() implies counts_nonnegative(#[trigger] dets[i]) by {
        lemma_detector_counts_positive(words, msgs[i].text@);
    }
}

/// The report data of `messages`, with the profanities that `detector`
/// finds and `tokens` tokens used.
pub fn build_report_data(messages: &[UserMessage], tokens: i64, detector: &FuckDetector) -> (r: Result<
    ReportData,
    ReportError,
>)
    requires
        texts_countable(messages@),
        profanities_upto(message_detections(detector@, messages@), messages@.len() as int)
            <= i64::MAX,
    ensures
        report_outcome(r, messages@, message_detections(detector@, messages@), tokens),
        r matches Ok(data) ==> data.message_count == messages@.len() && data.total_tokens == tokens,
{
    let detections = detect_messages(detector, messages);
    proof {
        lemma_message_detections_nonnegative(detector@, messages@);
        assert(detections@.len() == detections.deep_view().len());
    }
    aggregate_report_data(messages, &detections, tokens)
}

// ---------------------------------------------------------------------------
// Where the report is written
// ---------------------------------------------------------------------------

/// The name of the report file written at `timestamp` (seconds since the
/// Unix epoch).
pub open spec fn report_filename_text(timestamp: u64) -> Seq<char> {
    "maleme-report-"@ + int_text(timestamp as int) + ".html"@
}

/// The name of the report file written at `timestamp`.
pub fn report_filename(timestamp: u64) -> (name: String)
    ensures
        name@ == report_filename_text(timestamp),
{
    let mut name = String::from_str("maleme-report-");
    let digits = format_u64(timestamp);
    name.append(digits.as_str());
    name.append(".html");
    name
}

/// The directory the report goes to: `Downloads` in the home directory.
pub fn downloads_dir(home: &str, platform: Platform) -> (dir: String)
    ensures
        dir@ == joined(home@, "Downloads"@, platform),
{
    join_path(home, "Downloads", platform)
}

// ---------------------------------------------------------------------------
// Laws of the report data
// ---------------------------------------------------------------------------

/// The sum of the daily counts.
pub open spec fn daily_sum(days: Seq<DailyCount>) -> int
    decreases days.len(),
{
    if days.len() == 0 {
        0
    } else {
        daily_sum(days.drop_last()) + days.last().count
    }
}

/// The profanities of the first `n` messages on the `len` days from `lo`.
pub open spec fn day_range_sum(msgs: Seq<UserMessage>, dets: Seq<WordCounts>, lo: int, len: int, n: int) -> int
    decreases len,
{
    if len <= 0 {
        0
    } else {
        day_range_sum(msgs, dets, lo, len - 1, n) + day_total_upto(msgs, dets, lo + len - 1, n)
    }
}

proof fn lemma_day_range_sum_step(msgs: Seq<UserMessage>, dets: Seq<WordCounts>, lo: int, len: int, n: int)
    requires
        1 <= n,
        0 <= len,
    ensures
        day_range_sum(msgs, dets, lo, len, n) == day_range_sum(msgs, dets, lo, len, n - 1) + if lo
            <= message_day(msgs[n - 1].time) < lo + len {
            counts_total(dets[n - 1])
        } else {
            0
        },
    decreases len,
{
    if len > 0 {
        lemma_day_range_sum_step(msgs, dets, lo, len - 1, n);
    }
}

proof fn lemma_day_range_sum_total(msgs: Seq<UserMessage>, dets: Seq<WordCounts>, lo: int, len: int, n: int)
    requires
        0 <= n <= msgs.len(),
        0 <= len,
        forall|i: int| 0 <= i < n ==> lo <= #[trigger] message_day(msgs[i].time) < lo + len,
    ensures
        day_range_sum(msgs, dets, lo, len, n) == profanities_upto(dets, n),
    decreases n,
{
    if n == 0 {
        lemma_day_range_sum_zero(msgs, dets, lo, len);
    } else {
        assert(lo <= message_day(msgs[n - 1].time) < lo + len);
        lemma_day_range_sum_step(msgs, dets, lo, len, n);
        lemma_day_range_sum_total(msgs, dets, lo, len, n - 1);
    }
}

proof fn lemma_day_range_sum_zero(msgs: Seq<UserMessage>, dets: Seq<WordCounts>, lo: int, len: int)
    requires
        0 <= len,
    ensures
        day_range_sum(msgs, dets, lo, len, 0) == 0,
    decreases len,
{
    if len > 0 {
        lemma_day_range_sum_zero(msgs, dets, lo, len - 1);
    }
}

proof fn lemma_daily_sum_prefix(days: Seq<DailyCount>, msgs: Seq<UserMessage>, dets: Seq<WordCounts>, lo: int, n: int, k: int)
    requires
        0 <= k <= days.len(),
        forall|q: int| 0 <= q < days.len() ==> (#[trigger] days[q]).count == day_total_upto(msgs, dets, lo + q, n),
    ensures
        daily_sum(days.take(k)) == day_range_sum(msgs, dets, lo, k, n),
    decreases k,
{
    if k > 0 {
        lemma_daily_sum_prefix(days, msgs, dets, lo, n, k - 1);
        assert(days.take(k).drop_last() =~= days.take(k - 1));
        assert(days.take(k).last() == days[k - 1]);
    }
}

/// Every profanity is counted on exactly one day: the daily counts of a
/// report add up to its total.
pub proof fn lemma_daily_counts_add_up(data: ReportData, msgs: Seq<UserMessage>, dets: Seq<WordCounts>, tokens: i64)
    requires
        describes(data, msgs, dets, tokens),
    ensures
        daily_sum(data.daily_counts@) == data.total_profanities,
{
    let n = msgs.len() as int;
    let days = data.daily_counts@;
    if n == 0 {
        assert(daily_sum(days) == 0);
    } else {
        let lo = min_day_upto(msgs, n);
        let hi = max_day_upto(msgs, n);
        assert forall|i: int| 0 <= i < n implies lo <= #[trigger] message_day(msgs[i].time) < lo + (hi - lo + 1) by {
            lemma_day_bounds(msgs, n, i);
        }
        lemma_day_range_sum_total(msgs, dets, lo, hi - lo + 1, n);
        lemma_daily_sum_prefix(days, msgs, dets, lo, n, days.len() as int);
        assert(days.take(days.len() as int) =~= days);
    }
}

/// A day on which no message was sent counts no profanity: the daily
/// series shows gaps between messages as zeros.
pub proof fn lemma_quiet_day_counts_zero(msgs: Seq<UserMessage>, dets: Seq<WordCounts>, day: int, n: int)
    requires
        0 <= n <= msgs.len(),
        forall|i: int| 0 <= i < n ==> #[trigger] message_day(msgs[i].time) != day,
    ensures
        day_total_upto(msgs, dets, day, n) == 0,
    decreases n,
{
    if n > 0 {
        assert(message_day(msgs[n - 1].time) != day);
        lemma_quiet_day_counts_zero(msgs, dets, day, n - 1);
    }
}

/// The daily series runs from the first message's day to the last's: its
/// first and last labels are the report's range.
pub proof fn lemma_series_spans_range(data: ReportData, msgs: Seq<UserMessage>, dets: Seq<WordCounts>, tokens: i64)
    requires
        describes(data, msgs, dets, tokens),
        msgs.len() > 0,
    ensures
        data.daily_counts@.len() >= 1,
        data.daily_counts@[0].label@ == data.range_start@,
        data.daily_counts@.last().label@ == data.range_end@,
{
    let n = msgs.len() as int;
    lemma_day_bounds(msgs, n, 0);
    let k = data.daily_counts@.len() - 1;
    assert(data.daily_counts@[k].label@ == day_label_text(min_day_upto(msgs, n) + k));
    assert(data.daily_counts@[0].label@ == day_label_text(min_day_upto(msgs, n) + 0));
}

/// Building the report fails only on a day outside the calendar: every
/// error it gives is `InvalidTimestamp`.
pub proof fn lemma_report_errors_are_dates(
    r: Result<ReportData, ReportError>,
    msgs: Seq<UserMessage>,
    dets: Seq<WordCounts>,
    tokens: i64,
)
    requires
        report_outcome(r, msgs, dets, tokens),
    ensures
        r is Err ==> (r matches Err(ReportError::InvalidTimestamp { .. })),
{
}

} // verus!

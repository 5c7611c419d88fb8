use maleme::calendar::day_label;
use maleme::chart::{chart_grid_values, chart_label_stride, chart_labels_point, chart_peak, render_line_chart, ChartPoint, EMPTY_CHART};
use maleme::report::{
    aggregate_report_data, build_report_data, downloads_dir, render_report, render_word_cloud, report_filename, report_headline,
    word_cloud_markup, DailyCount, ReportError, EMPTY_WORD_CLOUD,
};
use maleme::cursor::Platform;
use maleme::{AdapterKind, FuckDetector, UserMessage};

fn message(adapter: AdapterKind, text: &str, time: i64) -> UserMessage {
    UserMessage { adapter, text: text.to_owned(), time }
}

#[test]
fn builds_daily_counts_with_gaps() {
    let detector = FuckDetector::from_lexicon("fuck\n傻逼").unwrap();
    let messages = vec![
        UserMessage { adapter: AdapterKind::Codex, text: "fuck fuck".to_owned(), time: 0 },
        UserMessage { adapter: AdapterKind::Claude, text: "hello".to_owned(), time: 86_400_000 },
        UserMessage { adapter: AdapterKind::OpenCode, text: "傻逼".to_owned(), time: 172_800_000 },
    ];

    let data = build_report_data(&messages, 4, &detector).unwrap();

    assert_eq!(data.total_profanities, 3);
    assert_eq!(data.daily_counts.len(), 3);
    assert_eq!(data.daily_counts[0].count, 2);
    assert_eq!(data.daily_counts[1].count, 0);
    assert_eq!(data.daily_counts[2].count, 1);
    assert_eq!(data.word_counts[0], ("fuck".to_owned(), 2));
    assert_eq!(data.word_counts[1], ("傻逼".to_owned(), 1));
    let sbai = data.total_profanities as f64 * 10_000_000.0 / data.total_tokens as f64;
    assert_eq!(sbai, 7_500_000.0);
    assert_eq!(data.range_start, "1970-01-01");
    assert_eq!(data.range_end, "1970-01-03");
}

#[test]
fn renders_expected_sections() {
    let detector = FuckDetector::from_lexicon("fuck").unwrap();
    let messages = vec![UserMessage { adapter: AdapterKind::Codex, text: "fuck".to_owned(), time: 0 }];

    let data = build_report_data(&messages, 2, &detector).unwrap();
    let sbai = format!("{:.2}", data.total_profanities as f64 * 10_000_000.0 / data.total_tokens as f64);
    let html = render_report(&data, &sbai, "<svg></svg>").unwrap();

    assert!(html.contains("SBAI 指数"));
    assert!(html.contains("你这一天骂了 AI 多少次！"));
    assert!(html.contains("你最喜欢这么骂！"));
    assert!(html.contains("fuck"));
    assert!(html.contains("心如止水"));
    assert!(html.contains("提交到 leaderboard 看看你有多能骂！"));
    assert!(html.contains("https://leaderboard.sbai.uk/submit"));
}

#[test]
fn headline_changes_by_count() {
    assert!(report_headline("2026-01-01", "2026-01-03", 3).contains("心如止水"));
    assert!(report_headline("2026-01-01", "2026-01-03", 30).contains("心态也太平稳了叭"));
    assert!(report_headline("2026-01-01", "2026-01-03", 300).contains("喜报！！你从"));
}

#[test]
fn headline_text_is_exact_at_the_thresholds() {
    assert_eq!(
        report_headline("A", "B", 9),
        "心如止水。A 到 B，你只骂了 AI <span class=\"headline-count\">9</span> 次。"
    );
    assert_eq!(
        report_headline("A", "B", 10),
        "喜报！！！你的心态也太平稳了叭！！！！A 到 B，只骂了 AI <span class=\"headline-count\">10</span> 次！"
    );
    assert_eq!(
        report_headline("A", "B", 99),
        "喜报！！！你的心态也太平稳了叭！！！！A 到 B，只骂了 AI <span class=\"headline-count\">99</span> 次！"
    );
    assert_eq!(
        report_headline("A", "B", 100),
        "喜报！！你从 A 到 B 一共骂了 AI <span class=\"headline-count\">100</span> 次！"
    );
    assert_eq!(
        report_headline("A", "B", -5),
        "心如止水。A 到 B，你只骂了 AI <span class=\"headline-count\">-5</span> 次。"
    );
}

#[test]
fn empty_messages_give_an_empty_report() {
    let detector = FuckDetector::from_lexicon("fuck").unwrap();
    let data = build_report_data(&[], 123, &detector).unwrap();
    assert_eq!(data.total_profanities, 0);
    assert_eq!(data.total_tokens, 123);
    assert_eq!(data.message_count, 0);
    assert!(data.daily_counts.is_empty());
    assert!(data.word_counts.is_empty());
    assert_eq!(data.range_start, "还没有记录");
    assert_eq!(data.range_end, "还没有记录");
    assert_eq!(data.submit_endpoint, "https://leaderboard.sbai.uk/submit");
}

#[test]
fn days_round_down_before_the_epoch() {
    let detector = FuckDetector::from_lexicon("x").unwrap();
    let messages = vec![
        message(AdapterKind::Cursor, "x", -1),
        message(AdapterKind::Cursor, "xx", -86_400_000),
        message(AdapterKind::Cursor, "x x", -86_400_001),
    ];
    let data = build_report_data(&messages, 0, &detector).unwrap();
    assert_eq!(data.range_start, "1969-12-30");
    assert_eq!(data.range_end, "1969-12-31");
    assert_eq!(data.daily_counts.len(), 2);
    assert_eq!(data.daily_counts[0].label, "1969-12-30");
    assert_eq!(data.daily_counts[0].count, 2);
    assert_eq!(data.daily_counts[1].label, "1969-12-31");
    assert_eq!(data.daily_counts[1].count, 3);
    assert_eq!(data.total_profanities, 5);
}

#[test]
fn daily_counts_add_up_to_the_total() {
    let detector = FuckDetector::from_lexicon("a\nb\nab").unwrap();
    let messages = vec![
        message(AdapterKind::Codex, "ab ab", 5 * 86_400_000 + 10),
        message(AdapterKind::Claude, "b", 9 * 86_400_000),
        message(AdapterKind::Codex, "nothing", 7 * 86_400_000),
        message(AdapterKind::Cursor, "aaa", 5 * 86_400_000),
    ];
    let data = build_report_data(&messages, 10, &detector).unwrap();
    let daily: i64 = data.daily_counts.iter().map(|d| d.count).sum();
    let words: i64 = data.word_counts.iter().map(|w| w.1).sum();
    assert_eq!(data.daily_counts.len(), 5);
    assert_eq!(daily, data.total_profanities);
    assert_eq!(words, data.total_profanities);
    assert_eq!(data.total_profanities, 2 + 2 + 2 + 1 + 3);
    assert_eq!(data.daily_counts[0].count, 9);
    assert_eq!(data.daily_counts[1].count, 0);
    assert_eq!(data.daily_counts[2].count, 0);
    assert_eq!(data.daily_counts[3].count, 0);
    assert_eq!(data.daily_counts[4].count, 1);
}

#[test]
fn word_counts_rank_by_count_then_word() {
    let messages = vec![message(AdapterKind::Codex, "", 0)];
    let detections = vec![vec![
        ("b".to_owned(), 2),
        ("c".to_owned(), 5),
        ("a".to_owned(), 2),
        ("b".to_owned(), 1),
        ("ab".to_owned(), 3),
        ("z".to_owned(), 0),
    ]];
    let data = aggregate_report_data(&messages, &detections, 1).unwrap();
    assert_eq!(
        data.word_counts,
        vec![
            ("c".to_owned(), 5),
            ("ab".to_owned(), 3),
            ("b".to_owned(), 3),
            ("a".to_owned(), 2),
            ("z".to_owned(), 0),
        ]
    );
    assert_eq!(data.total_profanities, 13);
    assert_eq!(data.daily_counts[0].count, 13);
}

#[test]
fn out_of_calendar_days_are_refused() {
    let messages = vec![message(AdapterKind::Codex, "x", i64::MAX)];
    let detections = vec![vec![]];
    match aggregate_report_data(&messages, &detections, 0) {
        Err(ReportError::InvalidTimestamp { value, .. }) => {
            assert_eq!(value, (i64::MAX / 86_400_000) * 86_400)
        }
        other => panic!("expected an invalid timestamp, got {:?}", other),
    }
    let messages = vec![
        message(AdapterKind::Codex, "x", i64::MIN),
        message(AdapterKind::Codex, "x", i64::MAX),
    ];
    let detections = vec![vec![], vec![]];
    match aggregate_report_data(&messages, &detections, 0) {
        Err(ReportError::InvalidTimestamp { value, .. }) => {
            assert_eq!(value, i64::MIN.div_euclid(86_400_000) * 86_400)
        }
        other => panic!("expected an invalid timestamp, got {:?}", other),
    }
}

#[test]
fn day_labels_follow_the_calendar_range() {
    assert_eq!(day_label(0).unwrap(), "1970-01-01");
    assert_eq!(day_label(19_723).unwrap(), "2024-01-01");
    assert_eq!(day_label(2_932_896).unwrap(), "9999-12-31");
    assert_eq!(day_label(-4_371_587).unwrap(), "-9999-01-01");
    assert!(matches!(
        day_label(2_932_897),
        Err(ReportError::InvalidTimestamp { value: 253_402_300_800, .. })
    ));
    assert!(matches!(
        day_label(-4_371_588),
        Err(ReportError::InvalidTimestamp { value: -377_705_203_200, .. })
    ));
}

#[test]
fn word_cloud_is_empty_note_without_words() {
    assert_eq!(render_word_cloud(&vec![]).unwrap(), EMPTY_WORD_CLOUD);
}

#[test]
fn word_cloud_escapes_closing_tags_and_keeps_at_most_42_words() {
    let words = vec![("</script>".to_owned(), 2), ("a\"b".to_owned(), 1)];
    let html = render_word_cloud(&words).unwrap();
    assert_eq!(
        html,
        "<div class=\"cloud\"><canvas id=\"word-cloud-canvas\" class=\"cloud-canvas\" data-words='[[\"<\\/script>\",2],[\"a\\\"b\",1]]'></canvas><div class=\"cloud-fallback\">词云加载失败。</div></div>"
    );
    assert!(!html.contains("</script"));

    let many: Vec<(String, i64)> = (0..50).map(|i| (format!("w{i}"), 100 - i as i64)).collect();
    let html = render_word_cloud(&many).unwrap();
    assert!(html.contains("\"w41\""));
    assert!(!html.contains("\"w42\""));
}

#[test]
fn word_cloud_markup_rewrites_every_closing_sequence() {
    assert_eq!(
        word_cloud_markup("<</</"),
        "<div class=\"cloud\"><canvas id=\"word-cloud-canvas\" class=\"cloud-canvas\" data-words='<<\\/<\\/'></canvas><div class=\"cloud-fallback\">词云加载失败。</div></div>"
    );
}

#[test]
fn report_page_carries_the_figures() {
    let detector = FuckDetector::from_lexicon("fuck").unwrap();
    let messages = vec![
        message(AdapterKind::Codex, "fuck fuck", 0),
        message(AdapterKind::Codex, "fine", 0),
    ];
    let data = build_report_data(&messages, 77, &detector).unwrap();
    let html = render_report(&data, "12.34", "CHART-MARKUP").unwrap();
    assert!(html.starts_with("<!DOCTYPE html>"));
    assert!(html.ends_with("</html>"));
    assert!(html.contains("data-target-number=\"2\" data-decimals=\"0\""));
    assert!(html.contains("<input type=\"hidden\" name=\"profanityCount\" value=\"2\">"));
    assert!(html.contains("<input type=\"hidden\" name=\"tokens\" value=\"77\">"));
    assert!(html.contains("<input type=\"hidden\" name=\"sbai\" value=\"12.34\">"));
    assert!(html.contains("data-target-number=\"12.34\" data-decimals=\"2\""));
    assert!(html.contains("<div class=\"chart-wrap\">CHART-MARKUP</div>"));
    assert!(html.contains("<h1>心如止水。1970-01-01 到 1970-01-01，你只骂了 AI <span class=\"headline-count\">2</span> 次。</h1>"));
    assert!(html.contains("[[\"fuck\",2]]"));
    assert!(html.contains("action=\"https://leaderboard.sbai.uk/submit\""));
}

#[test]
fn chart_layout_numbers() {
    let days = vec![
        DailyCount { label: "a".to_owned(), count: 0 },
        DailyCount { label: "b".to_owned(), count: 0 },
    ];
    assert_eq!(chart_peak(&days), 1);
    let days = vec![
        DailyCount { label: "a".to_owned(), count: 3 },
        DailyCount { label: "b".to_owned(), count: 17 },
        DailyCount { label: "c".to_owned(), count: 5 },
    ];
    assert_eq!(chart_peak(&days), 17);
    assert_eq!(chart_peak(&vec![]), 1);
    assert_eq!(chart_label_stride(0), 1);
    assert_eq!(chart_label_stride(1), 1);
    assert_eq!(chart_label_stride(6), 1);
    assert_eq!(chart_label_stride(7), 2);
    assert_eq!(chart_label_stride(13), 3);
    assert!(chart_labels_point(0, 13, 3));
    assert!(!chart_labels_point(1, 13, 3));
    assert!(chart_labels_point(6, 13, 3));
    assert!(chart_labels_point(12, 13, 3));
    assert!(!chart_labels_point(11, 13, 3));
}

#[test]
fn report_location() {
    assert_eq!(report_filename(1_700_000_000), "maleme-report-1700000000.html");
    assert_eq!(report_filename(0), "maleme-report-0.html");
    assert_eq!(downloads_dir("/home/me", Platform::Other), "/home/me/Downloads");
    assert_eq!(downloads_dir("/home/me/", Platform::MacOs), "/home/me/Downloads");
    assert_eq!(downloads_dir("C:\\Users\\me", Platform::Windows), "C:\\Users\\me\\Downloads");
}

fn point(x: &str, y: &str, delay: &str) -> ChartPoint {
    ChartPoint { x: x.to_owned(), y: y.to_owned(), delay: delay.to_owned() }
}

#[test]
fn chart_markup_around_the_points() {
    assert_eq!(render_line_chart(&vec![], &vec![], &vec![0, 0, 1, 1, 1]), EMPTY_CHART);
    let days = vec![
        DailyCount { label: "a<b".to_owned(), count: 2 },
        DailyCount { label: "c".to_owned(), count: 0 },
    ];
    let points = vec![point("56.00", "20.00", "0.00"), point("1060.00", "176.00", "0.04")];
    let svg = render_line_chart(&days, &points, &vec![0, 1, 1, 2, 2]);
    let expected = [
        "<svg viewBox=\"0 0 1080 220\" width=\"100%\" role=\"img\" aria-label=\"daily profanity chart\">\n",
        "  <rect x=\"56\" y=\"20\" width=\"1004\" height=\"156\" rx=\"8\" fill=\"rgba(255,255,255,0.88)\" />\n",
        "  <line x1=\"56.00\" y1=\"176.00\" x2=\"1060.00\" y2=\"176.00\" stroke=\"#d9e7ee\" stroke-width=\"1\" />\n",
        "<text x=\"12\" y=\"180.00\" fill=\"#5e6b78\" font-size=\"11\">0</text>",
        "<line x1=\"56.00\" y1=\"137.00\" x2=\"1060.00\" y2=\"137.00\" stroke=\"#d9e7ee\" stroke-width=\"1\" />\n",
        "<text x=\"12\" y=\"141.00\" fill=\"#5e6b78\" font-size=\"11\">1</text>",
        "<line x1=\"56.00\" y1=\"98.00\" x2=\"1060.00\" y2=\"98.00\" stroke=\"#d9e7ee\" stroke-width=\"1\" />\n",
        "<text x=\"12\" y=\"102.00\" fill=\"#5e6b78\" font-size=\"11\">1</text>",
        "<line x1=\"56.00\" y1=\"59.00\" x2=\"1060.00\" y2=\"59.00\" stroke=\"#d9e7ee\" stroke-width=\"1\" />\n",
        "<text x=\"12\" y=\"63.00\" fill=\"#5e6b78\" font-size=\"11\">2</text>",
        "<line x1=\"56.00\" y1=\"20.00\" x2=\"1060.00\" y2=\"20.00\" stroke=\"#d9e7ee\" stroke-width=\"1\" />\n",
        "<text x=\"12\" y=\"24.00\" fill=\"#5e6b78\" font-size=\"11\">2</text>\n",
        "  <path class=\"chart-fill\" d=\"M 56.00 176.00 L 56.00 20.00 L 1060.00 176.00 L 1060.00 176.00 Z\" fill=\"rgba(255,90,95,0.16)\" />\n",
        "  <path class=\"chart-line\" d=\"M 56.00 20.00 L 1060.00 176.00 \" fill=\"none\" stroke=\"#ff5a5f\" stroke-width=\"3\" stroke-linecap=\"round\" stroke-linejoin=\"round\" />\n",
        "  <circle class=\"chart-dot\" style=\"animation-delay:0.00s\" cx=\"56.00\" cy=\"20.00\" r=\"4\" fill=\"#00a6a6\" /><title>a&lt;b：你这一天骂了 AI 2 次！</title>",
        "<circle class=\"chart-dot\" style=\"animation-delay:0.04s\" cx=\"1060.00\" cy=\"176.00\" r=\"4\" fill=\"#00a6a6\" /><title>c：你这一天骂了 AI 0 次！</title>\n",
        "  <text x=\"56.00\" y=\"208.00\" text-anchor=\"middle\" fill=\"#5e6b78\" font-size=\"11\">a&lt;b</text>",
        "<text x=\"1060.00\" y=\"208.00\" text-anchor=\"middle\" fill=\"#5e6b78\" font-size=\"11\">c</text>\n",
        "</svg>",
    ]
    .concat();
    assert_eq!(svg, expected);
}

#[test]
fn chart_labels_every_stride_and_the_last_day() {
    let days: Vec<DailyCount> = (0..8).map(|i| DailyCount { label: format!("d{i}"), count: i }).collect();
    let points: Vec<ChartPoint> = (0..8).map(|i| point(&format!("{i}"), "0", "0")).collect();
    let svg = render_line_chart(&days, &points, &vec![0, 2, 4, 5, 7]);
    for labelled in ["d0", "d2", "d4", "d6", "d7"] {
        assert!(svg.contains(&format!("font-size=\"11\">{labelled}</text>")));
    }
    for unlabelled in ["d1", "d3", "d5"] {
        assert!(!svg.contains(&format!("font-size=\"11\">{unlabelled}</text>")));
    }
}

#[test]
fn chart_scale_values_round_quarters_of_the_peak() {
    assert_eq!(chart_grid_values(1), vec![0, 0, 1, 1, 1]);
    assert_eq!(chart_grid_values(2), vec![0, 1, 1, 2, 2]);
    assert_eq!(chart_grid_values(7), vec![0, 2, 4, 5, 7]);
    for peak in [1_i64, 3, 5, 6, 10, 17, 1 << 40, 3_002_399_751_580_329, 3_002_399_751_580_330] {
        let expected: Vec<i64> =
            (0..=4).map(|step| (peak as f64 * (step as f64 / 4.0)).round() as i64).collect();
        assert_eq!(chart_grid_values(peak), expected);
    }
}

#[test]
fn report_ignores_message_order() {
    let detector = FuckDetector::from_lexicon("fuck\n傻逼\nab").unwrap();
    let messages = vec![
        message(AdapterKind::Codex, "fuck ab", 3 * 86_400_000),
        message(AdapterKind::Claude, "傻逼 fuck", 86_400_000 + 5),
        message(AdapterKind::Cursor, "ab ab", -7),
        message(AdapterKind::OpenCode, "nothing", 2 * 86_400_000),
    ];
    let mut reversed = Vec::new();
    for m in messages.iter().rev() {
        reversed.push(message(m.adapter, &m.text, m.time));
    }
    let a = build_report_data(&messages, 9, &detector).unwrap();
    let b = build_report_data(&reversed, 9, &detector).unwrap();
    assert_eq!(a.word_counts, b.word_counts);
    assert_eq!(a.total_profanities, b.total_profanities);
    assert_eq!(a.range_start, b.range_start);
    assert_eq!(a.range_end, b.range_end);
    assert_eq!(a.message_count, b.message_count);
    assert_eq!(a.daily_counts.len(), b.daily_counts.len());
    for (x, y) in a.daily_counts.iter().zip(b.daily_counts.iter()) {
        assert_eq!((&x.label, x.count), (&y.label, y.count));
    }
}

#[test]
fn page_starts_ends_and_holds_its_parts() {
    let detector = FuckDetector::from_lexicon("fuck").unwrap();
    let messages = vec![message(AdapterKind::Codex, "fuck", 0)];
    let data = build_report_data(&messages, 2, &detector).unwrap();
    let headline = report_headline(&data.range_start, &data.range_end, data.total_profanities);
    let cloud = render_word_cloud(&data.word_counts).unwrap();
    let html = render_report(&data, "5000000.00", "<svg>chart</svg>").unwrap();
    assert!(html.starts_with("<!DOCTYPE html>"));
    assert!(html.ends_with("</html>"));
    assert!(html.contains(&format!("<h1>{}</h1>", headline)));
    assert!(html.contains("name=\"sbai\" value=\"5000000.00\""));
    assert!(html.contains("<svg>chart</svg>"));
    assert!(html.contains(&cloud));
}

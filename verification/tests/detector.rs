use maleme::{FuckDetector, FuckDetectorError};

#[test]
fn lexicon_lines_are_trimmed_deduplicated_and_blank_ones_dropped() {
    let detector = FuckDetector::from_lexicon(" fuck \n\n傻逼\r\nfuck\n").unwrap();
    assert_eq!(detector.detect("fuck 傻逼 fuck"), vec![("fuck".to_owned(), 2), ("傻逼".to_owned(), 1)]);
}

#[test]
fn empty_lexicon_is_refused() {
    assert_eq!(FuckDetector::from_lexicon("").unwrap_err(), FuckDetectorError::EmptyLexicon);
    assert_eq!(FuckDetector::from_lexicon(" \n\t\n").unwrap_err(), FuckDetectorError::EmptyLexicon);
}

#[test]
fn detect_reports_only_words_found() {
    let detector = FuckDetector::from_lexicon("fuck\n傻逼").unwrap();
    assert_eq!(detector.detect("hello"), vec![]);
    assert_eq!(detector.detect("fuckfuck"), vec![("fuck".to_owned(), 2)]);
    assert_eq!(detector.detect("傻逼"), vec![("傻逼".to_owned(), 1)]);
}

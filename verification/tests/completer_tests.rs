use ingestion_completer::{
    candidates_to_suggestions, complete_buckets, complete_date, complete_stations,
    contains_substr, get_words, IngestionCompleter, Span, Suggestion,
};

#[test]
fn test_candidates_to_suggestions() {
    let candidates = vec!["asdf".to_string()];
    let caret_pos = 2;
    let suggestions = candidates_to_suggestions(candidates, "df", caret_pos);
    assert_eq!(
        suggestions,
        vec![Suggestion {
            value: "asdf".to_string(),
            span: Span {
                start: 0,
                end: caret_pos,
            },
            append_whitespace: true,
        }]
    )
}

#[test]
fn test_get_words_empty() {
    assert_eq!(get_words(""), vec![""]);
}

#[test]
fn test_get_words_first_word() {
    assert_eq!(get_words("word"), vec!["word"]);
}

#[test]
fn test_get_words_second_word_empty() {
    assert_eq!(get_words("word "), vec!["word", ""]);
}

#[test]
fn test_get_words_second_word() {
    assert_eq!(get_words("word another"), vec!["word", "another"]);
}

#[test]
fn test_get_words_only_spaces() {
    assert_eq!(get_words("  "), vec![""]);
}

#[test]
fn test_get_words_trailing_tab_starts_no_word() {
    assert_eq!(get_words("word\t"), vec!["word"]);
}

#[test]
fn test_get_words_multiple_separators() {
    assert_eq!(get_words("a \t b"), vec!["a", "b"]);
}

#[test]
fn test_bucket_substring_match() {
    assert_eq!(
        complete_buckets("custom"),
        vec!["am-ingestion-custom-http", "am-ingestion-custom-radio"]
    );
}

#[test]
fn test_bucket_match_is_case_insensitive() {
    assert_eq!(complete_buckets("CUSTOM"), complete_buckets("custom"));
    assert_eq!(complete_buckets("Provider"), vec!["am-ingestion-provider"]);
}

#[test]
fn test_empty_partial_returns_whole_vocabulary() {
    assert_eq!(
        complete_buckets(""),
        vec![
            "am-ingestion-custom-http",
            "am-ingestion-provider",
            "am-ingestion-custom-radio"
        ]
    );
    assert_eq!(complete_date(""), vec!["2023-07-13"]);
    assert_eq!(
        complete_stations(""),
        vec![
            "BBC1",
            "BBC2",
            "BBC3",
            "radio-mansfield",
            "radio-hits-fm",
            "radio-kiss-fm",
            "BBC-CAMBRIDGE",
            "BCC-LONDON",
            "radio-heart-east",
            "radio-heart-west",
            "radio-heart-north",
            "very-long-station-because-it-was-renamed-at-some-point"
        ]
    );
}

#[test]
fn test_no_match_returns_empty_list() {
    assert_eq!(complete_buckets("zzz"), Vec::<String>::new());
    let completer = IngestionCompleter;
    assert!(completer.complete("qqq", 3).is_empty());
}

#[test]
fn test_first_word_completes_buckets() {
    let completer = IngestionCompleter;
    let suggestions = completer.complete("", 0);
    let values: Vec<String> = suggestions.iter().map(|s| s.value.clone()).collect();
    assert_eq!(
        values,
        vec![
            "am-ingestion-custom-http",
            "am-ingestion-provider",
            "am-ingestion-custom-radio"
        ]
    );
    for s in &suggestions {
        assert_eq!(s.span, Span { start: 0, end: 0 });
        assert!(s.append_whitespace);
    }
}

#[test]
fn test_second_word_completes_dates() {
    let completer = IngestionCompleter;
    let line = "am-ingestion-provider ";
    let suggestions = completer.complete(line, line.len());
    assert_eq!(
        suggestions,
        vec![Suggestion {
            value: "2023-07-13".to_string(),
            span: Span {
                start: line.len(),
                end: line.len(),
            },
            append_whitespace: true,
        }]
    );
}

#[test]
fn test_third_word_completes_stations() {
    let completer = IngestionCompleter;
    let suggestions = completer.complete("b d ", 4);
    assert_eq!(suggestions.len(), 12);
    let completer = IngestionCompleter;
    let filtered = completer.complete("b d BBC", 7);
    let values: Vec<String> = filtered.iter().map(|s| s.value.clone()).collect();
    assert_eq!(values, vec!["BBC1", "BBC2", "BBC3", "BBC-CAMBRIDGE"]);
    for s in &filtered {
        assert_eq!(s.span, Span { start: 4, end: 7 });
    }
}

#[test]
fn test_span_covers_partial_word() {
    let completer = IngestionCompleter;
    let suggestions = completer.complete("x 2023", 6);
    assert_eq!(
        suggestions,
        vec![Suggestion {
            value: "2023-07-13".to_string(),
            span: Span { start: 2, end: 6 },
            append_whitespace: true,
        }]
    );
}

#[test]
fn test_completion_ignores_text_after_cursor() {
    let completer = IngestionCompleter;
    let suggestions = completer.complete("provider trailing junk", 8);
    let values: Vec<String> = suggestions.iter().map(|s| s.value.clone()).collect();
    assert_eq!(values, vec!["am-ingestion-provider"]);
    assert_eq!(suggestions[0].span, Span { start: 0, end: 8 });
}

#[test]
fn test_contains_substr() {
    assert!(contains_substr("asdf", "df"));
    assert!(contains_substr("asdf", ""));
    assert!(contains_substr("asdf", "asdf"));
    assert!(!contains_substr("asdf", "asdfg"));
    assert!(!contains_substr("asdf", "fa"));
    assert!(!contains_substr("", "a"));
    assert!(contains_substr("", ""));
}

use rusty_gpt::loader::huggingface::{
    append_column_text, cache_dir, decide_response, exponential_backoff,
    load_text_from_uri_with_cache_dir, percent_decode, percent_encode, retry_after_delay,
    safe_cache_component, usable_cache, value_to_text, Cell, DatasetLoad, DatasetRow,
    HuggingFaceDatasetSpec, ResponseDecision, RetryPolicy, RowsPage,
};

#[test]
fn parse_ignores_local_paths() {
    assert_eq!(
        None,
        HuggingFaceDatasetSpec::parse("data/input.txt").unwrap()
    );
}

#[test]
fn parse_hf_uri_uses_defaults() {
    let spec = HuggingFaceDatasetSpec::parse("hf://Salesforce/wikitext")
        .unwrap()
        .unwrap();

    assert_eq!("Salesforce/wikitext", spec.dataset);
    assert_eq!("default", spec.config);
    assert_eq!("train", spec.split);
    assert_eq!("text", spec.column);
    assert_eq!(0, spec.offset);
    assert_eq!(1_000, spec.rows);
}

#[test]
fn parse_hf_uri_accepts_options() {
    let spec = HuggingFaceDatasetSpec::parse(
        "hf://allenai/c4?config=en&split=validation&column=content&offset=10&limit=25",
    )
    .unwrap()
    .unwrap();

    assert_eq!("allenai/c4", spec.dataset);
    assert_eq!("en", spec.config);
    assert_eq!("validation", spec.split);
    assert_eq!("content", spec.column);
    assert_eq!(10, spec.offset);
    assert_eq!(25, spec.rows);
}

#[test]
fn rows_url_encodes_dataset_query_values() {
    let spec = HuggingFaceDatasetSpec {
        dataset: "Salesforce/wikitext".to_string(),
        config: "wikitext-2-raw-v1".to_string(),
        split: "train".to_string(),
        column: "text".to_string(),
        offset: 0,
        rows: 10,
    };

    assert_eq!(
        "https://datasets-server.huggingface.co/rows?dataset=Salesforce%2Fwikitext&config=wikitext-2-raw-v1&split=train&offset=5&length=10",
        spec.rows_url(5, 10)
    );
}

#[test]
fn cache_path_changes_when_requested_rows_change() {
    let cache_dir = "/tmp/rusty-gpt-hf-cache-path";
    let mut first = HuggingFaceDatasetSpec::parse(
        "hf://Salesforce/wikitext?config=wikitext-2-raw-v1&rows=100",
    )
    .unwrap()
    .unwrap();
    let first_path = first.cache_path(cache_dir);

    first.rows = 200;

    assert_ne!(first_path, first.cache_path(cache_dir));
}

#[test]
fn page_cache_path_changes_by_offset_and_length() {
    let cache_dir = "/tmp/rusty-gpt-hf-page-cache-path";
    let spec = HuggingFaceDatasetSpec::parse(
        "hf://Salesforce/wikitext?config=wikitext-2-raw-v1&rows=1000",
    )
    .unwrap()
    .unwrap();

    let first_path = spec.page_cache_path(cache_dir, 0, 100);
    let second_path = spec.page_cache_path(cache_dir, 100, 100);
    let shorter_path = spec.page_cache_path(cache_dir, 0, 50);

    assert_ne!(first_path, second_path);
    assert_ne!(first_path, shorter_path);
}

#[test]
fn load_text_from_uri_reads_cache_before_fetching() {
    let uri = "hf://Salesforce/wikitext?config=wikitext-2-raw-v1&split=train&column=text&rows=7";
    let spec = HuggingFaceDatasetSpec::parse(uri).unwrap().unwrap();
    let plan = load_text_from_uri_with_cache_dir(uri, "/tmp/cache")
        .unwrap()
        .unwrap();

    assert_eq!(spec.cache_path("/tmp/cache"), plan.cache_path);
    assert_eq!(
        Some("cached dataset text".to_string()),
        usable_cache(Some("cached dataset text".to_string()))
    );
    assert_eq!(None, usable_cache(Some("  \n".to_string())));
    assert_eq!(None, usable_cache(None));
}

#[test]
fn append_column_text_concatenates_string_rows() {
    let rows = vec![row("text", "first"), row("text", "second")];
    let mut output = String::new();

    append_column_text(&mut output, &rows, "text").unwrap();

    assert_eq!("first\nsecond", output);
}

#[test]
fn append_column_text_reports_missing_column() {
    let rows = vec![row("body", "text")];
    let mut output = String::new();

    let err = append_column_text(&mut output, &rows, "text").unwrap_err();

    assert!(err.to_text().contains("did not include column 'text'"));
}

#[test]
fn retry_after_delay_reads_seconds_header() {
    assert_eq!(Some(3_000), retry_after_delay("3"));
}

#[test]
fn exponential_backoff_doubles_base_delay() {
    assert_eq!(4_000, exponential_backoff(1_000, 2));
}

fn row(column: &str, text: &str) -> DatasetRow {
    DatasetRow {
        cells: vec![(column.to_string(), Cell::Text(text.to_string()))],
    }
}

#[test]
fn decoding_what_was_encoded_gives_it_back() {
    for value in ["a b&c=d", "Salesforce/wikitext", "тест", "100%", ""] {
        assert_eq!(value, percent_decode(&percent_encode(value)));
    }
    assert_eq!("a%20b", percent_encode("a b"));
}

#[test]
fn decoding_leaves_broken_escapes_alone() {
    assert_eq!("%zz", percent_decode("%zz"));
    assert_eq!("%4", percent_decode("%4"));
    assert_eq!("a b", percent_decode("a+b"));
}

#[test]
fn decoding_bytes_that_are_no_text_marks_them() {
    assert_eq!("\u{fffd}", percent_decode("%ff"));
}

#[test]
fn cache_components_hold_no_slash() {
    assert_eq!("Salesforce-wikitext", safe_cache_component("Salesforce/wikitext"));
    assert_eq!("a-b.c_d", safe_cache_component("a-b.c_d"));
    assert_eq!("default", safe_cache_component(""));
    assert_eq!(64, safe_cache_component(&"x".repeat(100)).len());
}

#[test]
fn the_cache_directory_can_be_set() {
    assert_eq!("data/huggingface-cache", cache_dir(None));
    assert_eq!("/tmp/x", cache_dir(Some("/tmp/x")));
}

#[test]
fn cells_of_every_kind_have_their_text() {
    assert_eq!(None, value_to_text(&Cell::Null));
    assert_eq!(Some("x".to_string()), value_to_text(&Cell::Text("x".to_string())));
    assert_eq!(Some("true".to_string()), value_to_text(&Cell::Bool(true)));
    assert_eq!(Some("1.5".to_string()), value_to_text(&Cell::Number("1.5".to_string())));
    assert_eq!(Some("[1]".to_string()), value_to_text(&Cell::Nested("[1]".to_string())));
}

#[test]
fn a_dataset_is_asked_for_page_by_page() {
    let spec = HuggingFaceDatasetSpec::parse("hf://a/b?rows=150&offset=5")
        .unwrap()
        .unwrap();
    let mut load = DatasetLoad::begin(spec, "/tmp/cache");

    let first = load.next_request().unwrap();
    assert_eq!((5, 100), (first.offset, first.length));
    let page = RowsPage {
        rows: (0..100).map(|_| row("text", "x")).collect(),
        num_rows_total: Some(1000),
    };
    assert!(load.accept_page(&page).unwrap());

    let second = load.next_request().unwrap();
    assert_eq!((105, 50), (second.offset, second.length));
    let page = RowsPage {
        rows: (0..50).map(|_| row("text", "y")).collect(),
        num_rows_total: Some(1000),
    };
    load.accept_page(&page).unwrap();

    assert!(load.next_request().is_none());
    let text = load.finish().unwrap();
    assert_eq!(150, text.lines().count());
    assert!(text.starts_with("x\n"));
    assert!(text.ends_with("y"));
}

#[test]
fn a_dataset_without_text_is_refused() {
    let spec = HuggingFaceDatasetSpec::parse("hf://a/b?rows=1").unwrap().unwrap();
    let mut load = DatasetLoad::begin(spec, "/tmp/cache");
    let page = RowsPage {
        rows: Vec::new(),
        num_rows_total: None,
    };

    assert!(!load.accept_page(&page).unwrap());
    assert!(load.finish().is_err());
}

#[test]
fn bad_dataset_options_are_refused() {
    assert!(HuggingFaceDatasetSpec::parse("hf://a/b?rows=0").is_err());
    assert!(HuggingFaceDatasetSpec::parse("hf://a/b?rows=x").is_err());
    assert!(HuggingFaceDatasetSpec::parse("hf://a/b?unknown=1").is_err());
    assert!(HuggingFaceDatasetSpec::parse("hf://").is_err());
}

#[test]
fn retries_follow_the_policy() {
    let policy = RetryPolicy::from_env(Some("2"), Some("10"));
    assert_eq!(2, policy.max_retries);
    let again = decide_response("u", 503, "503 Service Unavailable", None, "busy", policy, 1);
    assert!(matches!(again, ResponseDecision::RetryAfter { delay_ms: 20 }));
    let told = decide_response("u", 429, "429 Too Many Requests", Some("7"), "", policy, 0);
    assert!(matches!(told, ResponseDecision::RetryAfter { delay_ms: 7_000 }));
    let spent = decide_response("u", 503, "503 Service Unavailable", None, "busy", policy, 2);
    match spent {
        ResponseDecision::Fail(e) => assert_eq!(
            "Hugging Face dataset rows request failed for u: HTTP 503 Service Unavailable; response body: busy",
            e.to_text()
        ),
        other => panic!("expected a failure, got {other:?}"),
    }
    let fine = decide_response("u", 200, "200 OK", None, "", policy, 0);
    assert!(matches!(fine, ResponseDecision::Accept));
    let refused = decide_response("u", 404, "404 Not Found", None, "gone", policy, 0);
    assert!(matches!(refused, ResponseDecision::Fail(_)));
}

#[test]
fn unreadable_retry_settings_fall_back() {
    let policy = RetryPolicy::from_env(Some("many"), None);
    assert_eq!(6, policy.max_retries);
    assert_eq!(1_000, exponential_backoff(policy.base_delay_ms, 0));
}

#[test]
fn an_unreadable_parameter_says_what_it_comes_of() {
    let err = HuggingFaceDatasetSpec::parse("hf://org/data?rows=many").unwrap_err();
    assert_eq!(
        "invalid Hugging Face dataset URI parameter 'rows=many'",
        err.to_text()
    );
    assert_eq!(Some("invalid digit found in string".to_string()), err.cause);

    let err = HuggingFaceDatasetSpec::parse("hf://org/data?rows=0").unwrap_err();
    assert_eq!(None, err.cause);
}

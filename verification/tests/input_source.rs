use rusty_gpt::loader::input_source::{
    InputSource, InputSourceError, LocalMetadata, DEFAULT_MAX_LOCAL_INPUT_BYTES,
};

#[test]
fn parses_local_relative_path() {
    let parsed = InputSource::parse("data/input.txt").unwrap();
    assert_eq!(InputSource::Local("data/input.txt".to_string()), parsed);
}

#[test]
fn parses_local_absolute_path() {
    let parsed = InputSource::parse("/tmp/corpus.txt").unwrap();
    assert_eq!(InputSource::Local("/tmp/corpus.txt".to_string()), parsed);
}

#[test]
fn parses_hf_uri_without_revision() {
    let parsed = InputSource::parse("hf://Salesforce/wikitext").unwrap();
    assert_eq!(
        InputSource::HuggingFace {
            org: "Salesforce".to_string(),
            dataset: "wikitext".to_string(),
            revision: None,
            query: None,
        },
        parsed
    );
}

#[test]
fn parses_hf_uri_with_revision() {
    let parsed = InputSource::parse("hf://allenai/c4@v1.0.0").unwrap();
    assert_eq!(
        InputSource::HuggingFace {
            org: "allenai".to_string(),
            dataset: "c4".to_string(),
            revision: Some("v1.0.0".to_string()),
            query: None,
        },
        parsed
    );
}

#[test]
fn rejects_empty_input() {
    assert_eq!(Err(InputSourceError::Empty), InputSource::parse(""));
}

#[test]
fn rejects_http_scheme() {
    let err = InputSource::parse("http://example.com/foo").unwrap_err();
    assert_eq!(
        InputSourceError::UnsupportedScheme {
            scheme: "http".to_string()
        },
        err
    );
}

#[test]
fn rejects_https_scheme() {
    let err = InputSource::parse("https://example.com/foo").unwrap_err();
    assert_eq!(
        InputSourceError::UnsupportedScheme {
            scheme: "https".to_string()
        },
        err
    );
}

#[test]
fn rejects_file_scheme() {
    let err = InputSource::parse("file:///etc/passwd").unwrap_err();
    assert_eq!(
        InputSourceError::UnsupportedScheme {
            scheme: "file".to_string()
        },
        err
    );
}

#[test]
fn rejects_ssh_scheme() {
    let err = InputSource::parse("ssh://git@example.com/repo").unwrap_err();
    assert_eq!(
        InputSourceError::UnsupportedScheme {
            scheme: "ssh".to_string()
        },
        err
    );
}

#[test]
fn rejects_ftp_scheme() {
    let err = InputSource::parse("ftp://example.com/foo").unwrap_err();
    assert_eq!(
        InputSourceError::UnsupportedScheme {
            scheme: "ftp".to_string()
        },
        err
    );
}

#[test]
fn rejects_hf_uri_with_traversal_segment() {
    let err = InputSource::parse("hf://org/../dataset").unwrap_err();
    assert!(
        matches!(err, InputSourceError::MalformedHuggingFaceUri { .. }),
        "expected MalformedHuggingFaceUri (too many '/'), got {err:?}"
    );

    let err = InputSource::parse("hf://../dataset").unwrap_err();
    assert_eq!(
        InputSourceError::HuggingFaceTraversalSegment {
            component: "org",
            value: "..".to_string(),
        },
        err
    );

    let err = InputSource::parse("hf://org/..").unwrap_err();
    assert_eq!(
        InputSourceError::HuggingFaceTraversalSegment {
            component: "dataset",
            value: "..".to_string(),
        },
        err
    );
}

#[test]
fn rejects_hf_uri_with_non_ascii_org() {
    // Cyrillic "тест".
    let err = InputSource::parse("hf://тест/dataset").unwrap_err();
    assert!(
        matches!(
            err,
            InputSourceError::DisallowedHuggingFaceCharacters {
                component: "org",
                ..
            }
        ),
        "expected DisallowedHuggingFaceCharacters(org), got {err:?}"
    );
}

#[test]
fn rejects_hf_uri_with_non_ascii_dataset() {
    let err = InputSource::parse("hf://org/тест").unwrap_err();
    assert!(
        matches!(
            err,
            InputSourceError::DisallowedHuggingFaceCharacters {
                component: "dataset",
                ..
            }
        ),
        "expected DisallowedHuggingFaceCharacters(dataset), got {err:?}"
    );
}

#[test]
fn rejects_hf_uri_with_missing_dataset() {
    let err = InputSource::parse("hf://org").unwrap_err();
    assert!(matches!(
        err,
        InputSourceError::MalformedHuggingFaceUri { .. }
    ));

    let err = InputSource::parse("hf://org/").unwrap_err();
    assert!(matches!(
        err,
        InputSourceError::MalformedHuggingFaceUri { .. }
    ));
}

#[test]
fn rejects_hf_uri_with_empty_revision() {
    let err = InputSource::parse("hf://org/dataset@").unwrap_err();
    assert!(matches!(
        err,
        InputSourceError::MalformedHuggingFaceUri { .. }
    ));
}

#[test]
fn rejects_hf_uri_with_extra_path_segment() {
    // Reject things like `hf://org/dataset/extra` that the legacy loader
    // would have happily passed through as a dataset id of
    // `org/dataset/extra`.
    let err = InputSource::parse("hf://org/dataset/extra").unwrap_err();
    assert!(matches!(
        err,
        InputSourceError::MalformedHuggingFaceUri { .. }
    ));
}

#[test]
fn accepts_hf_uri_with_allowlisted_query_parameters() {
    let parsed = InputSource::parse(
        "hf://Shuu12121/rust-treesitter-dedupe-filtered-datasetsV2?split=train&column=code&rows=50000",
    )
    .unwrap();
    assert_eq!(
        InputSource::HuggingFace {
            org: "Shuu12121".to_string(),
            dataset: "rust-treesitter-dedupe-filtered-datasetsV2".to_string(),
            revision: None,
            query: Some("split=train&column=code&rows=50000".to_string()),
        },
        parsed
    );

    // Revision + query together.
    let parsed = InputSource::parse("hf://allenai/c4@v1.0.0?config=en&split=train").unwrap();
    assert_eq!(
        InputSource::HuggingFace {
            org: "allenai".to_string(),
            dataset: "c4".to_string(),
            revision: Some("v1.0.0".to_string()),
            query: Some("config=en&split=train".to_string()),
        },
        parsed
    );
}

#[test]
fn rejects_hf_uri_with_unknown_query_key() {
    let err = InputSource::parse("hf://org/dataset?config=en&shell_exec=cat%20/etc/passwd")
        .unwrap_err();
    assert_eq!(
        InputSourceError::DisallowedHuggingFaceQueryKey {
            key: "shell_exec".to_string()
        },
        err
    );
}

#[test]
fn rejects_hf_uri_with_disallowed_query_value() {
    // Spaces, %-encoding, slashes are not in [A-Za-z0-9._-].
    let err = InputSource::parse("hf://org/dataset?config=en glish").unwrap_err();
    assert!(
        matches!(
            &err,
            InputSourceError::DisallowedHuggingFaceQueryValue { key, .. } if key == "config"
        ),
        "expected DisallowedHuggingFaceQueryValue(config), got {err:?}"
    );

    let err = InputSource::parse("hf://org/dataset?split=..").unwrap_err();
    assert!(
        matches!(
            &err,
            InputSourceError::DisallowedHuggingFaceQueryValue { key, reason, .. }
                if key == "split" && reason.contains("traversal")
        ),
        "expected traversal rejection, got {err:?}"
    );
}

#[test]
fn rejects_malformed_query_string() {
    let err = InputSource::parse("hf://org/dataset?").unwrap_err();
    assert!(
        matches!(err, InputSourceError::MalformedHuggingFaceQuery { .. }),
        "expected MalformedHuggingFaceQuery, got {err:?}"
    );

    let err = InputSource::parse("hf://org/dataset?config").unwrap_err();
    assert!(
        matches!(&err, InputSourceError::MalformedHuggingFaceQuery { reason, .. }
            if reason.contains("missing '='")),
        "expected missing-'=' rejection, got {err:?}"
    );

    let err = InputSource::parse("hf://org/dataset?config=en&&split=train").unwrap_err();
    assert!(
        matches!(&err, InputSourceError::MalformedHuggingFaceQuery { reason, .. }
            if reason.contains("empty parameter")),
        "expected empty-parameter rejection, got {err:?}"
    );
}

#[test]
fn rejects_local_file_exceeding_max_size() {
    let parsed = InputSource::parse("/tmp/rusty-gpt-input-source-too-large/corpus.txt").unwrap();
    let metadata = LocalMetadata::File { size_bytes: 19 };
    let err = parsed.validate_local_size(8, &metadata).unwrap_err();

    assert!(
        matches!(
            err,
            InputSourceError::LocalFileTooLarge {
                size_bytes: 19,
                max_bytes: 8,
                ..
            }
        ),
        "expected LocalFileTooLarge(19, 8), got {err:?}"
    );

    // Boundary check: equal to the max is allowed.
    parsed.validate_local_size(19, &metadata).unwrap();
    parsed.validate_local_size(1024, &metadata).unwrap();
}

#[test]
fn validate_local_size_is_noop_for_hf_uri() {
    let parsed = InputSource::parse("hf://org/dataset").unwrap();
    parsed
        .validate_local_size(1, &LocalMetadata::File { size_bytes: 2 })
        .unwrap();
}

#[test]
fn validate_local_size_reports_missing_file() {
    let parsed = InputSource::parse("/nonexistent/rusty-gpt-input-source-missing.txt").unwrap();
    let err = parsed
        .validate_local_size(
            DEFAULT_MAX_LOCAL_INPUT_BYTES,
            &LocalMetadata::Unreadable {
                source: "No such file or directory (os error 2)".to_string(),
            },
        )
        .unwrap_err();
    assert!(
        matches!(err, InputSourceError::LocalMetadataUnreadable { .. }),
        "expected LocalMetadataUnreadable, got {err:?}"
    );
}

#[test]
fn display_round_trips_each_variant() {
    assert_eq!(
        "data/input.txt",
        InputSource::parse("data/input.txt").unwrap().display()
    );
    assert_eq!(
        "hf://org/dataset",
        InputSource::parse("hf://org/dataset").unwrap().display()
    );
    assert_eq!(
        "hf://org/dataset@v1",
        InputSource::parse("hf://org/dataset@v1").unwrap().display()
    );
    assert_eq!(
        "hf://org/dataset?config=en&split=train&rows=100",
        InputSource::parse("hf://org/dataset?config=en&split=train&rows=100")
            .unwrap()
            .display()
    );
    assert_eq!(
        "hf://org/dataset@v1?config=en",
        InputSource::parse("hf://org/dataset@v1?config=en")
            .unwrap()
            .display()
    );
}

#[test]
fn schemeless_path_with_colon_is_accepted() {
    // Windows-style drive letter / paths with colons should not be
    // mistaken for an unknown URI scheme — only `scheme://` triggers
    // rejection.
    let parsed = InputSource::parse("C:/data/input.txt").unwrap();
    assert!(matches!(parsed, InputSource::Local(_)));
}

fn message(raw: &str) -> String {
    InputSource::parse(raw).unwrap_err().to_text()
}

#[test]
fn refusals_say_what_is_wrong() {
    assert_eq!(
        "--input must be a local path or hf://<org>/<dataset>[@<revision>]",
        message("")
    );
    assert_eq!(
        "unsupported input URI scheme 'ftp'; --input must be a local path or hf://<org>/<dataset>[@<revision>]",
        message("ftp://example.com/foo")
    );
    assert!(message("hf://org/a b").contains("a b"));
    assert!(message("hf://org/dataset?x=1").contains('x'));
}

#[test]
fn a_directory_is_no_input_file() {
    let parsed = InputSource::parse("data").unwrap();
    let err = parsed
        .validate_local_size(1024, &LocalMetadata::NotAFile)
        .unwrap_err();
    assert_eq!("local input path data is not a regular file", err.to_text());
}

#[test]
fn size_refusals_name_both_sizes() {
    let parsed = InputSource::parse("corpus.txt").unwrap();
    let err = parsed
        .validate_local_size(8, &LocalMetadata::File { size_bytes: 19 })
        .unwrap_err();
    assert_eq!(
        "local input file corpus.txt is 19 bytes which exceeds the configured maximum of 8 bytes",
        err.to_text()
    );
}

#[test]
fn unreadable_metadata_is_told_with_its_cause() {
    let parsed = InputSource::parse("corpus.txt").unwrap();
    let err = parsed
        .validate_local_size(
            8,
            &LocalMetadata::Unreadable {
                source: "denied".to_string(),
            },
        )
        .unwrap_err();
    assert_eq!(
        "failed to read metadata for local input corpus.txt: denied",
        err.to_text()
    );
}

#[test]
fn only_local_sources_have_a_path() {
    assert_eq!(
        Some("data/input.txt"),
        InputSource::parse("data/input.txt").unwrap().local_path()
    );
    assert_eq!(
        None,
        InputSource::parse("hf://org/dataset").unwrap().local_path()
    );
}

#[test]
fn what_is_displayed_parses_to_the_same_source() {
    for raw in ["data/input.txt", "hf://o/d", "hf://o/d@r", "hf://o/d@r?rows=3&split=train"] {
        let source = InputSource::parse(raw).unwrap();
        assert_eq!(source, InputSource::parse(&source.display()).unwrap());
    }
}

use rusty_gpt::model::persistence::{
    admit_checkpoint, admit_checkpoint_leniently, checkpoint_compatibility_report, metadata_path,
    report_for_digest, sha256_file_hex, validate_checkpoint_compatibility,
    validate_checkpoint_compatibility_strict, CheckpointCompatibilityReport, CheckpointMetadata,
    CheckpointModelShape, CheckpointTokenizer, CheckpointTrainingMetrics, CheckpointTrainingRun,
};
use rusty_gpt::reals::{Real, ShortReal};

fn wide(value: f64) -> Real {
    Real {
        bits: value.to_bits(),
    }
}

fn narrow(value: f32) -> ShortReal {
    ShortReal {
        bits: value.to_bits(),
    }
}

const SHAPE: CheckpointModelShape = CheckpointModelShape {
    vocab_size: 7,
    block_size: 4,
    embed_dim: 8,
    num_heads: 2,
    num_layers: 1,
};

fn compatible_test_metadata(
    vocab_size: usize,
    tokenizer_sha256: Option<String>,
) -> CheckpointMetadata {
    CheckpointMetadata {
        version: 1,
        created_at_utc: "2026-05-14T00:00:00Z".to_string(),
        git_commit: None,
        input_source: "test".to_string(),
        model_shape: CheckpointModelShape {
            vocab_size,
            block_size: 4,
            embed_dim: 8,
            num_heads: 2,
            num_layers: 1,
        },
        tokenizer: CheckpointTokenizer {
            path: "tokenizer.json".to_string(),
            sha256: tokenizer_sha256,
            vocab_size,
        },
        training: CheckpointTrainingRun {
            backend: "cpu".to_string(),
            train_tokens: 10,
            value_tokens: 2,
            batch_size: 1,
            learning_rate: wide(1e-4),
            train_steps: 1,
            eval_interval: 0,
            grad_clip_norm: narrow(1.0),
            prefetch_batches: 0,
        },
        final_metrics: CheckpointTrainingMetrics {
            final_value_loss: wide(1.0),
            final_perplexity: wide(2.71),
        },
        interrupted: false,
        interrupted_at_step: None,
        step: None,
        interval: None,
        completed_steps: 0,
    }
}

#[test]
fn metadata_validation_rejects_shape_mismatch() {
    let metadata = compatible_test_metadata(8, None);

    let err = admit_checkpoint_leniently(&Some(metadata), &SHAPE, None)
        .expect_err("shape mismatch should fail");

    let message = err.to_text();
    assert!(message.contains("checkpoint metadata compatibility failed"));
    assert!(message.contains("model_shape.vocab_size expected 7, found 8"));
    assert!(message.contains("tokenizer.vocab_size expected 7, found 8"));
}

#[test]
fn strict_metadata_validation_rejects_missing_sidecar_before_raw_load() {
    let path = "/tmp/rusty-gpt-strict-missing-metadata";

    let err = admit_checkpoint(
        path,
        &None,
        &SHAPE,
        "/tmp/rusty-gpt-strict-missing-metadata.tokenizer.json",
        &None,
    )
    .expect_err("strict runtime loads should reject checkpoints without metadata");

    let message = err.to_text();
    assert!(message.contains("missing metadata sidecar"));
    assert!(message.contains(&metadata_path(path)));
    assert!(message.contains("before Burn model deserialization"));
}

#[test]
fn strict_metadata_validation_rejects_missing_tokenizer_hash() {
    let checkpoint_path = "/tmp/rusty-gpt-strict-missing-tokenizer-sha";
    let tokenizer_path = "/tmp/rusty-gpt-strict-missing-tokenizer-sha.tokenizer.json";
    let tokenizer_file = Some(br#"{"tokenizer":"current"}"#.to_vec());
    let metadata = compatible_test_metadata(7, None);

    let err = validate_checkpoint_compatibility_strict(
        checkpoint_path,
        &metadata,
        &SHAPE,
        tokenizer_path,
        &tokenizer_file,
    )
    .expect_err("strict runtime loads should require tokenizer sha256 metadata");

    let message = err.to_text();
    assert!(message.contains("strict checkpoint metadata validation failed"));
    assert!(message.contains("/tmp/rusty-gpt-strict-missing-tokenizer-sha.mpk"));
    assert!(message.contains(tokenizer_path));
    assert!(message.contains("tokenizer.sha256 expected sha256 recorded"));
    assert!(message.contains("found missing"));
}

#[test]
fn strict_metadata_validation_reports_tokenizer_hash_mismatch_with_context() {
    let checkpoint_path = "/tmp/rusty-gpt-strict-tokenizer-sha-mismatch";
    let tokenizer_path = "/tmp/rusty-gpt-strict-tokenizer-sha-mismatch.tokenizer.json";
    let saved = Some(br#"{"tokenizer":"saved"}"#.to_vec());
    let metadata = compatible_test_metadata(7, sha256_file_hex(&saved));
    let runtime = Some(br#"{"tokenizer":"runtime"}"#.to_vec());

    let err = validate_checkpoint_compatibility_strict(
        checkpoint_path,
        &metadata,
        &SHAPE,
        tokenizer_path,
        &runtime,
    )
    .expect_err("strict runtime loads should reject tokenizer sha256 mismatches");

    let message = err.to_text();
    assert!(message.contains("strict checkpoint metadata validation failed"));
    assert!(message.contains("/tmp/rusty-gpt-strict-tokenizer-sha-mismatch.mpk"));
    assert!(message.contains(tokenizer_path));
    assert!(message.contains("tokenizer.sha256"));
}

#[test]
fn compatibility_report_validates_tokenizer_hash_when_path_is_provided() {
    let old = Some(br#"{"tokenizer":"old"}"#.to_vec());
    let metadata = compatible_test_metadata(7, sha256_file_hex(&old));
    let new = Some(br#"{"tokenizer":"new"}"#.to_vec());

    let report = checkpoint_compatibility_report(&metadata, &SHAPE, Some(&new));

    assert!(!report.compatible);
    assert_eq!(1, report.issues.len());
    assert_eq!("tokenizer.sha256", report.issues[0].field);
    assert_ne!(report.issues[0].expected, report.issues[0].found);
}

#[test]
fn compatibility_report_accepts_matching_metadata() {
    let metadata = compatible_test_metadata(7, None);

    let report = checkpoint_compatibility_report(&metadata, &SHAPE, None);

    assert!(report.compatible);
    assert!(report.issues.is_empty());
    assert_eq!("checkpoint metadata is compatible", report.to_text());
}

#[test]
fn every_difference_is_reported_in_order() {
    let metadata = compatible_test_metadata(7, None);
    let other = CheckpointModelShape {
        vocab_size: 7,
        block_size: 5,
        embed_dim: 9,
        num_heads: 3,
        num_layers: 2,
    };

    let err = validate_checkpoint_compatibility(&metadata, &other, None).unwrap_err();

    assert_eq!(
        "checkpoint metadata compatibility failed; model_shape.block_size expected 5, found 4; \
         model_shape.embed_dim expected 9, found 8; model_shape.num_heads expected 3, found 2; \
         model_shape.num_layers expected 2, found 1",
        err.to_text()
    );
}

#[test]
fn a_given_digest_is_compared_as_it_is() {
    let metadata = compatible_test_metadata(7, Some("aa".to_string()));

    assert!(report_for_digest(&metadata, &SHAPE, Some("aa")).compatible);
    assert!(report_for_digest(&metadata, &SHAPE, None).compatible);
    let report = report_for_digest(&metadata, &SHAPE, Some("bb"));
    assert_eq!(
        "checkpoint metadata compatibility failed; tokenizer.sha256 expected aa, found bb",
        report.to_text()
    );
}

#[test]
fn a_missing_tokenizer_file_differs_from_every_recorded_digest() {
    let file = Some(b"abc".to_vec());
    let metadata = compatible_test_metadata(7, sha256_file_hex(&file));

    let report = checkpoint_compatibility_report(&metadata, &SHAPE, Some(&None));

    assert_eq!(1, report.issues.len());
    assert_eq!("missing file", report.issues[0].found);
    assert!(checkpoint_compatibility_report(&metadata, &SHAPE, Some(&file)).compatible);
}

#[test]
fn a_lenient_load_goes_on_without_a_sidecar() {
    assert!(admit_checkpoint_leniently(&None, &SHAPE, None).is_ok());
}

#[test]
fn a_strict_load_takes_a_matching_checkpoint() {
    let file = Some(b"abc".to_vec());
    let metadata = compatible_test_metadata(7, sha256_file_hex(&file));

    assert!(admit_checkpoint("m", &Some(metadata), &SHAPE, "t.json", &file).is_ok());
}

#[test]
fn a_report_without_issues_is_compatible() {
    assert!(CheckpointCompatibilityReport::new(Vec::new()).compatible);
}

use rusty_gpt::model::persistence::sha256_file_hex;
use rusty_gpt::observability::RuntimeEvent;
use rusty_gpt::reals::{Real, ShortReal};
use rusty_gpt::server::{
    accepted_event, admit_request, attention_data, check_request, completed_event, context_window,
    generate_response, generated_text, health, info, rejected_event, routing_data, AdmittedRequest, BucketUpdate,
    CheckpointSource, GenerateError, GenerateErrorBody, GenerateRequest, LayerAttention,
    LayerRouting, PeerAddress, RateDecision, RateLimiter, RequestsLeft, ServedKind, ServedShape, ServerLimits,
    ServerProvenance, TokenBucket,
};
use rusty_gpt::tokenizer::RuntimeTokenizer;

const SECOND: u128 = 1_000_000_000;
const HOME: PeerAddress = PeerAddress::V4(0x7f00_0001);
const NEIGHBOUR: PeerAddress = PeerAddress::V4(0x7f00_0002);

fn wide(value: f64) -> Real {
    Real {
        bits: value.to_bits(),
    }
}

fn narrow(value: f32) -> ShortReal {
    ShortReal {
        bits: value.to_bits(),
    }
}

fn minigpt(
    vocab_size: usize,
    d_model: usize,
    num_layers: usize,
    block_size: usize,
    num_heads: usize,
) -> ServedShape {
    ServedShape {
        kind: ServedKind::MiniGpt,
        vocab_size,
        block_size,
        num_layers,
        num_heads,
        d_model,
    }
}

fn letters() -> RuntimeTokenizer {
    RuntimeTokenizer::char_from_text("abcdefg")
}

/// The bucket of a peer after the time until `now_ns`.
fn refill(bucket: Option<TokenBucket>, limits: &ServerLimits, now_ns: u128) -> BucketUpdate {
    let rate = limits.rate_limit_rps as f64;
    let burst = limits.rate_limit_burst as f64;
    let refilled = match bucket {
        Some(TokenBucket {
            tokens: Some(tokens),
            updated_at_ns,
        }) => {
            let seconds = (now_ns - updated_at_ns) as f64 / SECOND as f64;
            let tokens = match tokens {
                RequestsLeft::Whole(count) => count as f64,
                RequestsLeft::Part(tokens) => f64::from_bits(tokens.bits),
            };
            (tokens + seconds * rate).min(burst)
        }
        _ => burst,
    };
    BucketUpdate {
        refilled: wide(refilled),
        spent: wide(refilled - 1.0),
        retry_after_seconds: ((1.0 - refilled) / rate).ceil().max(1.0) as u64,
    }
}

fn acquire(
    limiter: &mut RateLimiter,
    peer: PeerAddress,
    limits: &ServerLimits,
    now_ns: u128,
) -> RateDecision {
    let update = refill(limiter.current(peer, limits, now_ns), limits, now_ns);
    limiter.try_acquire(peer, limits, now_ns, &update)
}

fn ask(
    limiter: &mut RateLimiter,
    limits: &ServerLimits,
    prompt: &str,
    max_tokens: usize,
) -> Result<AdmittedRequest, GenerateError> {
    let update = refill(limiter.current(HOME, limits, 0), limits, 0);
    admit_request(
        limiter,
        &request(prompt, max_tokens),
        limits,
        false,
        &letters(),
        HOME,
        0,
        &update,
    )
}

fn request(prompt: &str, max_tokens: usize) -> GenerateRequest {
    GenerateRequest {
        prompt: prompt.to_string(),
        max_tokens,
        temperature: narrow(1.0),
        top_k: None,
    }
}

#[test]
fn checkpoint_source_serializes_to_spec_strings() {
    assert_eq!("none", CheckpointSource::Fresh.as_str());
    assert_eq!("explicit", CheckpointSource::Explicit.as_str());
    assert_eq!("latest", CheckpointSource::Latest.as_str());
}

// ---------------------------------------------------------------------------------------
// The rate limiter
// ---------------------------------------------------------------------------------------

#[test]
fn rate_limiter_tracks_peer_ips_independently() {
    let limits = ServerLimits {
        rate_limit_rps: 1,
        rate_limit_burst: 1,
        ..ServerLimits::default()
    };
    let mut limiter = RateLimiter::new();

    assert_eq!(RateDecision::Allowed, acquire(&mut limiter, HOME, &limits, 0));
    assert_eq!(
        RateDecision::Limited {
            retry_after_seconds: 1
        },
        acquire(&mut limiter, HOME, &limits, 0)
    );
    assert_eq!(
        RateDecision::Allowed,
        acquire(&mut limiter, NEIGHBOUR, &limits, 0)
    );
}

#[test]
fn a_bucket_fills_up_again() {
    let limits = ServerLimits {
        rate_limit_rps: 2,
        rate_limit_burst: 1,
        ..ServerLimits::default()
    };
    let mut limiter = RateLimiter::new();

    assert_eq!(RateDecision::Allowed, acquire(&mut limiter, HOME, &limits, 0));
    assert_eq!(
        RateDecision::Limited {
            retry_after_seconds: 1
        },
        acquire(&mut limiter, HOME, &limits, SECOND / 4)
    );
    assert_eq!(
        RateDecision::Allowed,
        acquire(&mut limiter, HOME, &limits, SECOND)
    );
    assert_eq!(
        Some(TokenBucket {
            tokens: Some(RequestsLeft::Part(wide(0.0))),
            updated_at_ns: SECOND
        }),
        limiter.current(HOME, &limits, 2 * SECOND)
    );
}

#[test]
fn a_rate_of_zero_limits_nothing() {
    let limits = ServerLimits {
        rate_limit_rps: 0,
        ..ServerLimits::default()
    };
    let mut limiter = RateLimiter::new();
    let never = BucketUpdate {
        refilled: wide(0.0),
        spent: wide(-1.0),
        retry_after_seconds: 9,
    };

    assert_eq!(None, limiter.current(HOME, &limits, 0));
    for _ in 0..50 {
        assert_eq!(
            RateDecision::Allowed,
            limiter.try_acquire(PeerAddress::V6(1), &limits, 0, &never)
        );
    }
}

// ---------------------------------------------------------------------------------------
// Admission
// ---------------------------------------------------------------------------------------

#[test]
fn generate_rejects_prompt_one_byte_over_configured_limit() {
    let limits = ServerLimits {
        max_prompt_bytes: 2,
        rate_limit_rps: 0,
        ..ServerLimits::default()
    };
    let err = ask(&mut RateLimiter::new(), &limits, "abc", 1).unwrap_err();

    assert_eq!(400, err.status());
    assert_eq!(
        GenerateErrorBody::PromptTooLarge {
            max_bytes: 2,
            actual_bytes: 3
        },
        err.body()
    );
}

#[test]
fn generate_accepts_prompt_exactly_at_configured_limit() {
    let limits = ServerLimits {
        max_prompt_bytes: 2,
        max_output_tokens: 1,
        rate_limit_rps: 0,
        ..ServerLimits::default()
    };
    let admitted = ask(&mut RateLimiter::new(), &limits, "ab", 1).unwrap();

    assert_eq!(vec![0, 1], admitted.prompt_tokens);
    assert_eq!(narrow(1.0), admitted.options.temperature);
}

#[test]
fn generate_rejects_max_tokens_above_configured_limit() {
    let limits = ServerLimits {
        max_output_tokens: 1,
        rate_limit_rps: 0,
        ..ServerLimits::default()
    };
    let err = ask(&mut RateLimiter::new(), &limits, "ab", 2).unwrap_err();

    assert_eq!(400, err.status());
    assert_eq!(
        GenerateErrorBody::MaxTokensOutOfRange {
            max_allowed: 1,
            requested: 2
        },
        err.body()
    );
}

#[test]
fn generate_rejects_zero_max_tokens_with_structured_error() {
    let limits = ServerLimits {
        max_output_tokens: 1,
        rate_limit_rps: 0,
        ..ServerLimits::default()
    };
    let err = ask(&mut RateLimiter::new(), &limits, "ab", 0).unwrap_err();

    assert_eq!(400, err.status());
    assert_eq!(
        GenerateErrorBody::MaxTokensOutOfRange {
            max_allowed: 1,
            requested: 0
        },
        err.body()
    );
}

#[test]
fn generate_accepts_max_tokens_exactly_at_configured_limit() {
    let limits = ServerLimits {
        max_prompt_bytes: 8,
        max_output_tokens: 1,
        rate_limit_rps: 0,
        ..ServerLimits::default()
    };

    assert!(ask(&mut RateLimiter::new(), &limits, "ab", 1).is_ok());
}

#[test]
fn invalid_cap_requests_do_not_consume_rate_limit_tokens() {
    let limits = ServerLimits {
        max_output_tokens: 1,
        rate_limit_rps: 1,
        rate_limit_burst: 1,
        ..ServerLimits::default()
    };
    let mut limiter = RateLimiter::new();

    for _ in 0..3 {
        let err = ask(&mut limiter, &limits, "ab", 2).unwrap_err();
        assert_eq!(400, err.status());
    }

    assert!(ask(&mut limiter, &limits, "ab", 1).is_ok());
}

#[test]
fn tokenizer_rejected_requests_do_not_consume_rate_limit_tokens() {
    let limits = ServerLimits {
        max_output_tokens: 1,
        rate_limit_rps: 1,
        rate_limit_burst: 1,
        ..ServerLimits::default()
    };
    let mut limiter = RateLimiter::new();

    let err = ask(&mut limiter, &limits, "z", 1).unwrap_err();
    assert_eq!(400, err.status());
    assert_eq!("unknown character: 'z'", err.reason());

    assert!(ask(&mut limiter, &limits, "ab", 1).is_ok());
}

#[test]
fn rate_limit_allows_burst_then_returns_retry_after() {
    let limits = ServerLimits {
        max_output_tokens: 1,
        rate_limit_rps: 1,
        rate_limit_burst: 2,
        ..ServerLimits::default()
    };
    let mut limiter = RateLimiter::new();
    let mut statuses = Vec::new();
    let mut retry_after = None;

    for _ in 0..4 {
        match ask(&mut limiter, &limits, "ab", 1) {
            Ok(_) => statuses.push(200),
            Err(err) => {
                assert_eq!(
                    GenerateErrorBody::RateLimited {
                        retry_after_seconds: 1
                    },
                    err.body()
                );
                retry_after = err.retry_after();
                statuses.push(err.status());
            }
        }
    }

    assert_eq!(vec![200, 200, 429, 429], statuses);
    assert_eq!(Some(1), retry_after);
}

#[test]
fn generate_route_rejects_request_body_over_prompt_limit_plus_headroom() {
    let limits = ServerLimits {
        max_prompt_bytes: 1,
        rate_limit_rps: 0,
        ..ServerLimits::default()
    };
    let largest = ServerLimits {
        max_prompt_bytes: usize::MAX,
        ..ServerLimits::default()
    };

    assert_eq!(4097, limits.max_request_body_bytes());
    assert_eq!(usize::MAX, largest.max_request_body_bytes());
}

#[test]
fn generate_rejects_zero_top_k() {
    let asked = GenerateRequest {
        top_k: Some(0),
        ..request("ab", 1)
    };
    let err = check_request(&asked, &ServerLimits::default(), false)
        .expect_err("zero top_k should be rejected");

    assert_eq!(400, err.status());
    assert_eq!("top_k must be greater than zero", err.reason());
}

#[test]
fn every_refusal_has_its_status_and_reason() {
    let limits = ServerLimits::default();
    let empty = check_request(&request("", 1), &limits, false).unwrap_err();
    assert_eq!((400, "prompt must not be empty"), (empty.status(), &empty.reason()[..]));

    let cold = GenerateRequest {
        temperature: narrow(0.0),
        ..request("ab", 1)
    };
    let cold = check_request(&cold, &limits, false).unwrap_err();
    assert_eq!("temperature must be greater than zero", cold.reason());

    let busy = check_request(&request("ab", 1), &limits, true).unwrap_err();
    assert_eq!(503, busy.status());
    assert_eq!(
        GenerateErrorBody::TrainingInProgress {
            retry_after_seconds: 30
        },
        busy.body()
    );
    assert_eq!(Some(30), busy.retry_after());

    let fault = GenerateError::Internal("broken".to_string());
    assert_eq!(500, fault.status());
    assert_eq!(None, fault.retry_after());
    assert_eq!(
        GenerateErrorBody::Internal {
            message: "broken".to_string()
        },
        fault.body()
    );
}

// ---------------------------------------------------------------------------------------
// Events
// ---------------------------------------------------------------------------------------

#[test]
fn generate_logs_request_lifecycle() {
    match accepted_event(&request("ab", 1), "1.0".to_string()) {
        RuntimeEvent::GenerateRequestAccepted {
            max_tokens,
            prompt_chars,
            ..
        } => assert_eq!((1, 2), (max_tokens, prompt_chars)),
        other => panic!("unexpected event {other:?}"),
    }
    match completed_event(2, 3, 7) {
        RuntimeEvent::GenerateRequestCompleted {
            status,
            prompt_tokens,
            generated_tokens,
            elapsed_ms,
        } => {
            assert_eq!(200, status);
            assert_eq!(2, prompt_tokens);
            assert_eq!(1, generated_tokens);
            assert_eq!(7, elapsed_ms);
        }
        other => panic!("unexpected event {other:?}"),
    }
}

#[test]
fn generate_logs_rejected_request_without_prompt_text() {
    let err = check_request(&request("", 1), &ServerLimits::default(), false).unwrap_err();

    match rejected_event(&err, 3) {
        RuntimeEvent::GenerateRequestRejected {
            status,
            reason,
            elapsed_ms,
        } => {
            assert_eq!(400, status);
            assert_eq!("prompt must not be empty", reason);
            assert_eq!(3, elapsed_ms);
        }
        other => panic!("unexpected event {other:?}"),
    }
}

// ---------------------------------------------------------------------------------------
// What is served
// ---------------------------------------------------------------------------------------

#[test]
fn context_window_crops_to_block_size() {
    assert_eq!(&[2, 3, 4], context_window(&[0, 1, 2, 3, 4], 3));
}

#[test]
fn a_short_context_is_served_whole() {
    assert_eq!(&[0, 1], context_window(&[0, 1], 3));
    assert_eq!(&[0; 0], context_window(&[0, 1], 0));
}

#[test]
fn server_state_exposes_model_info() {
    let response = info(&minigpt(7, 8, 2, 6, 2), &letters());

    assert_eq!(7, response.vocab_size);
    assert_eq!(2, response.num_layers);
    assert_eq!(2, response.num_heads);
    assert_eq!(6, response.block_size);
    assert_eq!(7, response.tokenizer_vocab_size);
    assert!(response.model_tokenizer_vocab_match);
}

#[test]
fn info_exposes_runtime_tokenizer_compatibility() {
    let response = info(&minigpt(8, 8, 1, 6, 2), &letters());

    assert_eq!(8, response.vocab_size);
    assert_eq!(7, response.tokenizer_vocab_size);
    assert!(!response.model_tokenizer_vocab_match);
}

#[test]
fn routed_models_tell_their_experts() {
    let routed = ServedShape {
        kind: ServedKind::MoeGpt {
            num_experts: 4,
            top_k: 2,
        },
        ..minigpt(7, 8, 1, 6, 2)
    };
    let response = info(&routed, &letters());

    assert_eq!("moe-gpt", response.model_kind);
    assert_eq!((4, 2), (response.num_experts, response.moe_top_k));
    let dense = info(&minigpt(7, 8, 1, 6, 2), &letters());
    assert_eq!(("minigpt", 0, 0), (dense.model_kind, dense.num_experts, dense.moe_top_k));
}

#[test]
fn generated_text_lists_its_tokens() {
    let text = generated_text(&letters(), &[2, 0, 1]);

    assert_eq!("cab", text.generated);
    assert_eq!(vec!["c", "a", "b"], text.tokens);
}

fn layer(values: Result<Vec<f32>, String>) -> LayerAttention<f32> {
    LayerAttention {
        batch_size: 1,
        num_heads: 2,
        seq_len: 3,
        values,
    }
}

#[test]
fn attention_for_tokens_returns_one_matrix_per_layer_head() {
    let values: Vec<f32> = (0..18).map(|at| at as f32).collect();
    let attention = attention_data(&vec![layer(Ok(values.clone())), layer(Ok(values))]).unwrap();

    assert_eq!(4, attention.len());
    assert_eq!(0, attention[0].layer);
    assert_eq!(0, attention[0].head);
    assert_eq!(3, attention[0].weights.len());
    assert_eq!(3, attention[0].weights[0].len());
    assert_eq!(1, attention[3].layer);
    assert_eq!(1, attention[3].head);
    assert_eq!(vec![vec![9.0, 10.0, 11.0], vec![12.0, 13.0, 14.0], vec![15.0, 16.0, 17.0]], attention[3].weights);
}

#[test]
fn attention_that_cannot_be_read_is_a_fault() {
    let err = attention_data(&vec![layer(Err("no data".to_string()))]).unwrap_err();
    assert_eq!(500, err.status());

    let two = LayerAttention {
        batch_size: 2,
        num_heads: 1,
        seq_len: 1,
        values: Ok(vec![1.0f32, 1.0]),
    };
    assert_eq!(500, attention_data(&vec![two]).unwrap_err().status());
}

#[test]
fn routing_lists_the_experts_of_each_position() {
    let routing = routing_data(&vec![LayerRouting {
        batch_size: 1,
        seq_len: 2,
        top_k: 2,
        indices: Ok(vec![3, 0, 1, 2]),
        weights: Ok(vec![0.75f32, 0.25, 0.5, 0.5]),
    }])
    .unwrap();

    assert_eq!(1, routing.len());
    assert_eq!(0, routing[0].layer);
    assert_eq!(vec![vec![3, 0], vec![1, 2]], routing[0].experts);
    assert_eq!(vec![vec![0.75, 0.25], vec![0.5, 0.5]], routing[0].weights);
}

fn routed(weights: Result<Vec<f32>, String>) -> LayerRouting<f32> {
    LayerRouting {
        batch_size: 1,
        seq_len: 2,
        top_k: 1,
        indices: Ok(vec![3, 1]),
        weights,
    }
}

#[test]
fn an_answer_holds_text_attention_and_routing() {
    let values: Vec<f32> = (0..18).map(|at| at as f32).collect();
    let attention = vec![layer(Ok(values))];
    let dense = generate_response(&letters(), &[2, 0, 1], &attention, None).unwrap();
    assert_eq!("cab", dense.generated);
    assert_eq!(vec!["c", "a", "b"], dense.tokens);
    assert_eq!(2, dense.attention.len());
    assert!(dense.routing.is_none());

    let layers = vec![routed(Ok(vec![1.0, 0.5]))];
    let moe = generate_response(&letters(), &[2, 0, 1], &attention, Some(&layers)).unwrap();
    let routing = moe.routing.unwrap();
    assert_eq!(vec![vec![3], vec![1]], routing[0].experts);
    assert_eq!(vec![vec![1.0], vec![0.5]], routing[0].weights);
}

#[test]
fn an_answer_fails_on_the_first_layer_that_cannot_be_read() {
    let good: Vec<f32> = (0..18).map(|at| at as f32).collect();
    let bad_routing = vec![routed(Err("no weights".to_string()))];
    let bad_attention = vec![layer(Ok(good.clone())), layer(Err("no data".to_string()))];

    let err = generate_response(&letters(), &[0], &bad_attention, Some(&bad_routing)).unwrap_err();
    assert_eq!("failed to serialize attention tensor: no data", err.reason());
    let err = generate_response(&letters(), &[0], &vec![layer(Ok(good))], Some(&bad_routing));
    assert_eq!(
        "failed to serialize routing weights: no weights",
        err.unwrap_err().reason()
    );
}

// ---------------------------------------------------------------------------------------
// Health
// ---------------------------------------------------------------------------------------

#[test]
fn health_reports_tokenizer_kind_and_sha256() {
    let provenance = ServerProvenance {
        started_at_ms: 0,
        checkpoint_source: CheckpointSource::Fresh,
        checkpoint_basename: None,
        checkpoint_sha256: None,
        tokenizer_sha256: Some("deadbeef".to_string()),
    };

    let response = health(&provenance, &minigpt(7, 8, 1, 6, 2), &letters(), 0);

    assert_eq!("char", response.tokenizer.kind);
    assert_eq!(Some("deadbeef".to_string()), response.tokenizer.sha256);
}

#[test]
fn health_never_exposes_absolute_path() {
    let provenance = ServerProvenance::of_files(
        0,
        CheckpointSource::Latest,
        Some("/tmp/rusty-gpt-health-disclosure/mini_gpt.step-5000.mpk"),
        &Some(b"bytes".to_vec()),
        &None,
    );

    let response = health(&provenance, &minigpt(7, 8, 1, 6, 2), &letters(), 0);

    assert_eq!(
        Some("mini_gpt.step-5000.mpk".to_string()),
        response.checkpoint.basename
    );
    assert!(!format!("{response:?}").contains("/tmp/rusty-gpt-health-disclosure"));
}

#[test]
fn health_reports_explicit_checkpoint_sha256_matches_disk() {
    let file = Some(b"fake-mpk-bytes-for-test".to_vec());
    let expected_sha = sha256_file_hex(&file).unwrap();
    let provenance = ServerProvenance::of_files(
        0,
        CheckpointSource::Explicit,
        Some("/tmp/rusty-gpt-health-checkpoint.mpk"),
        &file,
        &None,
    );

    let response = health(&provenance, &minigpt(7, 8, 1, 6, 2), &letters(), 0);

    assert!(response.checkpoint.loaded);
    assert_eq!("explicit", response.checkpoint.source);
    assert_eq!(
        Some("rusty-gpt-health-checkpoint.mpk".to_string()),
        response.checkpoint.basename
    );
    assert_eq!(Some(expected_sha), response.checkpoint.sha256);
}

#[test]
fn health_model_shape_matches_constructor_args() {
    let response = health(
        &ServerProvenance::fresh(0),
        &minigpt(11, 16, 3, 7, 4),
        &letters(),
        0,
    );

    assert_eq!("minigpt", response.model.kind);
    assert_eq!(11, response.model.vocab_size);
    assert_eq!(16, response.model.embed_dim);
    assert_eq!(3, response.model.num_layers);
    assert_eq!(7, response.model.block_size);
    assert_eq!(4, response.model.num_heads);
}

#[test]
fn health_fresh_template_reports_none_source() {
    let response = health(
        &ServerProvenance::fresh(0),
        &minigpt(7, 8, 1, 6, 2),
        &letters(),
        0,
    );

    assert!(!response.checkpoint.loaded);
    assert_eq!("none", response.checkpoint.source);
    assert!(response.checkpoint.basename.is_none());
    assert!(response.checkpoint.sha256.is_none());
}

#[test]
fn health_reports_status_ok_and_uptime() {
    let response = health(
        &ServerProvenance::fresh(1_000),
        &minigpt(7, 8, 1, 6, 2),
        &letters(),
        5_999,
    );

    assert_eq!("ok", response.status);
    assert!(response.uptime_seconds < 5);
    assert_eq!(4, response.uptime_seconds);
}

#[test]
fn a_burst_goes_through_at_one_instant() {
    let limits = ServerLimits {
        rate_limit_rps: 2,
        rate_limit_burst: 3,
        ..ServerLimits::default()
    };
    let mut limiter = RateLimiter::new();
    let one = PeerAddress::V4(1);
    let other = PeerAddress::V6(1);

    for asked in 0..5 {
        let expected = if asked < 3 {
            RateDecision::Allowed
        } else {
            RateDecision::Limited {
                retry_after_seconds: 1,
            }
        };
        assert_eq!(expected, acquire(&mut limiter, one, &limits, 7));
        assert_eq!(expected, acquire(&mut limiter, other, &limits, 7));
    }
}

#[test]
fn requests_at_one_instant_are_counted_without_the_clock() {
    let limits = ServerLimits {
        rate_limit_rps: 2,
        rate_limit_burst: 2,
        ..ServerLimits::default()
    };
    let mut limiter = RateLimiter::new();
    let nonsense = BucketUpdate {
        refilled: wide(100.0),
        spent: wide(99.0),
        retry_after_seconds: 9,
    };

    assert_eq!(RateDecision::Allowed, limiter.try_acquire(HOME, &limits, 5, &nonsense));
    assert_eq!(
        Some(TokenBucket {
            tokens: Some(RequestsLeft::Whole(1)),
            updated_at_ns: 5
        }),
        limiter.current(HOME, &limits, 5)
    );
    assert_eq!(RateDecision::Allowed, limiter.try_acquire(HOME, &limits, 5, &nonsense));
    assert_eq!(
        RateDecision::Limited {
            retry_after_seconds: 1
        },
        limiter.try_acquire(HOME, &limits, 5, &nonsense)
    );
    assert_eq!(
        RateDecision::Limited {
            retry_after_seconds: 1
        },
        limiter.try_acquire(HOME, &limits, 4, &nonsense)
    );
}

#[test]
fn a_burst_that_no_real_counts_is_left_to_the_update() {
    let limits = ServerLimits {
        rate_limit_rps: 1,
        rate_limit_burst: 1 << 53,
        ..ServerLimits::default()
    };
    let mut limiter = RateLimiter::new();

    assert_eq!(RateDecision::Allowed, acquire(&mut limiter, HOME, &limits, 0));
    assert_eq!(
        Some(TokenBucket {
            tokens: Some(RequestsLeft::Part(wide(9_007_199_254_740_991.0))),
            updated_at_ns: 0
        }),
        limiter.current(HOME, &limits, 0)
    );
}

use rusty_gpt::observability::{BenchmarkStats, RuntimeEvent};
use rusty_gpt::reals::Real;
use rusty_gpt::utils::{
    benchmark_generation_cases, parse_usize_list, percentile_rank, random_tokens, result_event,
    skipped_event, BenchmarkConfig, GenerationBenchmarkCase, GenerationBenchmarkResult,
    GenerationBenchmarkSkipped,
};

#[test]
fn random_tokens_returns_requested_len_with_vocab_bounds() {
    let tokens = random_tokens(16, 7);

    assert_eq!(16, tokens.len());
    assert!(tokens.iter().all(|&token| token < 7));
}

#[test]
fn parses_comma_separated_usize_list() {
    let values = parse_usize_list("1, 2,3", "benchmark prompt lengths").unwrap();

    assert_eq!(vec![1, 2, 3], values);
}

#[test]
fn rejects_empty_or_zero_benchmark_values() {
    assert!(parse_usize_list("", "values").is_err());
    assert!(parse_usize_list("1,0", "values").is_err());
}

#[test]
fn benchmark_config_rejects_zero_iterations() {
    let config = BenchmarkConfig {
        iterations: 0,
        ..BenchmarkConfig::default()
    };

    assert!(config.validate().is_err());
}

#[test]
fn percentile_uses_nearest_rank() {
    let values = [1.0, 2.0, 3.0, 4.0, 5.0];

    assert_eq!(3.0, values[percentile_rank(values.len(), 50)]);
    assert_eq!(5.0, values[percentile_rank(values.len(), 95)]);
}

#[test]
fn benchmark_generation_cases_returns_one_result_per_supported_case() {
    let config = BenchmarkConfig {
        prompt_lens: vec![2],
        gen_lens: vec![1],
        warmups: 0,
        iterations: 2,
    };

    let cases = benchmark_generation_cases(&config, 8).unwrap();

    assert_eq!(
        vec![GenerationBenchmarkCase::Measured {
            prompt_len: 2,
            gen_len: 1,
            warmups: 0,
            iterations: 2,
        }],
        cases
    );
}

#[test]
fn benchmark_generation_cases_reports_skipped_cases() {
    let config = BenchmarkConfig {
        prompt_lens: vec![3],
        gen_lens: vec![2],
        warmups: 0,
        iterations: 1,
    };

    let cases = benchmark_generation_cases(&config, 4).unwrap();

    assert!(matches!(
        &cases[0],
        GenerationBenchmarkCase::Skipped(GenerationBenchmarkSkipped {
            prompt_len: 3,
            gen_len: 2,
            ..
        })
    ));
}

#[test]
fn skipped_cases_say_what_they_need() {
    let config = BenchmarkConfig {
        prompt_lens: vec![3],
        gen_lens: vec![2],
        warmups: 0,
        iterations: 1,
    };

    match &benchmark_generation_cases(&config, 4).unwrap()[0] {
        GenerationBenchmarkCase::Skipped(skipped) => {
            assert_eq!("cached generation needs block_size >= 5", skipped.reason);
            assert_eq!(
                "Benchmark skipped: prompt=3, gen=2, reason=cached generation needs block_size >= 5",
                skipped_event(skipped).to_plain()
            );
        }
        other => panic!("expected a skipped case, got {other:?}"),
    }
}

#[test]
fn generation_lengths_run_fastest() {
    let config = BenchmarkConfig {
        prompt_lens: vec![1, 2],
        gen_lens: vec![3, 4],
        warmups: 1,
        iterations: 1,
    };

    let lens: Vec<(usize, usize)> = benchmark_generation_cases(&config, 100)
        .unwrap()
        .iter()
        .map(|case| match case {
            GenerationBenchmarkCase::Measured {
                prompt_len,
                gen_len,
                ..
            } => (*prompt_len, *gen_len),
            GenerationBenchmarkCase::Skipped(_) => panic!("no case is too long"),
        })
        .collect();

    assert_eq!(vec![(1, 3), (1, 4), (2, 3), (2, 4)], lens);
}

#[test]
fn number_lists_say_what_is_wrong() {
    let text = |value| parse_usize_list(value, "values").unwrap_err().to_text();

    assert_eq!("values values must be greater than zero", text("1,0"));
    assert_eq!("values must include at least one integer", text(" , "));
    assert_eq!("invalid values: invalid digit found in string", text("1,x"));
    assert_eq!(
        "invalid values: number too large to fit in target type",
        text("99999999999999999999999")
    );
}

#[test]
fn benchmark_settings_need_lengths() {
    let config = BenchmarkConfig {
        prompt_lens: Vec::new(),
        ..BenchmarkConfig::default()
    };
    let prompt = config.validate().unwrap_err().message();
    let config = BenchmarkConfig {
        gen_lens: Vec::new(),
        ..BenchmarkConfig::default()
    };
    let generated = config.validate().unwrap_err().message();

    assert_ne!(prompt, generated);
    assert!(BenchmarkConfig::default().validate().is_ok());
    assert_eq!(1, BenchmarkConfig::default().warmups);
    assert_eq!(5, BenchmarkConfig::default().iterations);
}

#[test]
fn measured_cases_are_logged_with_their_settings() {
    let stats = |mean: &str, speed: &str| BenchmarkStats {
        min_ms: Real { bits: 1.0f64.to_bits() },
        max_ms: Real { bits: 3.0f64.to_bits() },
        p50_ms: Real { bits: 2.0f64.to_bits() },
        p95_ms: Real { bits: 3.0f64.to_bits() },
        mean_ms: mean.to_string(),
        tokens_per_second: speed.to_string(),
    };
    let config = BenchmarkConfig {
        prompt_lens: vec![2],
        gen_lens: vec![1],
        warmups: 3,
        iterations: 4,
    };
    let event = result_event(
        &config,
        2,
        1,
        GenerationBenchmarkResult {
            naive: stats("2.000", "500.00"),
            cached: stats("1.000", "1000.00"),
            speedup: "2.00".to_string(),
        },
    );

    assert!(matches!(
        &event,
        RuntimeEvent::BenchmarkResult {
            prompt_len: 2,
            gen_len: 1,
            warmups: 3,
            iterations: 4,
            ..
        }
    ));
    assert_eq!(
        "Benchmark prompt=2, gen=1, warmups=3, iterations=4: naive mean 2.000ms (500.00 tok/s), cached mean 1.000ms (1000.00 tok/s), speedup 2.00x",
        event.to_plain()
    );
}

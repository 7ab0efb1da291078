use clap::{Arg, ArgAction, ArgMatches, Command};
use rusty_gpt::loader::data::SamplingPolicy;
use rusty_gpt::model::LearningRateSchedule;
use rusty_gpt::observability::LogFormat;
use rusty_gpt::failure::Reading;
use rusty_gpt::reals::{Real, RealText, ShortReal, ShortRealText};
use rusty_gpt::runtime_config::{
    checkpoint_parent, checkpoint_text, parse_runtime_config_with_checkpoint as parse_settings,
    resume_text, server_addr_text, validate_checkpoint_path, BackendChoice, CliArgs, ConfigFacts,
    HyperparameterOverrides, Hyperparameters, ModelChoice, ResolvedDirs, RuntimeConfig, RuntimeEnv,
    BATCH_SIZE, BLOCK_SIZE, DEFAULT_CHECKPOINT_DIR, DEFAULT_INPUT_PATH, DEFAULT_MAX_OUTPUT_TOKENS,
    DEFAULT_MAX_PROMPT_BYTES, DEFAULT_MINIGPT_CHECKPOINT_PATH, DEFAULT_RATE_LIMIT_BURST,
    DEFAULT_RATE_LIMIT_RPS, DEFAULT_SERVER_ADDR, EMBED_DIM, EVAL_INTERVAL, GENERATE_TOKENS,
    HEAD_DIM, NUM_HEADS, NUM_LAYERS, PREFETCH_BATCHES, TRAIN_STEPS,
};
use rusty_gpt::utils::BenchmarkConfig;

// ---------------------------------------------------------------------------------------
// A command line and a filesystem to try the settings on
// ---------------------------------------------------------------------------------------

const TEXTS: [&str; 13] = [
    "backend",
    "input",
    "model",
    "checkpoint",
    "resume-from",
    "server-addr",
    "log-format",
    "benchmark-prompt-lens",
    "benchmark-gen-lens",
    "benchmark-warmups",
    "benchmark-iterations",
    "lr-schedule",
    "sampling-policy",
];

const COUNTS: [&str; 18] = [
    "max-prompt-bytes",
    "max-output-tokens",
    "rate-limit-rps",
    "rate-limit-burst",
    "block-size",
    "batch-size",
    "embed-dim",
    "num-heads",
    "num-layers",
    "lr-warmup-steps",
    "train-steps",
    "eval-interval",
    "generate-tokens",
    "moe-experts",
    "moe-top-k",
    "prefetch-batches",
    "checkpoint-interval",
    "checkpoint-keep",
];

const REALS: [&str; 3] = ["dropout", "learning-rate", "moe-aux-loss-weight"];

const SWITCHES: [&str; 5] = [
    "interactive-generate",
    "benchmark-generation",
    "load-checkpoint",
    "load-latest-checkpoint",
    "serve",
];

fn count_value(text: &str) -> Result<usize, String> {
    text.parse::<usize>().map_err(|err| err.to_string())
}

fn real_value(text: &str) -> Result<f64, String> {
    text.parse::<f64>().map_err(|err| err.to_string())
}

fn command() -> Command {
    let mut command = Command::new("rusty-gpt").no_binary_name(true);
    for name in TEXTS {
        command = command.arg(Arg::new(name).long(name));
    }
    for name in COUNTS {
        command = command.arg(Arg::new(name).long(name).value_parser(count_value));
    }
    for name in REALS {
        command = command.arg(
            Arg::new(name)
                .long(name)
                .allow_negative_numbers(true)
                .value_parser(real_value),
        );
    }
    for name in SWITCHES {
        command = command.arg(Arg::new(name).long(name).action(ArgAction::SetTrue));
    }
    command
}

fn cli_args(matches: &ArgMatches) -> CliArgs {
    let text = |name: &str| matches.get_one::<String>(name).cloned();
    let count = |name: &str| matches.get_one::<usize>(name).copied();
    let number = |name: &str| matches.get_one::<f64>(name).map(|&value| wide(value));
    let set = |name: &str| matches.get_flag(name);
    CliArgs {
        backend: text("backend"),
        input: text("input"),
        model: text("model"),
        checkpoint: text("checkpoint"),
        resume_from: text("resume-from"),
        server_addr: text("server-addr"),
        log_format: text("log-format"),
        max_prompt_bytes: count("max-prompt-bytes"),
        max_output_tokens: count("max-output-tokens"),
        rate_limit_rps: count("rate-limit-rps"),
        rate_limit_burst: count("rate-limit-burst"),
        benchmark_prompt_lens: text("benchmark-prompt-lens"),
        benchmark_gen_lens: text("benchmark-gen-lens"),
        benchmark_warmups: text("benchmark-warmups"),
        benchmark_iterations: text("benchmark-iterations"),
        block_size: count("block-size"),
        batch_size: count("batch-size"),
        embed_dim: count("embed-dim"),
        num_heads: count("num-heads"),
        num_layers: count("num-layers"),
        dropout: number("dropout"),
        learning_rate: number("learning-rate"),
        lr_schedule: text("lr-schedule"),
        lr_warmup_steps: count("lr-warmup-steps"),
        sampling_policy: text("sampling-policy"),
        train_steps: count("train-steps"),
        eval_interval: count("eval-interval"),
        generate_tokens: count("generate-tokens"),
        grad_clip_norm: None,
        moe_experts: count("moe-experts"),
        moe_top_k: count("moe-top-k"),
        moe_aux_loss_weight: number("moe-aux-loss-weight"),
        prefetch_batches: count("prefetch-batches"),
        checkpoint_interval: count("checkpoint-interval"),
        checkpoint_keep: count("checkpoint-keep"),
        interactive_generate: set("interactive-generate"),
        benchmark_generation: set("benchmark-generation"),
        load_checkpoint: set("load-checkpoint"),
        load_latest_checkpoint: set("load-latest-checkpoint"),
        serve: set("serve"),
    }
}

/// A path below `/work` with its `..` parts taken out, as a filesystem without links has it.
fn resolve(path: &str) -> String {
    let whole = if path.starts_with('/') {
        path.to_string()
    } else {
        format!("/work/{path}")
    };
    let mut parts: Vec<&str> = Vec::new();
    for part in whole.split('/') {
        match part {
            "" | "." => {}
            ".." => {
                parts.pop();
            }
            name => parts.push(name),
        }
    }
    format!("/{}", parts.join("/"))
}

fn resolved_dirs(input: &str, root: &str) -> ResolvedDirs {
    ResolvedDirs {
        root: Reading::Value(resolve(root)),
        parent: match checkpoint_parent(input, root) {
            Some(dir) => Reading::Value(resolve(&dir)),
            None => Reading::Fault("there is no parent".to_string()),
        },
    }
}

fn is_socket_address(text: &str) -> bool {
    match text.split_once(':') {
        Some((host, port)) => {
            port.parse::<u16>().is_ok()
                && host.split('.').count() == 4
                && host.split('.').all(|part| part.parse::<u8>().is_ok())
        }
        None => false,
    }
}

fn facts(cli: &CliArgs, env: &RuntimeEnv) -> ConfigFacts {
    let dirs = |text: Option<&str>| match text {
        Some(path) => resolved_dirs(path, DEFAULT_CHECKPOINT_DIR),
        None => resolved_dirs("", DEFAULT_CHECKPOINT_DIR),
    };
    ConfigFacts {
        server_addr_error: if is_socket_address(server_addr_text(cli, env)) {
            None
        } else {
            Some("invalid socket address syntax".to_string())
        },
        checkpoint: dirs(checkpoint_text(cli, env)),
        resume_from: dirs(resume_text(cli, env)),
    }
}

fn parse_runtime_config_with_checkpoint<I, S>(args: I, env: RuntimeEnv) -> Result<RuntimeConfig, String>
where
    I: IntoIterator<Item = S>,
    S: AsRef<str>,
{
    let args: Vec<String> = args.into_iter().map(|arg| arg.as_ref().to_string()).collect();
    let matches = command()
        .try_get_matches_from(args)
        .map_err(|err| err.to_string())?;
    let cli = cli_args(&matches);
    parse_settings(&cli, &env, &facts(&cli, &env)).map_err(|err| err.to_text())
}

fn parse_runtime_config<I, S>(
    args: I,
    env_backend: Option<&str>,
    env_input: Option<&str>,
    env_model: Option<&str>,
) -> Result<RuntimeConfig, String>
where
    I: IntoIterator<Item = S>,
    S: AsRef<str>,
{
    parse_runtime_config_with_checkpoint(
        args,
        RuntimeEnv {
            backend: env_backend.map(str::to_string),
            input: env_input.map(str::to_string),
            model: env_model.map(str::to_string),
            ..RuntimeEnv::default()
        },
    )
}

fn parse_args(args: &[&str]) -> Result<RuntimeConfig, String> {
    parse_args_with_env(args, RuntimeEnv::default())
}

fn parse_args_with_env(args: &[&str], env: RuntimeEnv) -> Result<RuntimeConfig, String> {
    parse_runtime_config_with_checkpoint(args.iter().copied(), env)
}

fn expect_parse_error(args: &[&str], expected: &str) {
    let err = parse_args(args).expect_err("runtime config parsing should fail");
    assert!(
        err.to_string().contains(expected),
        "expected error to contain '{expected}', got '{err}'"
    );
}

fn assert_checkpoint_error_contains(err: String) {
    assert!(
        err.to_string()
            .contains("checkpoint path must be inside checkpoints/"),
        "expected checkpoint confinement error, got '{err}'"
    );
}

fn wide(value: f64) -> Real {
    Real {
        bits: value.to_bits(),
    }
}

fn narrow(value: f32) -> ShortReal {
    ShortReal {
        bits: value.to_bits(),
    }
}

fn wide_text(text: &str) -> RealText {
    RealText {
        text: text.to_string(),
        value: match text.parse::<f64>() {
            Ok(value) => Reading::Value(wide(value)),
            Err(err) => Reading::Fault(err.to_string()),
        },
    }
}

fn narrow_text(text: &str) -> ShortRealText {
    ShortRealText {
        text: text.to_string(),
        value: match text.parse::<f32>() {
            Ok(value) => Reading::Value(narrow(value)),
            Err(err) => Reading::Fault(err.to_string()),
        },
    }
}

#[test]
fn checkpoint_validator_accepts_relative_path_inside_root() {
    let root = "/tmp/relative/checkpoints";

    let path =
        validate_checkpoint_path("nested/mini_gpt", root, &resolved_dirs("nested/mini_gpt", root))
            .unwrap();

    assert_eq!("/tmp/relative/checkpoints/nested/mini_gpt", path);
}

#[test]
fn checkpoint_validator_accepts_absolute_path_inside_root() {
    let root = "/tmp/absolute/checkpoints";
    let input = "/tmp/absolute/checkpoints/nested/mini_gpt";

    let path = validate_checkpoint_path(input, root, &resolved_dirs(input, root)).unwrap();

    assert_eq!(input, path);
}

#[test]
fn checkpoint_validator_maps_bare_name_inside_root() {
    let root = "/tmp/bare-name/checkpoints";

    let path = validate_checkpoint_path("mini_gpt", root, &resolved_dirs("mini_gpt", root)).unwrap();

    assert_eq!("/tmp/bare-name/checkpoints/mini_gpt", path);
}

#[test]
fn checkpoint_validator_rejects_parent_traversal_outside_root() {
    let root = "/tmp/traversal/checkpoints";

    let err = validate_checkpoint_path("../secret", root, &resolved_dirs("../secret", root))
        .expect_err("parent traversal should be rejected");

    assert_checkpoint_error_contains(err.to_text());
}

#[test]
fn checkpoint_validator_rejects_symlink_parent_outside_root() {
    let root = "/tmp/symlink/checkpoints";
    // The directory `linked-outside` is a link that leads out of the root.
    let dirs = ResolvedDirs {
        root: Reading::Value(root.to_string()),
        parent: Reading::Value("/tmp/symlink/outside".to_string()),
    };

    let err = validate_checkpoint_path("linked-outside/mini_gpt", root, &dirs)
        .expect_err("symlink escaping the checkpoint root should be rejected");

    assert_checkpoint_error_contains(err.to_text());
}

#[test]
fn checkpoint_validator_accepts_nonexistent_file_inside_existing_parent() {
    let root = "/tmp/nonexistent-file/checkpoints";
    let input = "nested/new_checkpoint";

    let path = validate_checkpoint_path(input, root, &resolved_dirs(input, root)).unwrap();

    assert_eq!("/tmp/nonexistent-file/checkpoints/nested/new_checkpoint", path);
}

#[test]
fn hyperparameters_can_override_training_settings_from_env() {
    let env = RuntimeEnv {
        train_steps: Some("7".to_string()),
        eval_interval: Some("3".to_string()),
        generate_tokens: Some("11".to_string()),
        minigpt_grad_clip_norm: Some(narrow_text("0.5")),
        prefetch_batches: Some("4".to_string()),
        ..RuntimeEnv::default()
    };

    let hyperparameters =
        Hyperparameters::from_env_and_overrides(&env, &HyperparameterOverrides::default()).unwrap();

    assert_eq!(7, hyperparameters.train_steps);
    assert_eq!(3, hyperparameters.eval_interval);
    assert_eq!(11, hyperparameters.generate_tokens);
    assert_eq!(narrow(0.5), hyperparameters.minigpt_grad_clip_norm);
    assert_eq!(4, hyperparameters.prefetch_batches);
}

#[test]
fn hyperparameters_reject_non_positive_minigpt_gradient_clip_norm() {
    let env = RuntimeEnv {
        minigpt_grad_clip_norm: Some(narrow_text("0")),
        ..RuntimeEnv::default()
    };

    let err = Hyperparameters::from_env_and_overrides(&env, &HyperparameterOverrides::default())
        .expect_err("non-positive gradient clipping norm should fail");

    assert!(err
        .to_text()
        .contains("RUSTY_GPT_MINIGPT_GRAD_CLIP_NORM must be greater than zero"));
}

#[test]
fn checkpoint_env_path_is_validated() {
    let config = parse_args_with_env(
        &[],
        RuntimeEnv {
            checkpoint: Some("mini_gpt".to_string()),
            ..RuntimeEnv::default()
        },
    )
    .unwrap();

    assert!(config.checkpoint_path.ends_with("checkpoints/mini_gpt"));
}

#[test]
fn checkpoint_cli_path_rejects_parent_traversal() {
    let err = parse_args(&["--checkpoint", "../secret"])
        .expect_err("cli checkpoint traversal should fail");

    assert_checkpoint_error_contains(err);
}

#[test]
fn checkpoint_env_path_rejects_parent_traversal() {
    let err = parse_args_with_env(
        &[],
        RuntimeEnv {
            checkpoint: Some("../secret".to_string()),
            ..RuntimeEnv::default()
        },
    )
    .expect_err("env checkpoint traversal should fail");

    assert_checkpoint_error_contains(err);
}

#[test]
fn rejects_invalid_hyperparameter_invariants_from_cli_overrides() {
    let cases = [
        (
            &["--block-size", "0"][..],
            "block_size must be greater than zero",
        ),
        (
            &["--batch-size", "0"][..],
            "batch_size must be greater than zero",
        ),
        (
            &["--embed-dim", "0"][..],
            "embed_dim must be greater than zero",
        ),
        (
            &["--num-heads", "0"][..],
            "num_heads must be greater than zero",
        ),
        (
            &["--num-layers", "0"][..],
            "num_layers must be greater than zero",
        ),
        (
            &["--train-steps", "0"][..],
            "train_steps must be greater than zero",
        ),
        (
            &["--train-steps", "10", "--lr-warmup-steps", "11"][..],
            "lr_warmup_steps must be <= train_steps",
        ),
        (
            &["--generate-tokens", "0"][..],
            "generate_tokens must be greater than zero",
        ),
        (&["--dropout", "1.0"][..], "dropout must be >= 0 and < 1"),
        (&["--dropout", "-0.1"][..], "dropout must be >= 0 and < 1"),
        (
            &["--learning-rate", "0"][..],
            "learning_rate must be greater than zero",
        ),
        (
            &["--learning-rate", "-0.01"][..],
            "learning_rate must be greater than zero",
        ),
    ];

    for (args, expected) in cases {
        expect_parse_error(args, expected);
    }
}

#[test]
fn rejects_invalid_hyperparameter_invariants_from_env() {
    let cases: [(&str, fn(&mut RuntimeEnv), &str); 10] = [
        (
            "block_size",
            |env| env.block_size = Some("0".to_string()),
            "block_size must be greater than zero",
        ),
        (
            "batch_size",
            |env| env.batch_size = Some("0".to_string()),
            "batch_size must be greater than zero",
        ),
        (
            "embed_dim",
            |env| env.embed_dim = Some("0".to_string()),
            "embed_dim must be greater than zero",
        ),
        (
            "num_heads",
            |env| env.num_heads = Some("0".to_string()),
            "num_heads must be greater than zero",
        ),
        (
            "num_layers",
            |env| env.num_layers = Some("0".to_string()),
            "num_layers must be greater than zero",
        ),
        (
            "train_steps",
            |env| env.train_steps = Some("0".to_string()),
            "train_steps must be greater than zero",
        ),
        (
            "generate_tokens",
            |env| env.generate_tokens = Some("0".to_string()),
            "generate_tokens must be greater than zero",
        ),
        (
            "lr_warmup_steps",
            |env| {
                env.train_steps = Some("10".to_string());
                env.lr_warmup_steps = Some("11".to_string());
            },
            "lr_warmup_steps must be <= train_steps",
        ),
        (
            "dropout",
            |env| env.dropout = Some(wide_text("1.0")),
            "dropout must be >= 0 and < 1",
        ),
        (
            "learning_rate",
            |env| env.learning_rate = Some(wide_text("0")),
            "learning_rate must be greater than zero",
        ),
    ];

    for (name, set_env, expected) in cases {
        let mut env = RuntimeEnv::default();
        set_env(&mut env);

        let err = match parse_args_with_env(&[], env) {
            Ok(_) => panic!("{name} env override should fail"),
            Err(err) => err,
        };
        assert!(
            err.to_string().contains(expected),
            "expected {name} error to contain '{expected}', got '{err}'"
        );
    }
}

#[test]
fn rejects_invalid_numeric_parse_from_env_and_cli_overrides() {
    let mut env = RuntimeEnv {
        block_size: Some("many".to_string()),
        ..RuntimeEnv::default()
    };
    let err = parse_args_with_env(&[], env.clone())
        .expect_err("invalid env hyperparameter value should fail");
    assert!(
        err.to_string()
            .contains("invalid RUSTY_GPT_BLOCK_SIZE value: many")
    );

    env.block_size = None;
    env.dropout = Some(wide_text("often"));
    let err = parse_args_with_env(&[], env)
        .expect_err("invalid env float hyperparameter value should fail");
    assert!(
        err.to_string()
            .contains("invalid RUSTY_GPT_DROPOUT value: often")
    );

    expect_parse_error(
        &["--block-size", "many"],
        "invalid value 'many' for '--block-size",
    );
    expect_parse_error(
        &["--dropout", "often"],
        "invalid value 'often' for '--dropout",
    );
}

#[test]
fn parses_experiment_runtime_flags() {
    let config = parse_args(&[
        "--lr-schedule",
        "warmup-cosine",
        "--lr-warmup-steps",
        "5",
        "--sampling-policy",
        "shuffled-chunks",
    ])
    .unwrap();

    assert_eq!(
        LearningRateSchedule::WarmupCosine,
        config.hyperparameters.learning_rate_schedule
    );
    assert_eq!(5, config.hyperparameters.lr_warmup_steps);
    assert_eq!(
        SamplingPolicy::ShuffledChunks,
        config.hyperparameters.sampling_policy
    );
}

#[test]
fn rejects_missing_parser_owned_flag_values() {
    // clap owns missing-value errors now. The behaviour under test is
    // unchanged - a flag given without its value is rejected, naming the
    // flag - only the wording moved from hand-written text to clap's.
    for flag in [
        "--server-addr",
        "--log-format",
        "--benchmark-prompt-lens",
        "--benchmark-gen-lens",
        "--benchmark-warmups",
        "--benchmark-iterations",
        "--block-size",
        "--dropout",
        "--learning-rate",
        "--lr-schedule",
        "--sampling-policy",
    ] {
        expect_parse_error(&[flag], &format!("a value is required for '{flag}"));
    }
}

#[test]
fn rejects_invalid_parser_owned_flag_values() {
    let cases = [
        (
            &["--server-addr", "localhost"][..],
            "invalid server address 'localhost'",
        ),
        (&["--log-format", "yaml"][..], "unsupported log format"),
        (
            &["--benchmark-prompt-lens", "1,two"][..],
            "invalid benchmark prompt lengths '1,two'",
        ),
        (
            &["--benchmark-gen-lens", "0"][..],
            "invalid benchmark generation lengths '0'",
        ),
        (
            &["--benchmark-warmups", "many"][..],
            "invalid benchmark warmups 'many'",
        ),
        (
            &["--benchmark-iterations", "many"][..],
            "invalid benchmark iterations 'many'",
        ),
        (
            &["--benchmark-iterations", "0"][..],
            "benchmark iterations must be greater than zero",
        ),
        (
            &["--block-size", "many"][..],
            "invalid value 'many' for '--block-size",
        ),
        (
            &["--num-heads", "many"][..],
            "invalid value 'many' for '--num-heads",
        ),
        (
            &["--dropout", "often"][..],
            "invalid value 'often' for '--dropout",
        ),
        (
            &["--lr-schedule", "banana"][..],
            "unsupported lr schedule 'banana'",
        ),
        (
            &["--sampling-policy", "banana"][..],
            "unsupported sampling policy 'banana'",
        ),
    ];

    for (args, expected) in cases {
        expect_parse_error(args, expected);
    }
}

#[test]
fn serve_can_be_selected_from_args() {
    let config = parse_args(&["--serve"]).unwrap();

    assert!(config.serve);
}

#[test]
fn server_limits_default_to_security_caps() {
    let config = parse_args(&[]).unwrap();

    assert_eq!(DEFAULT_MAX_PROMPT_BYTES, config.max_prompt_bytes);
    assert_eq!(DEFAULT_MAX_OUTPUT_TOKENS, config.max_output_tokens);
    assert_eq!(DEFAULT_RATE_LIMIT_RPS, config.rate_limit_rps);
    assert_eq!(DEFAULT_RATE_LIMIT_BURST, config.rate_limit_burst);
}

#[test]
fn server_limits_can_be_selected_from_env() {
    let config = parse_args_with_env(
        &[],
        RuntimeEnv {
            max_prompt_bytes: Some("1024".to_string()),
            max_output_tokens: Some("64".to_string()),
            rate_limit_rps: Some("2".to_string()),
            rate_limit_burst: Some("4".to_string()),
            ..RuntimeEnv::default()
        },
    )
    .unwrap();

    assert_eq!(1024, config.max_prompt_bytes);
    assert_eq!(64, config.max_output_tokens);
    assert_eq!(2, config.rate_limit_rps);
    assert_eq!(4, config.rate_limit_burst);
}

#[test]
fn server_limit_cli_overrides_take_precedence_over_env() {
    let config = parse_args_with_env(
        &[
            "--max-prompt-bytes",
            "2048",
            "--max-output-tokens",
            "128",
            "--rate-limit-rps",
            "3",
            "--rate-limit-burst",
            "6",
        ],
        RuntimeEnv {
            max_prompt_bytes: Some("1024".to_string()),
            max_output_tokens: Some("64".to_string()),
            rate_limit_rps: Some("2".to_string()),
            rate_limit_burst: Some("4".to_string()),
            ..RuntimeEnv::default()
        },
    )
    .unwrap();

    assert_eq!(2048, config.max_prompt_bytes);
    assert_eq!(128, config.max_output_tokens);
    assert_eq!(3, config.rate_limit_rps);
    assert_eq!(6, config.rate_limit_burst);
}

#[test]
fn zero_rate_limit_rps_disables_limiter_without_requiring_burst() {
    let config = parse_args(&["--rate-limit-rps", "0", "--rate-limit-burst", "0"]).unwrap();

    assert_eq!(0, config.rate_limit_rps);
    assert_eq!(0, config.rate_limit_burst);
}

#[test]
fn rejects_invalid_server_limit_invariants() {
    let cases = [
        (
            &["--max-prompt-bytes", "0"][..],
            "max_prompt_bytes must be greater than zero",
        ),
        (
            &["--max-output-tokens", "0"][..],
            "max_output_tokens must be greater than zero",
        ),
        (
            &["--rate-limit-rps", "1", "--rate-limit-burst", "0"][..],
            "rate_limit_burst must be greater than zero",
        ),
    ];

    for (args, expected) in cases {
        expect_parse_error(args, expected);
    }
}

#[test]
fn server_addr_can_be_selected_from_env() {
    let config = parse_args_with_env(
        &[],
        RuntimeEnv {
            server_addr: Some("127.0.0.1:9000".to_string()),
            ..RuntimeEnv::default()
        },
    )
    .unwrap();

    assert_eq!(
        "127.0.0.1:9000",
        config.server_addr
    );
}

#[test]
fn server_addr_cli_override_takes_precedence_over_env() {
    let config = parse_args_with_env(
        &["--server-addr", "127.0.0.1:9001"],
        RuntimeEnv {
            server_addr: Some("127.0.0.1:9000".to_string()),
            ..RuntimeEnv::default()
        },
    )
    .unwrap();

    assert_eq!(
        "127.0.0.1:9001",
        config.server_addr
    );
}

#[test]
fn resume_from_defaults_to_none() {
    let config = parse_args(&[]).unwrap();

    assert_eq!(None, config.resume_from);
}

#[test]
fn resume_from_arg_is_confined_to_checkpoints() {
    let config =
        parse_args(&["--model", "minigpt", "--resume-from", "mini_gpt.step-4"]).unwrap();

    assert!(
        config
            .resume_from
            .as_ref()
            .expect("resume_from should be set")
            .ends_with("checkpoints/mini_gpt.step-4")
    );
}

#[test]
fn resume_from_can_be_selected_from_env() {
    let config = parse_args_with_env(
        &[],
        RuntimeEnv {
            resume_from: Some("mini_gpt.step-4".to_string()),
            ..RuntimeEnv::default()
        },
    )
    .unwrap();

    assert!(
        config
            .resume_from
            .as_ref()
            .expect("resume_from should be set")
            .ends_with("checkpoints/mini_gpt.step-4")
    );
}

#[test]
fn resume_from_rejects_parent_traversal() {
    let err = parse_args(&["--model", "minigpt", "--resume-from", "../secret"])
        .expect_err("resume-from traversal should fail");

    assert_checkpoint_error_contains(err);
}

#[test]
fn resume_from_rejects_non_minigpt_model_at_parse_time() {
    // Meaningless combination: only checkpoint-backed models can resume.
    expect_parse_error(
        &["--model", "trivial", "--resume-from", "mini_gpt.step-4"],
        "--resume-from requires --model minigpt",
    );
    expect_parse_error(
        &["--model", "compare", "--resume-from", "mini_gpt.step-4"],
        "--resume-from requires --model minigpt",
    );
}

#[test]
fn backend_defaults_to_cpu() {
    let config = parse_runtime_config(Vec::<String>::new(), None, None, None).unwrap();

    assert_eq!(BackendChoice::Cpu, config.backend);
    assert_eq!(ModelChoice::MiniGpt, config.model);
    assert_eq!(DEFAULT_INPUT_PATH.to_string(), config.input_path);
    assert_eq!(
        DEFAULT_MINIGPT_CHECKPOINT_PATH.to_string(),
        config.checkpoint_path
    );
    assert!(!config.serve);
    assert!(!config.benchmark_generation);
    assert!(!config.load_checkpoint);
    assert!(!config.load_latest_checkpoint);
    assert_eq!(LogFormat::Plain, config.log_format);
    assert_eq!(BenchmarkConfig::default(), config.benchmark_config);
    assert_eq!(
        DEFAULT_SERVER_ADDR,
        config.server_addr
    );
}

#[test]
fn log_format_can_be_selected_from_args() {
    let config = parse_runtime_config(
        ["--log-format".to_string(), "json".to_string()],
        None,
        None,
        None,
    )
    .unwrap();

    assert_eq!(LogFormat::Json, config.log_format);
}

#[test]
fn log_format_arg_takes_precedence_over_env() {
    let config = parse_runtime_config_with_checkpoint(
        ["--log-format".to_string(), "plain".to_string()],
        RuntimeEnv {
            log_format: Some("json".to_string()),
            ..RuntimeEnv::default()
        },
    )
    .unwrap();

    assert_eq!(LogFormat::Plain, config.log_format);
}

#[test]
fn invalid_log_format_returns_clear_error() {
    let err = parse_runtime_config(
        ["--log-format".to_string(), "yaml".to_string()],
        None,
        None,
        None,
    )
    .expect_err("invalid log format should fail");

    assert!(err.to_string().contains("unsupported log format"));
}

#[test]
fn benchmark_config_can_be_selected_from_args() {
    let config = parse_runtime_config(
        [
            "--benchmark-prompt-lens".to_string(),
            "2,4".to_string(),
            "--benchmark-gen-lens".to_string(),
            "1,3".to_string(),
            "--benchmark-warmups".to_string(),
            "2".to_string(),
            "--benchmark-iterations".to_string(),
            "7".to_string(),
        ],
        None,
        None,
        None,
    )
    .unwrap();

    assert_eq!(vec![2, 4], config.benchmark_config.prompt_lens);
    assert_eq!(vec![1, 3], config.benchmark_config.gen_lens);
    assert_eq!(2, config.benchmark_config.warmups);
    assert_eq!(7, config.benchmark_config.iterations);
}

#[test]
fn invalid_benchmark_config_returns_clear_error() {
    let err = parse_runtime_config(
        ["--benchmark-iterations".to_string(), "0".to_string()],
        None,
        None,
        None,
    )
    .expect_err("zero iterations should fail");

    assert!(
        err.to_string()
            .contains("benchmark iterations must be greater than zero")
    );
}

#[test]
fn hyperparameters_default_to_main_constants() {
    let hyperparameters = Hyperparameters::default();

    assert_eq!(BLOCK_SIZE, hyperparameters.block_size);
    assert_eq!(BATCH_SIZE, hyperparameters.batch_size);
    assert_eq!(EMBED_DIM, hyperparameters.embed_dim);
    assert_eq!(NUM_HEADS, hyperparameters.num_heads);
    assert_eq!(HEAD_DIM, hyperparameters.head_dim);
    assert_eq!(NUM_LAYERS, hyperparameters.num_layers);
    assert_eq!(wide(0.1), hyperparameters.dropout);
    assert_eq!(wide(0.0001), hyperparameters.learning_rate);
    assert_eq!(TRAIN_STEPS, hyperparameters.train_steps);
    assert_eq!(EVAL_INTERVAL, hyperparameters.eval_interval);
    assert_eq!(GENERATE_TOKENS, hyperparameters.generate_tokens);
    assert_eq!(
        narrow(1.0),
        hyperparameters.minigpt_grad_clip_norm
    );
    assert_eq!(PREFETCH_BATCHES, hyperparameters.prefetch_batches);
}

#[test]
fn hyperparameter_args_take_precedence_over_env() {
    let config = parse_runtime_config_with_checkpoint(
        [
            "--block-size".to_string(),
            "64".to_string(),
            "--batch-size".to_string(),
            "4".to_string(),
            "--embed-dim".to_string(),
            "32".to_string(),
            "--num-heads".to_string(),
            "4".to_string(),
            "--num-layers".to_string(),
            "2".to_string(),
            "--learning-rate".to_string(),
            "0.001".to_string(),
        ],
        RuntimeEnv {
            block_size: Some("128".to_string()),
            batch_size: Some("16".to_string()),
            embed_dim: Some("64".to_string()),
            num_heads: Some("8".to_string()),
            num_layers: Some("3".to_string()),
            learning_rate: Some(wide_text("0.01")),
            ..RuntimeEnv::default()
        },
    )
    .unwrap();

    assert_eq!(64, config.hyperparameters.block_size);
    assert_eq!(4, config.hyperparameters.batch_size);
    assert_eq!(32, config.hyperparameters.embed_dim);
    assert_eq!(4, config.hyperparameters.num_heads);
    assert_eq!(8, config.hyperparameters.head_dim);
    assert_eq!(2, config.hyperparameters.num_layers);
    assert_eq!(wide(0.001), config.hyperparameters.learning_rate);
}

#[test]
fn hyperparameters_reject_invalid_head_split() {
    let err = parse_runtime_config(
        [
            "--embed-dim".to_string(),
            "30".to_string(),
            "--num-heads".to_string(),
            "8".to_string(),
        ],
        None,
        None,
        None,
    )
    .expect_err("invalid head split should fail");

    assert!(
        err.to_string()
            .contains("embed_dim must be divisible by num_heads")
    );
}

#[test]
fn backend_cuda_arg_requires_feature() {
    let err = parse_runtime_config(
        ["--backend".to_string(), "cuda".to_string()],
        None,
        None,
        None,
    )
    .expect_err("cuda backend should fail when feature is disabled");

    assert!(err.to_string().contains("cuda backend is not compiled in"));
}

#[test]
fn backend_can_be_selected_from_env() {
    let config = parse_runtime_config(Vec::<String>::new(), Some("cpu"), None, None).unwrap();

    assert_eq!(BackendChoice::Cpu, config.backend);
}

#[test]
fn backend_arg_takes_precedence_over_env() {
    let config = parse_runtime_config(
        ["--backend".to_string(), "cpu".to_string()],
        Some("cuda"),
        None,
        None,
    )
    .unwrap();

    assert_eq!(BackendChoice::Cpu, config.backend);
}

#[test]
fn input_path_can_be_selected_from_args() {
    let config = parse_runtime_config(
        ["--input".to_string(), "data/custom.txt".to_string()],
        None,
        None,
        None,
    )
    .unwrap();

    assert_eq!("data/custom.txt", config.input_path);
}

#[test]
fn input_arg_takes_precedence_over_env() {
    let config = parse_runtime_config(
        ["--input".to_string(), "data/from-arg.txt".to_string()],
        None,
        Some("data/from-env.txt"),
        None,
    )
    .unwrap();

    assert_eq!("data/from-arg.txt".to_string(), config.input_path);
}

#[test]
fn checkpoint_path_can_be_selected_from_args() {
    let config = parse_runtime_config_with_checkpoint(
        ["--checkpoint".to_string(), "checkpoints/custom".to_string()],
        RuntimeEnv::default(),
    )
    .unwrap();

    assert!(config.checkpoint_path.ends_with("checkpoints/custom"));
}

#[test]
fn checkpoint_arg_takes_precedence_over_env() {
    let config = parse_runtime_config_with_checkpoint(
        [
            "--checkpoint".to_string(),
            "checkpoints/from-arg".to_string(),
        ],
        RuntimeEnv {
            checkpoint: Some("checkpoints/from-env".to_string()),
            ..RuntimeEnv::default()
        },
    )
    .unwrap();

    assert!(config.checkpoint_path.ends_with("checkpoints/from-arg"));
}

#[test]
fn missing_checkpoint_arg_value_returns_clear_error() {
    let err = parse_runtime_config_with_checkpoint(
        ["--checkpoint".to_string()],
        RuntimeEnv::default(),
    )
    .expect_err("missing checkpoint value should fail");

    assert!(
        err.to_string()
            .contains("a value is required for '--checkpoint")
    );
}

#[test]
fn missing_backend_arg_value_returns_clear_error() {
    let err = parse_runtime_config(["--backend".to_string()], None, None, None)
        .expect_err("missing backend value should fail");

    assert!(
        err.to_string()
            .contains("a value is required for '--backend")
    );
}

#[test]
fn missing_input_arg_value_returns_clear_error() {
    let err = parse_runtime_config(["--input".to_string()], None, None, None)
        .expect_err("missing input value should fail");

    assert!(err.to_string().contains("a value is required for '--input"));
}

#[test]
fn invalid_backend_returns_clear_error() {
    let err = parse_runtime_config(
        ["--backend".to_string(), "metal".to_string()],
        None,
        None,
        None,
    )
    .expect_err("invalid backend should fail");

    assert!(err.to_string().contains("unsupported backend"));
}

#[test]
fn model_can_be_selected_from_args() {
    let config = parse_runtime_config(
        ["--model".to_string(), "single-attention".to_string()],
        None,
        None,
        None,
    )
    .unwrap();

    assert_eq!(ModelChoice::SingleAttention, config.model);
}

#[test]
fn multi_attention_model_can_be_selected_from_args() {
    let config = parse_runtime_config(
        ["--model".to_string(), "multi-attention".to_string()],
        None,
        None,
        None,
    )
    .unwrap();

    assert_eq!(ModelChoice::MultiAttention, config.model);
}

#[test]
fn minigpt_model_can_be_selected_from_args() {
    let config = parse_runtime_config(
        ["--model".to_string(), "minigpt".to_string()],
        None,
        None,
        None,
    )
    .unwrap();

    assert_eq!(ModelChoice::MiniGpt, config.model);
}

#[test]
fn mini_gpt_alias_can_be_selected_from_args() {
    let config = parse_runtime_config(
        ["--model".to_string(), "mini-gpt".to_string()],
        None,
        None,
        None,
    )
    .unwrap();

    assert_eq!(ModelChoice::MiniGpt, config.model);
}

#[test]
fn moe_gpt_model_can_be_selected_from_args() {
    let config = parse_runtime_config(
        ["--model".to_string(), "moe-gpt".to_string()],
        None,
        None,
        None,
    )
    .unwrap();

    assert_eq!(ModelChoice::MoeGpt, config.model);
}

#[test]
fn moe_hyperparameters_can_be_selected_from_args() {
    let config = parse_runtime_config(
        [
            "--model".to_string(),
            "moe-gpt".to_string(),
            "--moe-experts".to_string(),
            "6".to_string(),
            "--moe-top-k".to_string(),
            "3".to_string(),
            "--moe-aux-loss-weight".to_string(),
            "0.05".to_string(),
        ],
        None,
        None,
        None,
    )
    .unwrap();

    assert_eq!(6, config.hyperparameters.moe_experts);
    assert_eq!(3, config.hyperparameters.moe_top_k);
    assert_eq!(wide(0.05), config.hyperparameters.moe_aux_loss_weight);
}

#[test]
fn moe_hyperparameters_reject_invalid_top_k() {
    let err = parse_runtime_config(
        [
            "--model".to_string(),
            "moe-gpt".to_string(),
            "--moe-experts".to_string(),
            "2".to_string(),
            "--moe-top-k".to_string(),
            "3".to_string(),
        ],
        None,
        None,
        None,
    )
    .expect_err("top-k larger than expert count should fail");

    assert!(err.to_string().contains("moe_top_k must be <= moe_experts"));
}

#[test]
fn interactive_generation_can_be_selected_from_args() {
    let config = parse_runtime_config(
        [
            "--model".to_string(),
            "minigpt".to_string(),
            "--interactive-generate".to_string(),
        ],
        None,
        None,
        None,
    )
    .unwrap();

    assert_eq!(ModelChoice::MiniGpt, config.model);
    assert!(config.interactive);
}

#[test]
fn generation_benchmark_can_be_selected_from_args() {
    let config =
        parse_runtime_config(["--benchmark-generation".to_string()], None, None, None).unwrap();

    assert!(config.benchmark_generation);
}

#[test]
fn checkpoint_loading_can_be_selected_from_args() {
    let config =
        parse_runtime_config(["--load-checkpoint".to_string()], None, None, None).unwrap();

    assert!(config.load_checkpoint);
}

#[test]
fn latest_checkpoint_loading_can_be_selected_from_args() {
    let config =
        parse_runtime_config(["--load-latest-checkpoint".to_string()], None, None, None)
            .unwrap();

    assert!(config.load_latest_checkpoint);
}

#[test]
fn checkpoint_loading_modes_are_mutually_exclusive() {
    let err = parse_runtime_config(
        [
            "--load-checkpoint".to_string(),
            "--load-latest-checkpoint".to_string(),
        ],
        None,
        None,
        None,
    )
    .expect_err("checkpoint loading modes should conflict");

    assert!(
        err.to_string()
            .contains("--load-checkpoint and --load-latest-checkpoint are mutually exclusive")
    );
}

#[test]
fn compare_model_can_be_selected_from_args() {
    let config = parse_runtime_config(
        ["--model".to_string(), "compare".to_string()],
        None,
        None,
        None,
    )
    .unwrap();

    assert_eq!(ModelChoice::Compare, config.model);
    assert_eq!(
        vec![
            ModelChoice::Trivial,
            ModelChoice::SingleAttention,
            ModelChoice::MultiAttention,
            ModelChoice::MiniGpt,
            ModelChoice::MoeGpt
        ],
        config.model.comparison_models()
    );
}

#[test]
fn model_can_be_selected_from_env() {
    let config =
        parse_runtime_config(Vec::<String>::new(), None, None, Some("single-attention"))
            .unwrap();

    assert_eq!(ModelChoice::SingleAttention, config.model);
}

#[test]
fn model_arg_takes_precedence_over_env() {
    let config = parse_runtime_config(
        ["--model".to_string(), "trivial".to_string()],
        None,
        None,
        Some("single-attention"),
    )
    .unwrap();

    assert_eq!(ModelChoice::Trivial, config.model);
}

#[test]
fn missing_model_arg_value_returns_clear_error() {
    let err = parse_runtime_config(["--model".to_string()], None, None, None)
        .expect_err("missing model value should fail");

    assert!(err.to_string().contains("a value is required for '--model"));
}

#[test]
fn invalid_model_returns_clear_error() {
    let err = parse_runtime_config(
        ["--model".to_string(), "large".to_string()],
        None,
        None,
        None,
    )
    .expect_err("invalid model should fail");

    assert!(err.to_string().contains("unsupported model"));
}

#[test]
fn checkpoint_refusals_say_what_was_resolved() {
    let dirs = ResolvedDirs {
        root: Reading::Value("/work/checkpoints".to_string()),
        parent: Reading::Value("/work".to_string()),
    };
    let err = validate_checkpoint_path("../secret", "checkpoints", &dirs).unwrap_err();
    assert!(err.to_text().contains("/work/secret"));

    let unresolved = ResolvedDirs {
        root: Reading::Fault("no such directory".to_string()),
        parent: Reading::Fault("no such parent".to_string()),
    };
    let err = validate_checkpoint_path("mini_gpt", "checkpoints", &unresolved).unwrap_err();
    assert!(err.to_text().contains("failed to resolve root"));
    assert_eq!(Some("no such directory".to_string()), err.cause);

    let no_parent = ResolvedDirs {
        root: Reading::Value("/work/checkpoints".to_string()),
        parent: Reading::Fault("no such parent".to_string()),
    };
    let err = validate_checkpoint_path("a/mini_gpt", "checkpoints", &no_parent).unwrap_err();
    assert!(err.to_text().contains("failed to resolve parent"));
    assert_eq!(Some("no such parent".to_string()), err.cause);

    let err = validate_checkpoint_path("..", "checkpoints", &dirs).unwrap_err();
    assert!(err.to_text().contains("resolved: <none>"));
    assert_eq!(None, err.cause);
}

#[test]
fn a_directory_with_a_similar_name_is_not_the_checkpoint_directory() {
    let dirs = ResolvedDirs {
        root: Reading::Value("/work/checkpoints".to_string()),
        parent: Reading::Value("/work/checkpoints-old".to_string()),
    };

    assert!(validate_checkpoint_path("/work/checkpoints-old/x", "checkpoints", &dirs).is_err());
}

#[test]
fn models_know_what_they_need() {
    assert!(ModelChoice::MiniGpt.uses_bpe_tokenizer());
    assert!(!ModelChoice::Trivial.uses_bpe_tokenizer());
    assert!(ModelChoice::MoeGpt.is_checkpoint_backed());
    assert!(!ModelChoice::Compare.is_checkpoint_backed());
    assert!(ModelChoice::Compare.includes_generation_model());
    assert_eq!("moe-gpt", ModelChoice::MoeGpt.label());
    assert_eq!("cpu", BackendChoice::Cpu.label());
}

#[test]
fn every_setting_of_the_environment_is_read() {
    let env = RuntimeEnv {
        lr_warmup_steps: Some("3".to_string()),
        learning_rate_schedule: Some("warmup-linear".to_string()),
        sampling_policy: Some("sequential".to_string()),
        moe_aux_loss_weight: Some(wide_text("0.5")),
        checkpoint_interval: Some("10".to_string()),
        checkpoint_keep: Some("1".to_string()),
        log_format: Some("json".to_string()),
        benchmark_warmups: Some("0".to_string()),
        ..RuntimeEnv::default()
    };
    let config = parse_args_with_env(&[], env).unwrap();

    assert_eq!(3, config.hyperparameters.lr_warmup_steps);
    assert_eq!(
        LearningRateSchedule::WarmupLinear,
        config.hyperparameters.learning_rate_schedule
    );
    assert_eq!(SamplingPolicy::Sequential, config.hyperparameters.sampling_policy);
    assert_eq!(wide(0.5), config.hyperparameters.moe_aux_loss_weight);
    assert_eq!(10, config.hyperparameters.checkpoint_interval);
    assert_eq!(1, config.hyperparameters.checkpoint_keep);
    assert_eq!(LogFormat::Json, config.log_format);
    assert_eq!(0, config.benchmark_config.warmups);
}

#[test]
fn mid_run_checkpoints_have_to_be_kept() {
    expect_parse_error(
        &["--checkpoint-interval", "5", "--checkpoint-keep", "0"],
        "checkpoint_keep",
    );
    expect_parse_error(&["--moe-experts", "0"], "moe_experts must be greater than zero");
    expect_parse_error(&["--moe-top-k", "0"], "moe_top_k must be greater than zero");
    expect_parse_error(&["--moe-aux-loss-weight", "-1"], "moe_aux_loss_weight must be >= 0");
}

#[test]
fn unusable_inputs_are_refused() {
    expect_parse_error(&["--input", "http://example.com"], "invalid --input value 'http://example.com'");
}

fn settings_failure(args: &[&str], env: RuntimeEnv) -> (String, Option<String>) {
    let matches = command().try_get_matches_from(args.iter().copied()).unwrap();
    let cli = cli_args(&matches);
    let err = parse_settings(&cli, &env, &facts(&cli, &env)).unwrap_err();
    (err.to_text(), err.cause)
}

fn failed(message: &str, cause: &str) -> (String, Option<String>) {
    (message.to_string(), Some(cause.to_string()))
}

#[test]
fn refused_settings_say_what_they_come_of() {
    let none = RuntimeEnv::default;
    assert_eq!(
        failed("invalid server address 'nowhere'", "invalid socket address syntax"),
        settings_failure(&["--server-addr", "nowhere"], none())
    );
    assert_eq!(
        failed(
            "invalid RUSTY_GPT_BLOCK_SIZE value: wide",
            "invalid digit found in string"
        ),
        settings_failure(
            &[],
            RuntimeEnv {
                block_size: Some("wide".to_string()),
                ..none()
            }
        )
    );
    assert_eq!(
        failed("invalid RUSTY_GPT_DROPOUT value: half", "invalid float literal"),
        settings_failure(
            &[],
            RuntimeEnv {
                dropout: Some(wide_text("half")),
                ..none()
            }
        )
    );
    assert_eq!(
        failed(
            "invalid RUSTY_GPT_MINIGPT_GRAD_CLIP_NORM value: ",
            "cannot parse float from empty string"
        ),
        settings_failure(
            &[],
            RuntimeEnv {
                minigpt_grad_clip_norm: Some(narrow_text("")),
                ..none()
            }
        )
    );
    assert_eq!(
        failed(
            "invalid benchmark prompt lengths '8,x'",
            "invalid benchmark prompt lengths: invalid digit found in string"
        ),
        settings_failure(&["--benchmark-prompt-lens", "8,x"], none())
    );
    assert_eq!(
        failed(
            "invalid benchmark generation lengths '0'",
            "benchmark generation lengths values must be greater than zero"
        ),
        settings_failure(&["--benchmark-gen-lens", "0"], none())
    );
    assert_eq!(
        failed(
            "invalid benchmark warmups ''",
            "cannot parse integer from empty string"
        ),
        settings_failure(&["--benchmark-warmups", ""], none())
    );
    assert_eq!(
        failed(
            "invalid --input value 'ftp://x'",
            "unsupported input URI scheme 'ftp'; --input must be a local path or hf://<org>/<dataset>[@<revision>]"
        ),
        settings_failure(&["--input", "ftp://x"], none())
    );
    assert_eq!(
        None,
        settings_failure(&["--model", "large"], none()).1
    );
}

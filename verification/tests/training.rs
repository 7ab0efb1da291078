use rusty_gpt::loader::data::SamplingPolicy;
use rusty_gpt::model::persistence::{metadata_path, sha256_file_hex, CheckpointMetadata};
use rusty_gpt::model::training::{
    should_log_training_step, AfterStep, LearningRateSchedule, TrainingAction, TrainingLogContext,
    TrainingLoop, TrainingMetrics, TrainingParams,
};
use rusty_gpt::observability::{EventLogger, LogFormat, RuntimeEvent};
use rusty_gpt::reals::{Real, ShortReal};
use rusty_gpt::runtime_assets::admit_model_checkpoint;
use rusty_gpt::runtime_config::{Hyperparameters, ModelChoice};
use rusty_gpt::runtime_training::{
    after_run, check_benchmark_model, checkpoint_directory, checkpoint_metadata, final_save,
    git_commit, interrupted_checkpoint_path, periodic_save, plan_retention,
    prune_old_step_checkpoints, resolve_start, resume_load_path, saved_event,
    split_training_and_value_tokens, step_checkpoint_path, training_completed,
    training_failure_context, training_loaders, training_params, training_started, RunFacts,
    StartPoint,
};
use rusty_gpt::server::{ServedKind, ServedShape};
use std::path::Path;

fn wide(value: f64) -> Real {
    Real {
        bits: value.to_bits(),
    }
}

fn small_settings() -> Hyperparameters {
    Hyperparameters {
        block_size: 4,
        batch_size: 2,
        embed_dim: 8,
        num_heads: 2,
        head_dim: 4,
        num_layers: 1,
        dropout: wide(0.0),
        learning_rate: wide(1e-4),
        train_steps: 1,
        eval_interval: 0,
        generate_tokens: 4,
        minigpt_grad_clip_norm: ShortReal {
            bits: 1.0f32.to_bits(),
        },
        prefetch_batches: 2,
        checkpoint_interval: 0,
        checkpoint_keep: 3,
        ..Hyperparameters::default()
    }
}

fn facts() -> RunFacts {
    RunFacts {
        created_at_utc: "2026-05-14T00:00:00Z".to_string(),
        git_commit: Some("abc123".to_string()),
        input_source: "test".to_string(),
        vocab_size: 7,
        tokenizer_path: "tests/fixtures/tokenizer.json".to_string(),
        tokenizer_file: Some(b"abc".to_vec()),
        backend: "cpu".to_string(),
        train_tokens: 90,
        value_tokens: 10,
    }
}

fn metrics(loss: f64) -> TrainingMetrics {
    TrainingMetrics {
        final_value_loss: wide(loss),
        final_perplexity: wide(loss.exp()),
    }
}

fn params(steps: usize, eval_interval: usize) -> TrainingParams<fn(String)> {
    TrainingParams::new(
        wide(1e-4),
        steps,
        eval_interval,
        TrainingLogContext {
            backend: "cpu",
            model: "minigpt",
            logger: EventLogger::with_sink(LogFormat::Plain, drop_line),
        },
    )
}

fn drop_line(_line: String) {}

// ---------------------------------------------------------------------------------------
// The training loop
// ---------------------------------------------------------------------------------------

/// The steps that a run takes, those after which it saves, and those after which it logs.
fn run_to_the_end(run: &mut TrainingLoop) -> (Vec<usize>, Vec<usize>, Vec<usize>) {
    let (mut steps, mut saved, mut logged) = (Vec::new(), Vec::new(), Vec::new());
    loop {
        match run.next_step(false) {
            TrainingAction::RunStep { step } => {
                steps.push(step);
                let AfterStep { save, log } = run.step_done();
                saved.extend(save);
                if log {
                    logged.push(step);
                    run.step_logged(wide(step as f64));
                }
            }
            TrainingAction::Stop { interrupted } => {
                assert!(!interrupted);
                return (steps, saved, logged);
            }
        }
    }
}

#[test]
fn start_step_runs_only_remaining_steps_with_continuous_indices() {
    let params = params(4, 0)
        .with_periodic_checkpoint_interval(1)
        .with_start_step(2);
    let mut run = TrainingLoop::begin(&params);

    let (steps, periodic_steps, logged) = run_to_the_end(&mut run);
    let outcome = run.finish((), metrics(1.0));

    assert_eq!(vec![2, 3], steps);
    assert_eq!(4, outcome.steps_completed);
    assert!(!outcome.interrupted);
    assert_eq!(vec![3], periodic_steps);
    assert_eq!(vec![3], logged);
}

#[test]
fn an_interrupted_run_stops_before_its_next_step() {
    let mut run = TrainingLoop::begin(&params(10, 0));
    assert_eq!(TrainingAction::RunStep { step: 0 }, run.next_step(false));
    run.step_done();
    assert_eq!(
        TrainingAction::Stop { interrupted: true },
        run.next_step(true)
    );
    let outcome = run.finish((), metrics(1.0));

    assert_eq!(1, outcome.steps_completed);
    assert!(outcome.interrupted);
}

#[test]
fn steps_are_logged_at_the_interval_and_at_the_end() {
    assert!(should_log_training_step(0, 10, 5));
    assert!(!should_log_training_step(1, 10, 5));
    assert!(should_log_training_step(5, 10, 5));
    assert!(should_log_training_step(9, 10, 5));
    assert!(!should_log_training_step(0, 10, 0));
    assert!(should_log_training_step(9, 10, 0));
}

#[test]
fn the_last_logged_loss_is_the_final_one() {
    let mut run = TrainingLoop::begin(&params(3, 1));
    let (_, _, logged) = run_to_the_end(&mut run);

    assert_eq!(vec![0, 1, 2], logged);
    assert_eq!(wide(2.0), run.final_value_loss(None));

    let untrained = TrainingLoop::begin(&params(3, 1));
    assert_eq!(wide(0.25), untrained.final_value_loss(Some(wide(0.25))));
    let unknown = untrained.final_value_loss(None);
    assert!(f64::from_bits(unknown.bits).is_nan());
}

#[test]
fn every_setting_of_a_run_is_kept() {
    let settings = small_settings();
    let log_context = TrainingLogContext {
        backend: "cpu",
        model: "minigpt",
        logger: EventLogger::with_sink(LogFormat::Plain, drop_line),
    };
    let params = training_params(&settings, ModelChoice::MiniGpt, log_context, 3)
        .with_sampling_policy(SamplingPolicy::Sequential)
        .with_learning_rate_schedule(LearningRateSchedule::WarmupCosine, 2)
        .with_prefetch_batches(9);

    assert_eq!(settings.train_steps, params.steps);
    assert_eq!(settings.learning_rate, params.learning_rate);
    assert_eq!(Some(settings.minigpt_grad_clip_norm), params.grad_clipping);
    assert_eq!(3, params.start_step);
    assert_eq!(SamplingPolicy::Sequential, params.sampling_policy);
    assert_eq!(LearningRateSchedule::WarmupCosine, params.learning_rate_schedule);
    assert_eq!(2, params.lr_warmup_steps);
    assert_eq!(9, params.prefetch_batches);
}

// ---------------------------------------------------------------------------------------
// Splitting the corpus
// ---------------------------------------------------------------------------------------

#[test]
fn split_training_and_value_tokens_uses_last_ten_percent_for_value() {
    let tokens: Vec<usize> = (0..100).collect();

    let (training_tokens, value_tokens, value_block_size) =
        split_training_and_value_tokens(&tokens, 8).unwrap();

    assert_eq!((0..90).collect::<Vec<_>>(), training_tokens);
    assert_eq!((90..100).collect::<Vec<_>>(), value_tokens);
    assert_eq!(8, value_block_size);
}

#[test]
fn split_training_and_value_tokens_allows_shorter_value_block() {
    let tokens: Vec<usize> = (0..230).collect();

    let (_training_tokens, value_tokens, value_block_size) =
        split_training_and_value_tokens(&tokens, 128).unwrap();

    assert_eq!((207..230).collect::<Vec<_>>(), value_tokens);
    assert_eq!(22, value_block_size);
}

#[test]
fn short_corpora_are_refused() {
    let few: Vec<usize> = (0..10).collect();
    assert_eq!(
        "not enough input tokens for value loss: last 10% has 1 tokens, need at least 2",
        split_training_and_value_tokens(&few, 4).unwrap_err().to_text()
    );

    let some: Vec<usize> = (0..20).collect();
    assert_eq!(
        "not enough input tokens for training loss: first 90% has 18 tokens, need at least 33",
        split_training_and_value_tokens(&some, 32).unwrap_err().to_text()
    );
}

#[test]
fn loaders_hold_the_two_parts_of_the_corpus() {
    let tokens: Vec<usize> = (0..40).collect();
    let (training, value) = training_loaders(&tokens, &small_settings()).unwrap();

    assert_eq!((0..36).collect::<Vec<_>>(), training.tokens);
    assert_eq!((36..40).collect::<Vec<_>>(), value.tokens);
    assert_eq!(4, training.block_size);
    assert_eq!(3, value.block_size);
    assert_eq!(2, training.batch_size);
}

// ---------------------------------------------------------------------------------------
// Checkpoint paths
// ---------------------------------------------------------------------------------------

#[test]
fn interrupted_checkpoint_path_keeps_parent_and_tags_step() {
    let result = interrupted_checkpoint_path("checkpoints/mini_gpt", 42);
    assert_eq!("checkpoints/mini_gpt.interrupted-step-42.mpk", result);
}

#[test]
fn interrupted_checkpoint_path_handles_bare_filename() {
    let result = interrupted_checkpoint_path("mini_gpt", 7);
    assert_eq!("mini_gpt.interrupted-step-7.mpk", result);
}

#[test]
fn interrupted_checkpoint_path_is_idempotent_through_with_extension() {
    let result = interrupted_checkpoint_path("checkpoints/mini_gpt", 1);
    assert_eq!(
        Path::new("checkpoints/mini_gpt.interrupted-step-1.mpk"),
        Path::new(&result).with_extension("mpk")
    );
}

#[test]
fn step_checkpoint_path_keeps_parent_and_tags_step() {
    let result = step_checkpoint_path("checkpoints/mini_gpt", 100);
    assert_eq!("checkpoints/mini_gpt.step-100.mpk", result);
}

#[test]
fn step_checkpoint_path_is_idempotent_through_with_extension() {
    let result = step_checkpoint_path("checkpoints/mini_gpt", 200);
    assert_eq!(
        Path::new("checkpoints/mini_gpt.step-200.mpk"),
        Path::new(&result).with_extension("mpk")
    );
}

#[test]
fn resumed_files_are_named_in_full() {
    assert_eq!("checkpoints/mini_gpt.mpk", resume_load_path("checkpoints/mini_gpt"));
    assert_eq!(
        "checkpoints/mini_gpt.step-2.mpk",
        resume_load_path("checkpoints/mini_gpt.step-2")
    );
    assert_eq!(
        "checkpoints/mini_gpt.step-2.mpk",
        resume_load_path("checkpoints/mini_gpt.step-2.mpk")
    );
}

#[test]
fn the_directory_of_a_checkpoint_is_its_parent() {
    assert_eq!(
        Some("checkpoints".to_string()),
        checkpoint_directory("checkpoints/mini_gpt")
    );
    assert_eq!(None, checkpoint_directory("mini_gpt"));
    assert_eq!(
        "checkpoints/mini_gpt.metadata.json",
        metadata_path("checkpoints/mini_gpt")
    );
}

// ---------------------------------------------------------------------------------------
// Resuming
// ---------------------------------------------------------------------------------------

fn sidecar(completed_steps: usize) -> CheckpointMetadata {
    let mut metadata = checkpoint_metadata(&facts(), &small_settings(), metrics(1.0));
    metadata.completed_steps = completed_steps;
    metadata
}

#[test]
fn a_run_starts_where_its_checkpoint_ended() {
    assert_eq!(
        StartPoint::Resumed {
            load_path: "checkpoints/mini_gpt.mpk".to_string(),
            start_step: 2
        },
        resolve_start(Some("checkpoints/mini_gpt"), &Some(sidecar(2)), 4).unwrap()
    );
    assert_eq!(StartPoint::Fresh, resolve_start(None, &None, 4).unwrap());
}

#[test]
fn a_checkpoint_without_a_sidecar_cannot_be_resumed() {
    let err = resolve_start(Some("checkpoints/mini_gpt"), &None, 4)
        .unwrap_err()
        .to_text();

    assert_eq!(
        "cannot resume from \"checkpoints/mini_gpt.mpk\": missing metadata sidecar \
         \"checkpoints/mini_gpt.metadata.json\". --resume-from needs a checkpoint written with a \
         completed_steps sidecar (train one with this build first).",
        err
    );
}

#[test]
fn a_finished_checkpoint_is_not_resumed() {
    let err = resolve_start(Some("checkpoints/mini_gpt"), &Some(sidecar(4)), 4)
        .unwrap_err()
        .to_text();

    assert_eq!(
        "nothing to resume: checkpoint \"checkpoints/mini_gpt.mpk\" already completed 4 steps, \
         which is >= --train-steps 4. Raise --train-steps above 4 to continue training.",
        err
    );
}

#[test]
fn resumed_runs_reach_the_absolute_target() {
    let start_step = match resolve_start(Some("m"), &Some(sidecar(2)), 4).unwrap() {
        StartPoint::Resumed { start_step, .. } => start_step,
        StartPoint::Fresh => unreachable!(),
    };
    let mut run = TrainingLoop::begin(&params(4, 0).with_start_step(start_step));
    let (steps, _, _) = run_to_the_end(&mut run);

    assert_eq!(vec![2, 3], steps);
    assert_eq!(4, run.finish((), metrics(1.0)).steps_completed);
}

// ---------------------------------------------------------------------------------------
// Saving
// ---------------------------------------------------------------------------------------

#[test]
fn a_saved_checkpoint_is_admitted_again() {
    let settings = small_settings();
    let save = final_save("checkpoints/mini_gpt", &facts(), &settings, metrics(1.25), false, 1);
    let load = |shape: &ServedShape, tokenizer: Option<Vec<u8>>| {
        let sidecar = Some(save.metadata.clone());
        admit_model_checkpoint(shape, &save.path, &sidecar, "tokenizer.json", &tokenizer)
    };
    let shape = ServedShape {
        kind: ServedKind::MiniGpt,
        vocab_size: 7,
        block_size: 4,
        num_layers: 1,
        num_heads: 2,
        d_model: 8,
    };

    assert!(load(&shape, Some(b"abc".to_vec())).is_ok());
    let changed = load(&shape, Some(b"abd".to_vec())).unwrap_err().to_text();
    assert!(changed.contains("tokenizer.sha256"));
    let missing = load(&shape, None).unwrap_err().to_text();
    assert!(missing.contains("found missing file"));
    let wider = ServedShape { d_model: 16, ..shape };
    let refused = load(&wider, Some(b"abc".to_vec())).unwrap_err().to_text();
    assert!(refused.contains("model_shape.embed_dim expected 16, found 8"));
}

#[test]
fn a_whole_run_saves_under_its_own_name() {
    let save = final_save("checkpoints/mini_gpt", &facts(), &small_settings(), metrics(1.25), false, 1);

    assert_eq!("checkpoints/mini_gpt", save.path);
    assert_eq!(1, save.metadata.completed_steps);
    assert!(!save.metadata.interrupted);
    assert_eq!(None, save.metadata.interrupted_at_step);
    assert_eq!(wide(1.25), save.metadata.final_metrics.final_value_loss);
    assert_eq!(7, save.metadata.model_shape.vocab_size);
    assert_eq!(4, save.metadata.model_shape.block_size);
    assert_eq!("test", save.metadata.input_source);
    assert_eq!(Some("abc123".to_string()), save.metadata.git_commit);
    assert_eq!(
        Some("ba7816bf8f01cfea414140de5dae2223b00361a396177a9cb410ff61f20015ad".to_string()),
        save.metadata.tokenizer.sha256
    );
    match saved_event(&save, 12) {
        RuntimeEvent::CheckpointSaved { path, elapsed_ms } => {
            assert_eq!("checkpoints/mini_gpt.mpk", path);
            assert_eq!(12, elapsed_ms);
        }
        other => panic!("unexpected event {other:?}"),
    }
}

#[test]
fn an_interrupted_run_saves_beside_the_usual_place() {
    let save = final_save("checkpoints/mini_gpt", &facts(), &small_settings(), metrics(1.0), true, 3);

    assert_eq!("checkpoints/mini_gpt.interrupted-step-3.mpk", save.path);
    assert!(save.metadata.interrupted);
    assert_eq!(Some(3), save.metadata.interrupted_at_step);
    assert_eq!(3, save.metadata.completed_steps);

    let after = after_run(true, 3, true);
    assert!(!after.benchmark);
    assert_eq!(
        Some((
            "training interrupted at step 3; partial checkpoint saved. Exiting with code 130."
                .to_string(),
            130
        )),
        after.exit
    );
    let whole = after_run(false, 3, true);
    assert!(whole.benchmark);
    assert_eq!(None, whole.exit);
}

#[test]
fn periodic_checkpoints_record_their_step_and_interval() {
    let settings = Hyperparameters {
        checkpoint_interval: 2,
        ..small_settings()
    };
    let save = periodic_save("checkpoints/mini_gpt", &facts(), &settings, 2);

    assert_eq!("checkpoints/mini_gpt.step-2.mpk", save.path);
    assert_eq!(Some(2), save.metadata.step);
    assert_eq!(Some(2), save.metadata.interval);
    assert_eq!(2, save.metadata.completed_steps);
    assert_eq!("checkpoints/mini_gpt.step-2.metadata.json", metadata_path(&save.path));
}

#[test]
fn a_missing_tokenizer_file_has_no_digest() {
    assert_eq!(None, sha256_file_hex(&None));
    assert_eq!(
        Some("e3b0c44298fc1c149afbf4c8996fb92427ae41e4649b934ca495991b7852b855".to_string()),
        sha256_file_hex(&Some(Vec::new()))
    );
}

#[test]
fn the_commit_is_the_trimmed_line() {
    assert_eq!(Some("abc123".to_string()), git_commit(Some(b"abc123\n".to_vec())));
    assert_eq!(None, git_commit(Some(b" \n".to_vec())));
    assert_eq!(None, git_commit(Some(vec![0xff, 0xfe])));
    assert_eq!(None, git_commit(None));
}

#[test]
fn training_events_carry_the_settings() {
    match training_started(&small_settings(), ModelChoice::MiniGpt, "cpu", 7) {
        RuntimeEvent::TrainingStarted {
            backend,
            model,
            vocab_size,
            batch_size,
            block_size,
            total_steps,
        } => {
            assert_eq!("cpu", backend);
            assert_eq!("minigpt", model);
            assert_eq!((7, 2, 4, 1), (vocab_size, batch_size, block_size, total_steps));
        }
        other => panic!("unexpected event {other:?}"),
    }
    match training_completed(
        &small_settings(),
        ModelChoice::MoeGpt,
        "cpu",
        5,
        "1.0000".to_string(),
        "2.7183".to_string(),
    ) {
        RuntimeEvent::TrainingCompleted {
            model,
            total_steps,
            elapsed_ms,
            final_value_loss,
            final_perplexity,
            ..
        } => {
            assert_eq!("moe-gpt", model);
            assert_eq!((1, 5), (total_steps, elapsed_ms));
            assert_eq!(("1.0000", "2.7183"), (&final_value_loss[..], &final_perplexity[..]));
        }
        other => panic!("unexpected event {other:?}"),
    }
    assert_eq!(
        "failed to train minigpt model",
        training_failure_context(ModelChoice::MiniGpt)
    );
    assert_eq!(
        "failed to train trivial model",
        training_failure_context(ModelChoice::Trivial)
    );
}

#[test]
fn generation_benchmark_requires_minigpt_training_model() {
    let err = check_benchmark_model(true, ModelChoice::Trivial)
        .expect_err("benchmarking should require minigpt or compare");

    assert!(err
        .to_text()
        .contains("generation benchmarks require --model minigpt, moe-gpt, or compare"));
    assert!(check_benchmark_model(true, ModelChoice::Compare).is_ok());
    assert!(check_benchmark_model(false, ModelChoice::Trivial).is_ok());
}

// ---------------------------------------------------------------------------------------
// Retention
// ---------------------------------------------------------------------------------------

/// A directory after the checkpoints of `base` in it were pruned.
fn pruned(base: &str, keep: usize, names: &[&str]) -> Vec<String> {
    let names: Vec<String> = names.iter().map(|name| name.to_string()).collect();
    let mut gone: Vec<usize> = Vec::new();
    if let Some(plan) = prune_old_step_checkpoints(base, keep, &names) {
        for snapshot in &plan.pruned {
            gone.push(snapshot.entry);
            gone.extend(snapshot.sidecar);
        }
        gone.extend(plan.orphans.iter());
    }
    (0..names.len())
        .filter(|at| !gone.contains(at))
        .map(|at| names[at].clone())
        .collect()
}

#[test]
fn prune_old_step_checkpoints_keeps_newest_k_and_deletes_orphan_sidecars() {
    let names = pruned(
        "/tmp/prune/mini_gpt",
        2,
        &[
            "mini_gpt.step-100.mpk",
            "mini_gpt.step-100.metadata.json",
            "mini_gpt.step-200.mpk",
            "mini_gpt.step-200.metadata.json",
            "mini_gpt.step-300.mpk",
            "mini_gpt.step-300.metadata.json",
            "mini_gpt.step-50.metadata.json",
            "mini_gpt.mpk",
            "mini_gpt.metadata.json",
            "mini_gpt.interrupted-step-7.mpk",
            "mini_gpt.interrupted-step-7.metadata.json",
        ],
    );
    let names: std::collections::HashSet<String> = names.into_iter().collect();

    assert!(names.contains("mini_gpt.step-300.mpk"));
    assert!(names.contains("mini_gpt.step-300.metadata.json"));
    assert!(names.contains("mini_gpt.step-200.mpk"));
    assert!(names.contains("mini_gpt.step-200.metadata.json"));
    assert!(!names.contains("mini_gpt.step-100.mpk"));
    assert!(!names.contains("mini_gpt.step-100.metadata.json"));
    assert!(!names.contains("mini_gpt.step-50.metadata.json"));
    assert!(names.contains("mini_gpt.mpk"));
    assert!(names.contains("mini_gpt.metadata.json"));
    assert!(names.contains("mini_gpt.interrupted-step-7.mpk"));
    assert!(names.contains("mini_gpt.interrupted-step-7.metadata.json"));
}

#[test]
fn prune_old_step_checkpoints_with_keep_zero_is_noop() {
    let names = pruned("/tmp/prune-zero/mini_gpt", 0, &["mini_gpt.step-100.mpk"]);

    assert!(names.contains(&"mini_gpt.step-100.mpk".to_string()));
    assert!(prune_old_step_checkpoints(
        "/tmp/prune-zero/mini_gpt",
        0,
        &vec!["mini_gpt.step-100.mpk".to_string()]
    )
    .is_none());
}

#[test]
fn names_that_only_look_like_steps_are_left_alone() {
    let names = [
        "mini_gpt.step-x.mpk",
        "mini_gpt.step-.mpk",
        "mini_gpt.step--1.mpk",
        "mini_gpt.step-1.txt",
        "other.step-1.mpk",
        "mini_gpt.step-5.mpk",
    ];

    assert_eq!(names.to_vec(), pruned("mini_gpt", 1, &names));
}

#[test]
fn the_newest_checkpoint_is_kept_by_number() {
    let names: Vec<String> = ["m.step-9.mpk", "m.step-10.mpk", "m.step-8.mpk"]
        .iter()
        .map(|name| name.to_string())
        .collect();
    let plan = plan_retention(&names, "m", 1);

    assert_eq!(vec![1], plan.kept);
    let steps: Vec<usize> = plan.pruned.iter().map(|snapshot| snapshot.step).collect();
    assert_eq!(vec![9, 8], steps);
}

#[test]
fn pruning_again_removes_nothing() {
    let names: Vec<String> = [
        "m.step-3.mpk",
        "m.step-3.metadata.json",
        "m.step-12.mpk",
        "m.step-12.metadata.json",
        "m.step-7.mpk",
        "m.step-5.metadata.json",
        "m.mpk",
        "notes.txt",
    ]
    .iter()
    .map(|name| name.to_string())
    .collect();
    let plan = plan_retention(&names, "m", 2);
    let mut removed: Vec<usize> = plan.orphans.clone();
    for snapshot in &plan.pruned {
        removed.push(snapshot.entry);
        removed.extend(snapshot.sidecar);
    }
    removed.sort();
    assert_eq!(vec![0, 1, 5], removed);

    let left: Vec<String> = (0..names.len())
        .rev()
        .filter(|entry| !removed.contains(entry))
        .map(|entry| names[entry].clone())
        .collect();
    let again = plan_retention(&left, "m", 2);
    assert_eq!(2, again.kept.len());
    assert!(again.pruned.is_empty());
    assert!(again.orphans.is_empty());
}

#[test]
fn a_value_part_that_is_too_short_comes_first() {
    let err = split_training_and_value_tokens(&[1, 2, 3], usize::MAX).unwrap_err();
    assert_eq!(
        "not enough input tokens for value loss: last 10% has 0 tokens, need at least 2",
        err.to_text()
    );
}

#[test]
fn sidecars_go_with_their_checkpoints() {
    let names: Vec<String> = [
        "m.step-1.mpk",
        "m.step-1.metadata.json",
        "m.step-2.mpk",
        "m.step-2.metadata.json",
        "m.step-3.metadata.json",
        "m.mpk",
        "m.metadata.json",
        "m.interrupted-step-1.mpk",
        "m.interrupted-step-1.metadata.json",
        "other.step-1.mpk",
    ]
    .iter()
    .map(|name| name.to_string())
    .collect();
    let plan = prune_old_step_checkpoints("checkpoints/m", 1, &names).unwrap();
    let mut removed: Vec<usize> = plan.orphans.clone();
    for snapshot in &plan.pruned {
        removed.push(snapshot.entry);
        removed.extend(snapshot.sidecar);
    }
    removed.sort();

    assert_eq!(vec![0, 1, 4], removed);
    assert_eq!(None, prune_old_step_checkpoints("checkpoints/m", 0, &names));
}

use rusty_gpt::model::persistence::CheckpointMetadata;
use rusty_gpt::model::training::TrainingMetrics;
use rusty_gpt::reals::Real;
use rusty_gpt::runtime_config::{Hyperparameters, ModelChoice};
use rusty_gpt::runtime_training::{checkpoint_metadata, RunFacts};
use rusty_gpt::training_run::{first_action, next_action, RunAction, RunPlan, RunResult};

fn plan(model: ModelChoice, resume_from: Option<&str>, benchmark_generation: bool) -> RunPlan {
    RunPlan {
        model,
        resume_from: resume_from.map(str::to_string),
        train_steps: 4,
        benchmark_generation,
    }
}

fn sidecar(completed_steps: usize) -> CheckpointMetadata {
    let facts = RunFacts {
        created_at_utc: "2026-05-14T00:00:00Z".to_string(),
        git_commit: None,
        input_source: "test".to_string(),
        vocab_size: 7,
        tokenizer_path: "tokenizer.json".to_string(),
        tokenizer_file: None,
        backend: "cpu".to_string(),
        train_tokens: 90,
        value_tokens: 10,
    };
    let zero = Real { bits: 0 };
    let metrics = TrainingMetrics {
        final_value_loss: zero,
        final_perplexity: zero,
    };
    let mut metadata = checkpoint_metadata(&facts, &Hyperparameters::default(), metrics);
    metadata.completed_steps = completed_steps;
    metadata
}

/// The actions of a run whose training ends as told.
fn course(
    plan: &RunPlan,
    found: Option<usize>,
    interrupted: bool,
    steps_completed: usize,
) -> Result<Vec<RunAction>, String> {
    let mut actions = vec![first_action()];
    loop {
        let result = match actions.last().unwrap() {
            RunAction::Exit { .. } | RunAction::Finish => return Ok(actions),
            RunAction::ReadSidecar { .. } => RunResult::Sidecar(found.map(sidecar)),
            RunAction::Train { .. } => RunResult::Trained {
                interrupted,
                steps_completed,
            },
            _ => RunResult::Done,
        };
        let next = next_action(plan, actions.last().unwrap(), &result)
            .map_err(|err| err.to_text())?;
        actions.push(next);
    }
}

#[test]
fn teaching_models_only_train() {
    let actions = course(&plan(ModelChoice::Trivial, None, false), None, false, 4).unwrap();

    assert_eq!(
        vec![
            RunAction::LogStarted,
            RunAction::Train { start_step: 0 },
            RunAction::LogCompleted {
                interrupted: false,
                steps_completed: 4
            },
            RunAction::Finish,
        ],
        actions
    );
}

#[test]
fn a_resumed_run_loads_trains_measures_and_saves() {
    let resumed = plan(ModelChoice::MiniGpt, Some("checkpoints/mini_gpt"), true);
    let actions = course(&resumed, Some(2), false, 4).unwrap();

    let load_path = "checkpoints/mini_gpt.mpk".to_string();
    assert_eq!(
        vec![
            RunAction::LogStarted,
            RunAction::ReadSidecar {
                load_path: load_path.clone()
            },
            RunAction::LoadWeights {
                load_path,
                start_step: 2
            },
            RunAction::Train { start_step: 2 },
            RunAction::LogCompleted {
                interrupted: false,
                steps_completed: 4
            },
            RunAction::Benchmark { steps_completed: 4 },
            RunAction::Save {
                interrupted: false,
                steps_completed: 4
            },
            RunAction::Finish,
        ],
        actions
    );
}

#[test]
fn an_interrupted_run_saves_and_exits() {
    let actions = course(&plan(ModelChoice::MiniGpt, None, true), None, true, 3).unwrap();

    assert_eq!(
        &[
            RunAction::Save {
                interrupted: true,
                steps_completed: 3
            },
            RunAction::Exit {
                message: "training interrupted at step 3; partial checkpoint saved. Exiting with \
                          code 130."
                    .to_string(),
                code: 130
            },
        ],
        &actions[3..]
    );
}

#[test]
fn a_run_does_not_start_from_a_bad_checkpoint() {
    let resumed = plan(ModelChoice::MiniGpt, Some("m"), false);

    assert!(course(&resumed, None, false, 4)
        .unwrap_err()
        .starts_with("cannot resume from \"m.mpk\""));
    assert!(course(&resumed, Some(4), false, 4)
        .unwrap_err()
        .starts_with("nothing to resume: checkpoint \"m.mpk\""));
}

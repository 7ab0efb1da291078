use rusty_gpt::model::training::{
    TrainingAction, TrainingLogContext, TrainingLoop, TrainingParams,
};
use rusty_gpt::observability::{EventLogger, LogFormat};
use rusty_gpt::reals::{Real, ShortReal};
use rusty_gpt::runtime_signals::{
    interrupt_requested, request_interrupt, reset_interrupt, InterruptState,
};
use rusty_gpt::server::run_id::{is_run_id, new_run_id};
use rusty_gpt::server::training::{
    apply_event, apply_event_line, eta_basis, locate_run, manifest_path, manifest_record,
    read_event, stop_train, validate_request, EventFields, ManifestRead, RunEnd, RunLocation,
    RunSlot, TrainError, TrainErrorBody, TrainRequest, TrainRunRecord, TrainRunStatus,
    DEFAULT_RUNS_DIR,
};
use rusty_gpt::server::{check_request, GenerateErrorBody, GenerateRequest, ServerLimits};

fn wide(value: f64) -> Real {
    Real {
        bits: value.to_bits(),
    }
}

fn request() -> TrainRequest {
    TrainRequest {
        train_steps: 10,
        learning_rate: wide(1e-4),
        checkpoint_interval: 5,
        eval_interval: 5,
        resume_from: None,
    }
}

fn train_body(train_steps: usize) -> TrainRequest {
    TrainRequest {
        train_steps,
        learning_rate: wide(1e-4),
        checkpoint_interval: 100,
        eval_interval: 100,
        resume_from: None,
    }
}

fn generate_request() -> GenerateRequest {
    GenerateRequest {
        prompt: "ab".to_string(),
        max_tokens: 1,
        temperature: ShortReal {
            bits: 1.0f32.to_bits(),
        },
        top_k: None,
    }
}

fn progress_line(step: usize, total_steps: usize) -> String {
    format!(
        r#"{{"event":"training_progress","step":{step},"total_steps":{total_steps},"training_loss":2.0,"value_loss":3.0,"steps_per_second":1.0}}"#
    )
}

fn tell(slot: &mut RunSlot, line: &str) {
    apply_event_line(slot.record.as_mut().unwrap(), line);
}

/// Runs the steps of an accepted request until it is done or the interrupt is set.
fn run(slot: &mut RunSlot, interrupt: &InterruptState) {
    let steps = slot.record.as_ref().unwrap().total_steps;
    let mut end = RunEnd::Completed {
        steps_completed: steps,
    };
    for step in 0..steps {
        if interrupt_requested(interrupt) {
            end = RunEnd::Interrupted {
                steps_completed: step,
            };
            break;
        }
        tell(slot, &progress_line(step, steps));
    }
    if matches!(end, RunEnd::Completed { .. }) {
        tell(
            slot,
            r#"{"event":"checkpoint_saved","path":"/srv/rusty-gpt/checkpoints/mini_gpt.mpk","elapsed_ms":1}"#,
        );
        tell(
            slot,
            &format!(r#"{{"event":"training_completed","total_steps":{steps},"final_value_loss":3.0}}"#),
        );
    }
    slot.end_run(end, 20);
}

fn eta_seconds(record: &TrainRunRecord) -> Option<u64> {
    eta_basis(record).map(|basis| {
        (basis.remaining_steps as f64 / f64::from_bits(basis.steps_per_second.bits)).ceil() as u64
    })
}

// ---------------------------------------------------------------------------------------
// Requests
// ---------------------------------------------------------------------------------------

#[test]
fn rejects_train_steps_above_cap() {
    let limits = ServerLimits {
        max_train_steps: 9,
        ..ServerLimits::default()
    };

    let err = validate_request(&request(), &limits).expect_err("10 > 9 must be rejected");

    assert_eq!(400, err.status());
    assert_eq!(
        TrainErrorBody::TrainStepsOutOfRange {
            max_allowed: 9,
            requested: 10
        },
        err.body()
    );
}

#[test]
fn rejects_zero_train_steps() {
    let request = TrainRequest {
        train_steps: 0,
        ..request()
    };

    let err = validate_request(&request, &ServerLimits::default())
        .expect_err("zero steps must be rejected");

    assert_eq!(400, err.status());
}

#[test]
fn rejects_non_positive_and_non_finite_learning_rates() {
    for rate in [0.0, -1e-4, f64::NAN, f64::INFINITY] {
        let request = TrainRequest {
            learning_rate: wide(rate),
            ..request()
        };
        assert!(
            validate_request(&request, &ServerLimits::default()).is_err(),
            "learning_rate {rate} must be rejected"
        );
    }
}

#[test]
fn rejects_learning_rate_above_cap() {
    let limits = ServerLimits {
        max_train_learning_rate: wide(1e-5),
        ..ServerLimits::default()
    };

    let err = validate_request(&request(), &limits).expect_err("1e-4 > 1e-5 must be rejected");

    assert_eq!(400, err.status());
}

#[test]
fn accepts_a_request_exactly_at_both_caps() {
    let limits = ServerLimits {
        max_train_steps: 10,
        max_train_learning_rate: wide(1e-4),
        ..ServerLimits::default()
    };

    assert!(validate_request(&request(), &limits).is_ok());
}

#[test]
fn train_rejects_requests_above_the_configured_caps() {
    let limits = ServerLimits {
        max_train_steps: 10,
        max_train_learning_rate: wide(1e-3),
        ..ServerLimits::default()
    };
    let mut slot = RunSlot::new();

    let err = slot.train(train_body(11), &limits, true, 1).unwrap_err();
    assert_eq!(400, err.status());
    assert_eq!(
        TrainErrorBody::TrainStepsOutOfRange {
            max_allowed: 10,
            requested: 11
        },
        err.body()
    );

    let fast = TrainRequest {
        train_steps: 5,
        learning_rate: wide(1.0),
        checkpoint_interval: 0,
        eval_interval: 0,
        resume_from: None,
    };
    let err = slot.train(fast, &limits, true, 1).unwrap_err();
    assert_eq!(400, err.status());
    assert!(matches!(err.body(), TrainErrorBody::LearningRateOutOfRange { .. }));

    assert!(slot.record.is_none());
}

#[test]
fn train_is_unavailable_without_a_runner() {
    let err = RunSlot::new()
        .train(train_body(5), &ServerLimits::default(), false, 1)
        .unwrap_err();

    assert_eq!(503, err.status());
    assert_eq!(Some(30), err.retry_after());
    assert_eq!(
        TrainErrorBody::TrainingUnavailable {
            message: "training is not enabled on this server".to_string()
        },
        err.body()
    );
}

#[test]
fn faults_are_told_with_their_message() {
    let err = TrainError::Internal("disk full".to_string());
    assert_eq!(500, err.status());
    assert_eq!(None, err.retry_after());
    assert_eq!(
        TrainErrorBody::Internal {
            message: "disk full".to_string()
        },
        err.body()
    );
}

// ---------------------------------------------------------------------------------------
// Runs
// ---------------------------------------------------------------------------------------

#[test]
fn interrupted_run_does_not_poison_the_next_run() {
    let limits = ServerLimits::default();
    let mut slot = RunSlot::new();
    let mut interrupt = InterruptState::default();

    let first = slot.train(train_body(1_000), &limits, true, 10).unwrap();
    reset_interrupt(&mut interrupt);
    tell(&mut slot, &progress_line(0, 1_000));
    request_interrupt(&mut interrupt);
    run(&mut slot, &interrupt);
    let interrupted = slot.record.clone().unwrap();
    assert_eq!(TrainRunStatus::Interrupted, interrupted.status);
    assert_eq!(first.run_id, interrupted.run_id);
    assert!(interrupt_requested(&interrupt));

    let second = slot.train(train_body(3), &limits, true, 30).unwrap();
    reset_interrupt(&mut interrupt);
    assert_ne!(first.run_id, second.run_id);
    run(&mut slot, &interrupt);

    let completed = slot.record.unwrap();
    assert_eq!(
        TrainRunStatus::Completed,
        completed.status,
        "second run must not inherit the previous run's interrupt"
    );
    assert_eq!(3, completed.steps_completed);
}

#[test]
fn second_train_request_conflicts_with_the_active_run() {
    let limits = ServerLimits::default();
    let mut slot = RunSlot::new();
    let active = slot.train(train_body(1_000), &limits, true, 10).unwrap();
    tell(&mut slot, &progress_line(0, 1_000));

    let err = slot.train(train_body(5), &limits, true, 11).unwrap_err();

    assert_eq!(409, err.status());
    assert!(err.retry_after().is_some());
    assert_eq!(
        TrainErrorBody::RunInProgress {
            run_id: active.run_id.clone()
        },
        err.body()
    );
    assert_eq!(active.run_id, slot.record.unwrap().run_id, "no second run may start");
}

#[test]
fn generate_is_unavailable_while_a_run_is_active() {
    let limits = ServerLimits {
        rate_limit_rps: 0,
        ..ServerLimits::default()
    };
    let mut slot = RunSlot::new();
    slot.train(train_body(1_000), &limits, true, 10).unwrap();
    tell(&mut slot, &progress_line(0, 1_000));

    let err = check_request(&generate_request(), &limits, slot.is_running()).unwrap_err();

    assert_eq!(503, err.status());
    assert_eq!(
        GenerateErrorBody::TrainingInProgress {
            retry_after_seconds: 30
        },
        err.body()
    );
    assert_eq!(Some(30), err.retry_after());

    slot.end_run(RunEnd::Interrupted { steps_completed: 1 }, 20);
    assert!(check_request(&generate_request(), &limits, slot.is_running()).is_ok());
}

#[test]
fn completed_run_writes_its_manifest_and_swaps_the_served_model() {
    let mut slot = RunSlot::new();
    let accepted = slot
        .train(train_body(3), &ServerLimits::default(), true, 10)
        .unwrap();
    let idle = InterruptState::default();
    run(&mut slot, &idle);
    let record = slot.record.unwrap();

    assert_eq!(accepted.run_id, record.run_id);
    assert_eq!(TrainRunStatus::Completed, record.status);
    assert_eq!(3, record.steps_completed);
    assert_eq!(3, record.total_steps);
    assert_eq!(Some(wide(3.0)), record.value_loss);
    assert_eq!(
        vec!["mini_gpt.mpk"],
        record.checkpoints,
        "checkpoints are recorded as basenames so the status endpoint cannot leak paths"
    );
    assert_eq!(3, record.request.train_steps);
    assert!(record.started_at_unix > 0);
    assert!(record.ended_at_unix.unwrap() > 0);
    assert!(record.error.is_none(), "no error key on success");
}

#[test]
fn only_a_completed_run_is_served() {
    let limits = ServerLimits::default();
    for (end, serve, status) in [
        (RunEnd::Completed { steps_completed: 10 }, true, TrainRunStatus::Completed),
        (RunEnd::Interrupted { steps_completed: 4 }, false, TrainRunStatus::Interrupted),
        (
            RunEnd::Failed {
                error: "out of memory".to_string(),
            },
            false,
            TrainRunStatus::Failed,
        ),
    ] {
        let mut slot = RunSlot::new();
        slot.start_run(request(), &limits, true, "abc".to_string(), 1).unwrap();
        assert_eq!(serve, slot.end_run(end, 2));
        let record = slot.record.unwrap();
        assert_eq!(status, record.status);
        assert_eq!(Some(2), record.ended_at_unix);
        assert_eq!(status == TrainRunStatus::Failed, record.error.is_some());
    }
}

#[test]
fn a_run_that_cannot_be_written_down_is_abandoned() {
    let mut slot = RunSlot::new();
    slot.start_run(request(), &ServerLimits::default(), true, "abc".to_string(), 1)
        .unwrap();
    let err = slot.abandon("read-only");

    assert_eq!(500, err.status());
    assert!(!slot.is_running());
}

#[test]
fn a_run_is_stopped_by_its_own_id() {
    let mut slot = RunSlot::new();
    let mut interrupt = InterruptState::default();
    let accepted = slot
        .train(train_body(5), &ServerLimits::default(), true, 1)
        .unwrap();

    assert_eq!(404, stop_train(&slot, "other", &mut interrupt));
    assert!(!interrupt_requested(&interrupt));
    assert_eq!(202, stop_train(&slot, &accepted.run_id, &mut interrupt));
    assert!(interrupt_requested(&interrupt));
}

#[test]
fn a_stop_is_heard_at_the_next_step_and_can_be_asked_again() {
    let mut slot = RunSlot::new();
    let mut interrupt = InterruptState::default();
    let accepted = slot
        .train(train_body(5), &ServerLimits::default(), true, 1)
        .unwrap();
    let context = TrainingLogContext {
        backend: "cpu",
        model: "minigpt",
        logger: EventLogger::with_sink(LogFormat::Json, |_line: String| {}),
    };
    let mut run = TrainingLoop::begin(&TrainingParams::new(wide(1e-4), 5, 5, context));
    assert_eq!(
        TrainingAction::RunStep { step: 0 },
        run.next_step(interrupt_requested(&interrupt))
    );
    run.step_done();

    assert_eq!(202, stop_train(&slot, &accepted.run_id, &mut interrupt));
    let once = interrupt;
    assert_eq!(202, stop_train(&slot, &accepted.run_id, &mut interrupt));
    assert_eq!(once, interrupt);
    assert_eq!(
        TrainingAction::Stop { interrupted: true },
        run.next_step(interrupt_requested(&interrupt))
    );
    assert_eq!(1, run.steps_completed);
}

// ---------------------------------------------------------------------------------------
// Ids and manifests
// ---------------------------------------------------------------------------------------

#[test]
fn manifest_path_is_run_id_scoped() {
    assert_eq!(
        "checkpoints/runs/run-abc.json",
        manifest_path(DEFAULT_RUNS_DIR, "abc")
    );
}

#[test]
fn new_ids_are_run_ids() {
    let first = new_run_id();
    let second = new_run_id();

    assert!(is_run_id(&first));
    assert_ne!(first, second);
    assert_eq!(36, first.len());
    assert_eq!(Some('4'), first.chars().nth(14));
    assert!(is_run_id("6f1b6e6a-0000-4000-8000-000000000000"));
    assert!(!is_run_id("not-a-uuid"));
    assert!(!is_run_id("../../etc/passwd"));
    assert!(!is_run_id(""));
}

#[test]
fn missing_manifest_is_not_found_rather_than_an_error() {
    let err = manifest_record("does-not-exist", ManifestRead::Missing).unwrap_err();

    assert_eq!(404, err.status());
    assert_eq!(
        TrainErrorBody::RunNotFound {
            run_id: "does-not-exist".to_string()
        },
        err.body()
    );
}

#[test]
fn manifests_that_cannot_be_read_are_faults() {
    let unreadable = manifest_record("x", ManifestRead::Unreadable("denied".to_string()));
    assert_eq!(
        TrainErrorBody::Internal {
            message: "failed to read run manifest: denied".to_string()
        },
        unreadable.unwrap_err().body()
    );
    let malformed = manifest_record("x", ManifestRead::Malformed("eof".to_string()));
    assert_eq!(
        TrainErrorBody::Internal {
            message: "run manifest could not be parsed: eof".to_string()
        },
        malformed.unwrap_err().body()
    );
}

#[test]
fn status_of_an_older_run_is_served_from_its_manifest() {
    let limits = ServerLimits::default();
    let idle = InterruptState::default();
    let mut slot = RunSlot::new();

    let first = slot.train(train_body(2), &limits, true, 1).unwrap();
    run(&mut slot, &idle);
    let on_disk = slot.record.clone().unwrap();
    assert_eq!(RunLocation::Live, locate_run(&slot, "runs", &first.run_id));

    let second = slot.train(train_body(3), &limits, true, 2).unwrap();
    run(&mut slot, &idle);
    assert_ne!(first.run_id, second.run_id);
    assert_eq!(second.run_id, slot.record.as_ref().unwrap().run_id);

    assert_eq!(
        RunLocation::OnDisk {
            manifest: format!("runs/run-{}.json", first.run_id)
        },
        locate_run(&slot, "runs", &first.run_id)
    );
    let older = manifest_record(&first.run_id, ManifestRead::Record(on_disk)).unwrap();
    assert_eq!(first.run_id, older.run_id);
    assert_eq!(TrainRunStatus::Completed, older.status);
    assert_eq!(2, older.steps_completed, "the first run's own progress");
}

#[test]
fn status_of_an_unknown_run_is_not_found() {
    let slot = RunSlot::new();
    let missing = "6f1b6e6a-0000-4000-8000-000000000000";

    assert_eq!(
        RunLocation::OnDisk {
            manifest: format!("runs/run-{missing}.json")
        },
        locate_run(&slot, "runs", missing)
    );
    for hostile in ["not-a-uuid", "../../etc/passwd", "../secrets"] {
        assert_eq!(RunLocation::Unknown, locate_run(&slot, "runs", hostile));
    }
}

// ---------------------------------------------------------------------------------------
// Progress
// ---------------------------------------------------------------------------------------

#[test]
fn progress_events_fold_into_the_record() {
    let mut record = TrainRunRecord::started("abc".to_string(), request(), 1);

    apply_event_line(
        &mut record,
        r#"{"event":"training_progress","step":4,"total_steps":10,"training_loss":2.5,"value_loss":3.5,"steps_per_second":2.0}"#,
    );
    apply_event_line(
        &mut record,
        r#"{"event":"checkpoint_saved","path":"/srv/rusty-gpt/checkpoints/mini_gpt.step-5.mpk","elapsed_ms":1}"#,
    );
    apply_event_line(&mut record, "not json at all");

    assert_eq!(5, record.steps_completed);
    assert_eq!(10, record.total_steps);
    assert_eq!(Some(wide(2.5)), record.training_loss);
    assert_eq!(Some(wide(3.5)), record.value_loss);
    assert_eq!(Some(wide(2.0)), record.steps_per_second);
    assert_eq!(
        vec!["mini_gpt.step-5.mpk"],
        record.checkpoints,
        "checkpoint paths are recorded as basenames, never absolute paths"
    );
}

#[test]
fn events_are_read_field_by_field() {
    let fields = read_event(
        r#"{"event":"training_completed","total_steps":10,"final_value_loss":1.5,"path":7,"step":"x"}"#,
    );

    assert_eq!(Some("training_completed".to_string()), fields.event);
    assert_eq!(Some(10), fields.total_steps);
    assert_eq!(Some(wide(1.5)), fields.final_value_loss);
    assert_eq!(None, fields.path);
    assert_eq!(None, fields.step);
    assert_eq!(None, read_event("[1, 2]").event);
    assert_eq!(None, read_event("").event);
}

#[test]
fn other_events_leave_the_record_alone() {
    let mut record = TrainRunRecord::started("abc".to_string(), request(), 1);
    let before = record.clone();
    let fields = EventFields {
        event: Some("benchmark_skipped".to_string()),
        step: Some(9),
        total_steps: Some(9),
        training_loss: Some(wide(1.0)),
        value_loss: None,
        steps_per_second: None,
        final_value_loss: None,
        path: Some("x".to_string()),
    };
    apply_event(&mut record, &fields);

    assert_eq!(before, record);
}

fn running_record(steps_completed: usize, steps_per_second: Option<f64>) -> TrainRunRecord {
    TrainRunRecord {
        steps_completed,
        steps_per_second: steps_per_second.map(wide),
        ..TrainRunRecord::started("abc".to_string(), request(), 1)
    }
}

#[test]
fn eta_is_remaining_steps_over_reported_throughput() {
    assert_eq!(Some(3), eta_seconds(&running_record(4, Some(2.0))));
}

#[test]
fn eta_is_absent_without_usable_throughput() {
    assert_eq!(None, eta_seconds(&running_record(4, None)));
    assert_eq!(
        None,
        eta_seconds(&running_record(4, Some(0.0))),
        "a zero rate would divide to infinity"
    );
}

#[test]
fn eta_is_absent_once_the_run_is_terminal() {
    for status in [
        TrainRunStatus::Completed,
        TrainRunStatus::Interrupted,
        TrainRunStatus::Failed,
    ] {
        let record = TrainRunRecord {
            status,
            ..running_record(4, Some(2.0))
        };
        assert_eq!(None, eta_seconds(&record), "{status:?} has nothing left");
    }
}

#[test]
fn status_polls_a_run_through_to_completion() {
    let mut slot = RunSlot::new();
    let accepted = slot
        .train(train_body(2), &ServerLimits::default(), true, 10)
        .unwrap();
    let idle = InterruptState::default();
    run(&mut slot, &idle);
    let final_status = slot.record.unwrap();

    assert_eq!(accepted.run_id, final_status.run_id);
    assert_eq!(2, final_status.steps_completed);
    assert_eq!(2, final_status.total_steps);
    assert_eq!(Some(wide(3.0)), final_status.value_loss, "final metrics populate");
    assert_eq!(Some(wide(2.0)), final_status.training_loss);
    assert!(final_status.ended_at_unix.unwrap() > 0);
    assert!(
        eta_basis(&final_status).is_none(),
        "a finished run has nothing left to wait for"
    );
    assert_eq!(
        vec!["mini_gpt.mpk"],
        final_status.checkpoints,
        "basenames only, so that no directory is told"
    );
}

#[test]
fn status_of_a_running_run_reports_eta_from_reported_throughput() {
    let mut slot = RunSlot::new();
    slot.train(train_body(1_000), &ServerLimits::default(), true, 10)
        .unwrap();
    tell(&mut slot, &progress_line(0, 1_000));
    let running = slot.record.clone().unwrap();

    assert_eq!(TrainRunStatus::Running, running.status);
    assert_eq!(Some(wide(1.0)), running.steps_per_second);
    assert_eq!(
        Some(1_000 - running.steps_completed as u64),
        eta_seconds(&running)
    );

    slot.end_run(RunEnd::Interrupted { steps_completed: 1 }, 20);
    let stopped = slot.record.unwrap();
    assert_eq!(TrainRunStatus::Interrupted, stopped.status);
    assert_eq!(None, eta_seconds(&stopped));
}

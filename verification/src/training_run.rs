//! The course of a training run: which action follows which, from the first log line to the
//! saved checkpoint.
use vstd::prelude::*;

use crate::failure::Failure;
use crate::model::persistence::CheckpointMetadata;
use crate::runtime_config;
use crate::runtime_config::ModelChoice;
use crate::runtime_signals::INTERRUPTED_EXIT_CODE;
use crate::runtime_training;
use crate::runtime_training::StartPoint;

verus! {

/// What a run was asked for.
#[derive(Debug)]
pub struct RunPlan {
    pub model: ModelChoice,
    /// The checkpoint to go on from.
    pub resume_from: Option<String>,
    /// The step at which the run is complete, counted from the very first.
    pub train_steps: usize,
    pub benchmark_generation: bool,
}

/// What a run has to do now.
#[derive(Debug, PartialEq, Eq)]
pub enum RunAction {
    /// Log that the run starts.
    LogStarted,
    /// Read what is recorded beside the checkpoint at `load_path`.
    ReadSidecar { load_path: String },
    /// Load the weights of that checkpoint into the model, after holding them to its sidecar.
    LoadWeights { load_path: String, start_step: usize },
    /// Train from `start_step` on.
    Train { start_step: usize },
    /// Log what came of it.
    LogCompleted { interrupted: bool, steps_completed: usize },
    /// Measure the generation of the trained model.
    Benchmark { steps_completed: usize },
    /// Save the checkpoint of the run.
    Save { interrupted: bool, steps_completed: usize },
    /// Tell why, and end the process with the code.
    Exit { message: String, code: i32 },
    /// Nothing is left to do.
    Finish,
}

/// What came of an action.
#[derive(Debug)]
pub enum RunResult {
    /// It was done.
    Done,
    /// The sidecar, where there is one.
    Sidecar(Option<CheckpointMetadata>),
    /// The training ended, early where it was interrupted.
    Trained { interrupted: bool, steps_completed: usize },
}

/// Whether `result` can come of `action`. The last action of a run has none.
pub open spec fn answers(action: RunAction, result: RunResult) -> bool {
    match action {
        RunAction::ReadSidecar { .. } => result is Sidecar,
        RunAction::Train { .. } => result is Trained,
        RunAction::Exit { .. } => false,
        RunAction::Finish => false,
        _ => result is Done,
    }
}

/// Where a run goes after its first log line: to the checkpoint that it resumes, where its model
/// keeps checkpoints, or straight to the training.
pub open spec fn follows_start(plan: RunPlan, next: RunAction) -> bool {
    match plan.resume_from {
        Some(p) if runtime_config::checkpoint_backed(plan.model) => {
            next matches RunAction::ReadSidecar { load_path } && load_path@
                == runtime_training::resume_file(p@)
        },
        _ => next == (RunAction::Train { start_step: 0 }),
    }
}

/// Where a run goes with the sidecar of its checkpoint in hand: to the weights, or nowhere.
pub open spec fn follows_sidecar(
    plan: RunPlan,
    load_path: Seq<char>,
    sidecar: Option<CheckpointMetadata>,
    r: Result<RunAction, Failure>,
) -> bool {
    match sidecar {
        None => r matches Err(e) && e.cause is None && e.message@ == runtime_training::no_sidecar_text(load_path),
        Some(m) => match runtime_training::resume_step(m, plan.train_steps) {
            None => r matches Err(e) && e.cause is None && e.message@ == runtime_training::nothing_to_resume_text(
                load_path,
                m.completed_steps,
                plan.train_steps,
            ),
            Some(step) => r matches Ok(RunAction::LoadWeights { load_path: p, start_step })
                && p@ == load_path && start_step == step,
        },
    }
}

/// Where a run goes once its end is logged. Only a model that keeps checkpoints is saved, and
/// only a whole run is measured before.
pub open spec fn after_completion(
    plan: RunPlan,
    interrupted: bool,
    steps_completed: usize,
) -> RunAction {
    if !runtime_config::checkpoint_backed(plan.model) {
        RunAction::Finish
    } else if !interrupted && plan.benchmark_generation {
        RunAction::Benchmark { steps_completed }
    } else {
        RunAction::Save { interrupted, steps_completed }
    }
}

/// Where a run goes once its checkpoint is saved: an interrupted one ends the process.
pub open spec fn follows_save(
    interrupted: bool,
    steps_completed: usize,
    next: RunAction,
) -> bool {
    if interrupted {
        next matches RunAction::Exit { message, code } && message@
            == runtime_training::interrupted_text(steps_completed) && code == INTERRUPTED_EXIT_CODE
    } else {
        next == RunAction::Finish
    }
}

/// Whether `r` is what a run does after `done`, of which `result` came.
pub open spec fn follows(
    plan: RunPlan,
    done: RunAction,
    result: RunResult,
    r: Result<RunAction, Failure>,
) -> bool {
    match (done, result) {
        (RunAction::LogStarted, _) => r is Ok && follows_start(plan, r->Ok_0),
        (RunAction::ReadSidecar { load_path }, RunResult::Sidecar(sidecar)) => follows_sidecar(
            plan,
            load_path@,
            sidecar,
            r,
        ),
        (RunAction::LoadWeights { start_step, .. }, _) => r is Ok && r->Ok_0 == (
        RunAction::Train { start_step }),
        (RunAction::Train { .. }, RunResult::Trained { interrupted, steps_completed }) => r is Ok
            && r->Ok_0 == (RunAction::LogCompleted { interrupted, steps_completed }),
        (RunAction::LogCompleted { interrupted, steps_completed }, _) => r is Ok && r->Ok_0
            == after_completion(plan, interrupted, steps_completed),
        (RunAction::Benchmark { steps_completed }, _) => r is Ok && r->Ok_0 == (RunAction::Save {
            interrupted: false,
            steps_completed,
        }),
        (RunAction::Save { interrupted, steps_completed }, _) => r is Ok && follows_save(
            interrupted,
            steps_completed,
            r->Ok_0,
        ),
        _ => false,
    }
}

/// What a run does first.
pub fn first_action() -> (action: RunAction)
    ensures
        action == RunAction::LogStarted,
{
    RunAction::LogStarted
}

fn after_start(plan: &RunPlan) -> (next: RunAction)
    ensures
        follows_start(*plan, next),
{
    match &plan.resume_from {
        Some(p) => {
            if plan.model.is_checkpoint_backed() {
                return RunAction::ReadSidecar {
                    load_path: runtime_training::resume_load_path(p.as_str()),
                };
            }
        },
        None => {},
    }
    RunAction::Train { start_step: 0 }
}

fn after_sidecar(
    plan: &RunPlan,
    load_path: &String,
    sidecar: &Option<CheckpointMetadata>,
) -> (r: Result<RunAction, Failure>)
    requires
        plan.resume_from is Some,
        load_path@ == runtime_training::resume_file(plan.resume_from->Some_0@),
    ensures
        follows_sidecar(*plan, load_path@, *sidecar, r),
{
    let resume_from = match &plan.resume_from {
        Some(p) => Some(p.as_str()),
        None => None,
    };
    match runtime_training::resolve_start(resume_from, sidecar, plan.train_steps) {
        Ok(StartPoint::Resumed { load_path, start_step }) => Ok(
            RunAction::LoadWeights { load_path, start_step },
        ),
        Ok(StartPoint::Fresh) => Ok(RunAction::Train { start_step: 0 }),
        Err(e) => Err(e),
    }
}

fn after_save(interrupted: bool, steps_completed: usize) -> (next: RunAction)
    ensures
        follows_save(interrupted, steps_completed, next),
{
    match runtime_training::after_run(interrupted, steps_completed, false).exit {
        Some((message, code)) => RunAction::Exit { message, code },
        None => RunAction::Finish,
    }
}

/// What a run does next. `done` is what it did, and `result` what came of that.
pub fn next_action(plan: &RunPlan, done: &RunAction, result: &RunResult) -> (r: Result<
    RunAction,
    Failure,
>)
    requires
        plan.model != ModelChoice::Compare,
        answers(*done, *result),
        done matches RunAction::ReadSidecar { load_path } ==> plan.resume_from is Some && load_path@
            == runtime_training::resume_file(plan.resume_from->Some_0@),
    ensures
        follows(*plan, *done, *result, r),
{
    match done {
        RunAction::LogStarted => Ok(after_start(plan)),
        RunAction::ReadSidecar { load_path } => match result {
            RunResult::Sidecar(sidecar) => after_sidecar(plan, load_path, sidecar),
            _ => Ok(RunAction::Finish),
        },
        RunAction::LoadWeights { start_step, .. } => Ok(
            RunAction::Train { start_step: *start_step },
        ),
        RunAction::Train { .. } => match result {
            RunResult::Trained { interrupted, steps_completed } => Ok(
                RunAction::LogCompleted {
                    interrupted: *interrupted,
                    steps_completed: *steps_completed,
                },
            ),
            _ => Ok(RunAction::Finish),
        },
        RunAction::LogCompleted { interrupted, steps_completed } => {
            if !plan.model.is_checkpoint_backed() {
                return Ok(RunAction::Finish);
            }
            if runtime_training::after_run(
                *interrupted,
                *steps_completed,
                plan.benchmark_generation,
            ).benchmark {
                return Ok(RunAction::Benchmark { steps_completed: *steps_completed });
            }
            Ok(RunAction::Save { interrupted: *interrupted, steps_completed: *steps_completed })
        },
        RunAction::Benchmark { steps_completed } => Ok(
            RunAction::Save { interrupted: false, steps_completed: *steps_completed },
        ),
        RunAction::Save { interrupted, steps_completed } => Ok(
            after_save(*interrupted, *steps_completed),
        ),
        _ => Ok(RunAction::Finish),
    }
}

/// How far a run has come. Each action lies farther on than the one before it.
pub open spec fn progress(action: RunAction) -> nat {
    match action {
        RunAction::LogStarted => 0,
        RunAction::ReadSidecar { .. } => 1,
        RunAction::LoadWeights { .. } => 2,
        RunAction::Train { .. } => 3,
        RunAction::LogCompleted { .. } => 4,
        RunAction::Benchmark { .. } => 5,
        RunAction::Save { .. } => 6,
        RunAction::Exit { .. } => 7,
        RunAction::Finish => 7,
    }
}

/// A run comes to an end: every action leads farther on, and none beyond the last.
pub proof fn law_runs_come_to_an_end(
    plan: RunPlan,
    done: RunAction,
    result: RunResult,
    next: RunAction,
)
    requires
        follows(plan, done, result, Ok(next)),
    ensures
        progress(done) < progress(next) <= 7,
{
}

/// A whole course of actions: each follows the one before it, and the last is the end of a run.
pub open spec fn is_course(plan: RunPlan, actions: Seq<RunAction>, results: Seq<RunResult>) -> bool {
    &&& actions.len() == results.len() + 1
    &&& actions[0] == RunAction::LogStarted
    &&& forall|k: int|
        #![trigger results[k]]
        0 <= k < results.len() ==> follows(plan, actions[k], results[k], Ok(actions[k + 1]))
    &&& actions.last() is Finish || actions.last() is Exit
}

proof fn lemma_course_increases(
    plan: RunPlan,
    actions: Seq<RunAction>,
    results: Seq<RunResult>,
    i: int,
    j: int,
)
    requires
        is_course(plan, actions, results),
        0 <= i <= j < actions.len(),
    ensures
        progress(actions[i]) + (j - i) <= progress(actions[j]),
    decreases j - i,
{
    if i < j {
        lemma_course_increases(plan, actions, results, i, j - 1);
        let result = results[j - 1];
        assert(follows(plan, actions[j - 1], result, Ok(actions[j])));
        law_runs_come_to_an_end(plan, actions[j - 1], result, actions[j]);
    }
}

proof fn lemma_training_happens(
    plan: RunPlan,
    actions: Seq<RunAction>,
    results: Seq<RunResult>,
    i: int,
) -> (t: int)
    requires
        is_course(plan, actions, results),
        0 <= i < actions.len(),
        progress(actions[i]) <= 4,
    ensures
        i <= t < results.len(),
        actions[t] is LogCompleted,
        progress(actions[i]) == 4 ==> t == i,
    decreases actions.len() - i,
{
    assert(i < results.len());
    let result = results[i];
    assert(follows(plan, actions[i], result, Ok(actions[i + 1])));
    if actions[i] is LogCompleted {
        i
    } else {
        lemma_training_happens(plan, actions, results, i + 1)
    }
}

/// What a run leaves behind. The end of the training is logged once. A model that keeps
/// checkpoints is then saved, as interrupted or whole as its training was and with the steps that
/// it had completed, and no other model is ever saved. A run ends the process early if, and only
/// if, it keeps checkpoints and was interrupted; and an interrupted run is never measured.
pub proof fn law_a_run_saves_what_it_trained(
    plan: RunPlan,
    actions: Seq<RunAction>,
    results: Seq<RunResult>,
) -> (t: int)
    requires
        is_course(plan, actions, results),
    ensures
        0 <= t < actions.len(),
        actions[t] is LogCompleted,
        forall|k: int| 0 <= k < actions.len() && #[trigger] actions[k] is LogCompleted ==> k == t,
        runtime_config::checkpoint_backed(plan.model) ==> {
            &&& actions.len() >= 3
            &&& actions[actions.len() - 2] == (RunAction::Save {
                interrupted: actions[t]->LogCompleted_interrupted,
                steps_completed: actions[t]->LogCompleted_steps_completed,
            })
            &&& actions.last() is Exit == actions[t]->LogCompleted_interrupted
        },
        !runtime_config::checkpoint_backed(plan.model) ==> actions.last() is Finish && forall|k: int|
            0 <= k < actions.len() ==> !((#[trigger] actions[k]) is Save),
        forall|k: int|
            0 <= k < actions.len() && #[trigger] actions[k] is Benchmark
                ==> !actions[t]->LogCompleted_interrupted && plan.benchmark_generation,
{
    let t = lemma_training_happens(plan, actions, results, 0);
    assert forall|k: int| 0 <= k < actions.len() && #[trigger] actions[k] is LogCompleted implies k
        == t by {
        if k < t {
            lemma_course_increases(plan, actions, results, k, t);
        } else {
            lemma_course_increases(plan, actions, results, t, k);
        }
    }
    let first = results[t];
    assert(follows(plan, actions[t], first, Ok(actions[t + 1])));
    assert forall|k: int| 0 <= k < t implies progress(#[trigger] actions[k]) < 4 by {
        lemma_course_increases(plan, actions, results, k, t);
    }
    if runtime_config::checkpoint_backed(plan.model) {
        let s = if actions[t + 1] is Save {
            t + 1
        } else {
            let second = results[t + 1];
            assert(follows(plan, actions[t + 1], second, Ok(actions[t + 2])));
            t + 2
        };
        let third = results[s];
        assert(follows(plan, actions[s], third, Ok(actions[s + 1])));
        if s + 1 < results.len() {
            let fourth = results[s + 1];
            assert(follows(plan, actions[s + 1], fourth, Ok(actions[s + 2])));
        }
        assert(s + 2 == actions.len());
    } else {
        if t + 1 < results.len() {
            let second = results[t + 1];
            assert(follows(plan, actions[t + 1], second, Ok(actions[t + 2])));
        }
        assert(t + 2 == actions.len());
    }
    t
}

/// A run that resumes goes on with the step after those that its checkpoint had completed, where
/// that is short of the target, and is refused where it is not or where nothing is recorded.
pub proof fn law_runs_go_on_where_they_stopped(
    plan: RunPlan,
    load_path: String,
    m: CheckpointMetadata,
    r: Result<RunAction, Failure>,
)
    requires
        follows(plan, (RunAction::ReadSidecar { load_path }), RunResult::Sidecar(Some(m)), r),
    ensures
        r is Ok <==> m.completed_steps < plan.train_steps,
        r matches Ok(next) ==> next matches RunAction::LoadWeights { load_path: p, start_step }
            && start_step == m.completed_steps && p@ == load_path@,
        r matches Ok(next) ==> forall|after: Result<RunAction, Failure>| #[trigger]
            follows(plan, next, RunResult::Done, after) ==> after == Ok::<RunAction, Failure>(
                RunAction::Train { start_step: m.completed_steps },
            ),
{
}

/// A run that resumes nothing begins at the first step, and so does one of a model that keeps no
/// checkpoints.
pub proof fn law_other_runs_begin_at_the_first_step(
    plan: RunPlan,
    result: RunResult,
    r: Result<RunAction, Failure>,
)
    requires
        follows(plan, RunAction::LogStarted, result, r),
    ensures
        plan.resume_from is None || (plan.model != ModelChoice::MiniGpt && plan.model
            != ModelChoice::MoeGpt) ==> r == Ok::<RunAction, Failure>(
            RunAction::Train { start_step: 0 },
        ),
        !(plan.resume_from is None || (plan.model != ModelChoice::MiniGpt && plan.model
            != ModelChoice::MoeGpt)) ==> r is Ok && r->Ok_0 is ReadSidecar,
{
}

/// Once a checkpoint is saved, an interrupted run ends the process with the code of an interrupt,
/// and any other is done.
pub proof fn law_interrupted_runs_exit(
    plan: RunPlan,
    interrupted: bool,
    steps_completed: usize,
    result: RunResult,
    r: Result<RunAction, Failure>,
)
    requires
        follows(plan, (RunAction::Save { interrupted, steps_completed }), result, r),
    ensures
        interrupted ==> r is Ok && r->Ok_0 is Exit && r->Ok_0->code == 130,
        !interrupted ==> r == Ok::<RunAction, Failure>(RunAction::Finish),
{
}

/// What follows the training of a model that keeps checkpoints: it is measured where that is asked
/// for and the run was whole, and saved in any case; other models are done.
pub proof fn law_what_follows_the_training(
    plan: RunPlan,
    interrupted: bool,
    steps_completed: usize,
)
    ensures
        ({
            let next = after_completion(plan, interrupted, steps_completed);
            let backed = plan.model == ModelChoice::MiniGpt || plan.model == ModelChoice::MoeGpt;
            &&& next is Finish <==> !backed
            &&& next is Benchmark <==> backed && plan.benchmark_generation && !interrupted
            &&& next is Save <==> backed && !(plan.benchmark_generation && !interrupted)
            &&& next matches RunAction::Save { interrupted: i, steps_completed: n } ==> i
                == interrupted && n == steps_completed
            &&& next matches RunAction::Benchmark { steps_completed: n } ==> n == steps_completed
        }),
{
}

} // verus!

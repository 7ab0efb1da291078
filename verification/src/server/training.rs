//! Training runs that are started over HTTP: which are admitted, how their progress is kept, and
//! how they end.
//!
//! One run is kept in memory, the one that was started last. The others lie on disk, each in a
//! manifest of its own. Files, threads and the training itself are left to the caller.
use vstd::prelude::*;

use crate::model::training::{TrainingAction, TrainingLoop};
use crate::path;
use crate::reals::Real;
use crate::runtime_signals;
use crate::runtime_signals::InterruptState;
use crate::server::run_id;
use crate::server::{ServerLimits, TRAINING_RETRY_AFTER_SECONDS};
use crate::text;

verus! {

/// Where the manifests of runs lie.
pub const DEFAULT_RUNS_DIR: &'static str = "checkpoints/runs";

/// How large the body of a train request may be.
pub const TRAIN_REQUEST_BODY_LIMIT_BYTES: usize = 4096;

/// A request to train.
#[derive(Debug, Clone, PartialEq, Eq)]
pub struct TrainRequest {
    pub train_steps: usize,
    pub learning_rate: Real,
    pub checkpoint_interval: usize,
    pub eval_interval: usize,
    pub resume_from: Option<String>,
}

/// What a client is told when its run has started.
#[derive(Debug, Clone, PartialEq, Eq)]
pub struct TrainAccepted {
    pub run_id: String,
}

/// How a run is doing.
#[derive(Debug, Clone, Copy, PartialEq, Eq, Structural)]
pub enum TrainRunStatus {
    Running,
    Completed,
    /// Stopped before its end, with a partial checkpoint.
    Interrupted,
    Failed,
}

/// What is known of a run.
#[derive(Debug, Clone, PartialEq, Eq)]
pub struct TrainRunRecord {
    pub run_id: String,
    pub status: TrainRunStatus,
    pub request: TrainRequest,
    pub started_at_unix: u64,
    pub ended_at_unix: Option<u64>,
    /// The steps completed when progress was last reported, counted from the very first one.
    pub steps_completed: usize,
    /// The target of the run.
    pub total_steps: usize,
    pub training_loss: Option<Real>,
    pub value_loss: Option<Real>,
    pub steps_per_second: Option<Real>,
    /// The names of the checkpoints that the run wrote, in order.
    pub checkpoints: Vec<String>,
    /// Why the run failed, where it did.
    pub error: Option<String>,
}

/// Why a train request is not served.
#[derive(Debug, Clone, PartialEq, Eq)]
pub enum TrainError {
    TrainStepsOutOfRange { max_allowed: usize, requested: usize },
    LearningRateOutOfRange { max_allowed: Real, requested: Real },
    /// Another run is active.
    RunInProgress { run_id: String },
    RunNotFound { run_id: String },
    /// The server cannot train.
    TrainingUnavailable,
    Internal(String),
}

/// What a [`TrainError`] says.
pub enum TrainErrorView {
    TrainStepsOutOfRange { max_allowed: usize, requested: usize },
    LearningRateOutOfRange { max_allowed: Real, requested: Real },
    RunInProgress { run_id: Seq<char> },
    RunNotFound { run_id: Seq<char> },
    TrainingUnavailable,
    Internal(Seq<char>),
}

/// What a client is told about an error.
#[derive(Debug, Clone, PartialEq, Eq)]
pub enum TrainErrorBody {
    TrainStepsOutOfRange { max_allowed: usize, requested: usize },
    LearningRateOutOfRange { max_allowed: Real, requested: Real },
    RunInProgress { run_id: String },
    RunNotFound { run_id: String },
    TrainingUnavailable { message: String },
    Internal { message: String },
}

impl View for TrainError {
    type V = TrainErrorView;

    open spec fn view(&self) -> TrainErrorView {
        match *self {
            TrainError::TrainStepsOutOfRange { max_allowed, requested } => {
                TrainErrorView::TrainStepsOutOfRange { max_allowed, requested }
            },
            TrainError::LearningRateOutOfRange { max_allowed, requested } => {
                TrainErrorView::LearningRateOutOfRange { max_allowed, requested }
            },
            TrainError::RunInProgress { run_id } => TrainErrorView::RunInProgress {
                run_id: run_id@,
            },
            TrainError::RunNotFound { run_id } => TrainErrorView::RunNotFound { run_id: run_id@ },
            TrainError::TrainingUnavailable => TrainErrorView::TrainingUnavailable,
            TrainError::Internal(message) => TrainErrorView::Internal(message@),
        }
    }
}

/// The status code of an error.
pub open spec fn train_status(e: TrainErrorView) -> u16 {
    match e {
        TrainErrorView::TrainStepsOutOfRange { .. } => 400,
        TrainErrorView::LearningRateOutOfRange { .. } => 400,
        TrainErrorView::RunInProgress { .. } => 409,
        TrainErrorView::RunNotFound { .. } => 404,
        TrainErrorView::TrainingUnavailable => 503,
        TrainErrorView::Internal(_) => 500,
    }
}

impl TrainError {
    /// The status code of this error.
    pub fn status(&self) -> (code: u16)
        ensures
            code == train_status(self@),
    {
        match self {
            TrainError::TrainStepsOutOfRange { .. } => 400,
            TrainError::LearningRateOutOfRange { .. } => 400,
            TrainError::RunInProgress { .. } => 409,
            TrainError::RunNotFound { .. } => 404,
            TrainError::TrainingUnavailable => 503,
            TrainError::Internal(_) => 500,
        }
    }

    /// What a client is told.
    pub fn body(self) -> (body: TrainErrorBody)
        ensures
            match (self, body) {
                (
                    TrainError::TrainStepsOutOfRange { max_allowed: a, requested: b },
                    TrainErrorBody::TrainStepsOutOfRange { max_allowed, requested },
                ) => max_allowed == a && requested == b,
                (
                    TrainError::LearningRateOutOfRange { max_allowed: a, requested: b },
                    TrainErrorBody::LearningRateOutOfRange { max_allowed, requested },
                ) => max_allowed == a && requested == b,
                (
                    TrainError::RunInProgress { run_id: a },
                    TrainErrorBody::RunInProgress { run_id },
                ) => run_id == a,
                (
                    TrainError::RunNotFound { run_id: a },
                    TrainErrorBody::RunNotFound { run_id },
                ) => run_id == a,
                (
                    TrainError::TrainingUnavailable,
                    TrainErrorBody::TrainingUnavailable { message },
                ) => message@ == "training is not enabled on this server"@,
                (TrainError::Internal(a), TrainErrorBody::Internal { message }) => message == a,
                _ => false,
            },
    {
        match self {
            TrainError::TrainStepsOutOfRange { max_allowed, requested } => {
                TrainErrorBody::TrainStepsOutOfRange { max_allowed, requested }
            },
            TrainError::LearningRateOutOfRange { max_allowed, requested } => {
                TrainErrorBody::LearningRateOutOfRange { max_allowed, requested }
            },
            TrainError::RunInProgress { run_id } => TrainErrorBody::RunInProgress { run_id },
            TrainError::RunNotFound { run_id } => TrainErrorBody::RunNotFound { run_id },
            TrainError::TrainingUnavailable => TrainErrorBody::TrainingUnavailable {
                message: "training is not enabled on this server".to_owned(),
            },
            TrainError::Internal(message) => TrainErrorBody::Internal { message },
        }
    }

    /// How long a client is told to wait, if it is told so.
    pub fn retry_after(&self) -> (seconds: Option<u64>)
        ensures
            seconds == (match self@ {
                TrainErrorView::TrainingUnavailable => Some(TRAINING_RETRY_AFTER_SECONDS),
                TrainErrorView::RunInProgress { .. } => Some(TRAINING_RETRY_AFTER_SECONDS),
                _ => None,
            }),
    {
        match self {
            TrainError::TrainingUnavailable => Some(TRAINING_RETRY_AFTER_SECONDS),
            TrainError::RunInProgress { .. } => Some(TRAINING_RETRY_AFTER_SECONDS),
            _ => None,
        }
    }
}

/// Why a request is refused, if it is.
pub open spec fn request_problem(request: TrainRequest, limits: ServerLimits) -> Option<
    TrainErrorView,
> {
    if request.train_steps == 0 || request.train_steps > limits.max_train_steps {
        Some(
            TrainErrorView::TrainStepsOutOfRange {
                max_allowed: limits.max_train_steps,
                requested: request.train_steps,
            },
        )
    } else if !request.learning_rate.finite() || request.learning_rate.at_most(Real { bits: 0 })
        || limits.max_train_learning_rate.less(request.learning_rate) {
        Some(
            TrainErrorView::LearningRateOutOfRange {
                max_allowed: limits.max_train_learning_rate,
                requested: request.learning_rate,
            },
        )
    } else {
        None
    }
}

/// Holds a request to the limits.
pub fn validate_request(request: &TrainRequest, limits: &ServerLimits) -> (r: Result<
    (),
    TrainError,
>)
    ensures
        match r {
            Ok(_) => request_problem(*request, *limits) is None,
            Err(e) => request_problem(*request, *limits) == Some(e@),
        },
{
    if request.train_steps == 0 || request.train_steps > limits.max_train_steps {
        return Err(
            TrainError::TrainStepsOutOfRange {
                max_allowed: limits.max_train_steps,
                requested: request.train_steps,
            },
        );
    }
    if !request.learning_rate.is_finite() || request.learning_rate.at_most_zero()
        || request.learning_rate.exceeds(limits.max_train_learning_rate) {
        return Err(
            TrainError::LearningRateOutOfRange {
                max_allowed: limits.max_train_learning_rate,
                requested: request.learning_rate,
            },
        );
    }
    Ok(())
}

impl TrainRunRecord {
    /// A run that has just started.
    pub fn started(run_id: String, request: TrainRequest, now_unix: u64) -> (record: TrainRunRecord)
        ensures
            record.run_id == run_id,
            record.status == TrainRunStatus::Running,
            record.request == request,
            record.started_at_unix == now_unix,
            record.ended_at_unix is None,
            record.steps_completed == 0,
            record.total_steps == request.train_steps,
            record.training_loss is None,
            record.value_loss is None,
            record.steps_per_second is None,
            record.checkpoints@.len() == 0,
            record.error is None,
    {
        TrainRunRecord {
            run_id,
            status: TrainRunStatus::Running,
            total_steps: request.train_steps,
            request,
            started_at_unix: now_unix,
            ended_at_unix: None,
            steps_completed: 0,
            training_loss: None,
            value_loss: None,
            steps_per_second: None,
            checkpoints: Vec::new(),
            error: None,
        }
    }

    /// Whether the run is still going.
    pub fn is_running(&self) -> (yes: bool)
        ensures
            yes == (self.status == TrainRunStatus::Running),
    {
        self.status == TrainRunStatus::Running
    }
}

/// The manifest of a run.
pub open spec fn manifest(runs_dir: Seq<char>, id: Seq<char>) -> Seq<char> {
    path::join(runs_dir, "run-"@ + id + ".json"@)
}

/// The manifest of a run.
pub fn manifest_path(runs_dir: &str, id: &str) -> (p: String)
    ensures
        p@ == manifest(runs_dir@, id@),
{
    let mut name = "run-".to_owned();
    name.append(id);
    name.append(".json");
    path::path_join(runs_dir, name.as_str())
}

/// The manifest of every run lies in the directory of manifests itself, under a name of its own.
pub proof fn law_manifests_stay_in_their_directory(runs_dir: Seq<char>, id: Seq<char>)
    requires
        run_id::is_uuid(id),
    ensures
        path::file_name(manifest(runs_dir, id)) == Some("run-"@ + id + ".json"@),
        manifest(runs_dir, id) == (if runs_dir.len() == 0 || runs_dir.last() == '/' {
            runs_dir
        } else {
            runs_dir.push('/')
        }) + ("run-"@ + id + ".json"@),
{
    reveal_strlit("run-");
    reveal_strlit(".json");
    let name = "run-"@ + id + ".json"@;
    assert forall|i: int| 0 <= i < name.len() implies #[trigger] name[i] != '/' by {
        if 4 <= i < 4 + id.len() {
            run_id::law_run_ids_are_plain(id, i - 4);
            assert(name[i] == id[i - 4]);
        }
    }
    assert(name.len() > 2);
    assert(name[0] == 'r');
    let directory = if runs_dir.len() == 0 || runs_dir.last() == '/' {
        runs_dir
    } else {
        runs_dir.push('/')
    };
    assert(manifest(runs_dir, id) =~= directory + name);
    path::lemma_name_in_directory(directory, name);
}

/// Two runs of one directory never share a manifest.
pub proof fn law_manifests_differ(runs_dir: Seq<char>, a: Seq<char>, b: Seq<char>)
    requires
        run_id::is_uuid(a),
        run_id::is_uuid(b),
        manifest(runs_dir, a) == manifest(runs_dir, b),
    ensures
        a == b,
{
    law_manifests_stay_in_their_directory(runs_dir, a);
    law_manifests_stay_in_their_directory(runs_dir, b);
    reveal_strlit("run-");
    reveal_strlit(".json");
    let x = "run-"@ + a + ".json"@;
    let y = "run-"@ + b + ".json"@;
    assert(x == y);
    assert(x.subrange(4, x.len() - 5) =~= a);
    assert(y.subrange(4, y.len() - 5) =~= b);
}

// ---------------------------------------------------------------------------------------
// Starting and ending
// ---------------------------------------------------------------------------------------

/// The run that was started last, running or not.
#[derive(Debug)]
pub struct RunSlot {
    pub record: Option<TrainRunRecord>,
}

/// How a run ended.
#[derive(Debug, Clone, PartialEq, Eq)]
pub enum RunEnd {
    Completed { steps_completed: usize },
    Interrupted { steps_completed: usize },
    Failed { error: String },
}

/// Whether the slot holds a run that is still going.
pub open spec fn slot_runs(slot: RunSlot) -> bool {
    slot.record matches Some(r) && r.status == TrainRunStatus::Running
}

/// Why a run cannot start, if it cannot.
pub open spec fn start_problem(
    slot: RunSlot,
    request: TrainRequest,
    limits: ServerLimits,
    can_train: bool,
) -> Option<TrainErrorView> {
    match request_problem(request, limits) {
        Some(e) => Some(e),
        None => if !can_train {
            Some(TrainErrorView::TrainingUnavailable)
        } else if slot_runs(slot) {
            Some(TrainErrorView::RunInProgress { run_id: slot.record->Some_0.run_id@ })
        } else {
            None
        },
    }
}

/// Whether `record` is a run of the given request that has just started.
pub open spec fn just_started(
    record: TrainRunRecord,
    id: Seq<char>,
    request: TrainRequest,
    now_unix: u64,
) -> bool {
    &&& record.run_id@ == id
    &&& record.status == TrainRunStatus::Running
    &&& record.request == request
    &&& record.started_at_unix == now_unix
    &&& record.ended_at_unix is None
    &&& record.steps_completed == 0
    &&& record.total_steps == request.train_steps
    &&& record.training_loss is None
    &&& record.value_loss is None
    &&& record.steps_per_second is None
    &&& record.checkpoints@.len() == 0
    &&& record.error is None
}

/// Whether the slot holds a run that has just started.
pub open spec fn holds_new_run(
    slot: RunSlot,
    id: Seq<char>,
    request: TrainRequest,
    now_unix: u64,
) -> bool {
    slot.record matches Some(record) && just_started(record, id, request, now_unix)
}

/// Whether the slot holds the run of the given id.
pub open spec fn holds_run(slot: RunSlot, id: Seq<char>) -> bool {
    slot.record matches Some(record) && record.run_id@ == id
}

/// Whether `after` is `before` with the end that the run came to.
pub open spec fn ended(
    before: TrainRunRecord,
    after: TrainRunRecord,
    end: RunEnd,
    now_unix: u64,
) -> bool {
    after == (TrainRunRecord {
        status: match end {
            RunEnd::Completed { .. } => TrainRunStatus::Completed,
            RunEnd::Interrupted { .. } => TrainRunStatus::Interrupted,
            RunEnd::Failed { .. } => TrainRunStatus::Failed,
        },
        ended_at_unix: Some(now_unix),
        steps_completed: match end {
            RunEnd::Completed { steps_completed } => steps_completed,
            RunEnd::Interrupted { steps_completed } => steps_completed,
            RunEnd::Failed { .. } => before.steps_completed,
        },
        error: match end {
            RunEnd::Failed { error } => Some(error),
            _ => before.error,
        },
        ..before
    })
}

impl RunSlot {
    /// A slot that no run was started in yet.
    pub fn new() -> (slot: RunSlot)
        ensures
            slot.record is None,
    {
        RunSlot { record: None }
    }

    /// Whether a run is going.
    pub fn is_running(&self) -> (yes: bool)
        ensures
            yes == slot_runs(*self),
    {
        match &self.record {
            Some(r) => r.is_running(),
            None => false,
        }
    }

    /// Starts a run under the given id. One that keeps to the limits takes the slot, unless the
    /// server cannot train or another run is going.
    pub fn start_run(
        &mut self,
        request: TrainRequest,
        limits: &ServerLimits,
        can_train: bool,
        id: String,
        now_unix: u64,
    ) -> (r: Result<(), TrainError>)
        ensures
            match start_problem(*old(self), request, *limits, can_train) {
                Some(e) => r matches Err(f) && f@ == e && *final(self) == *old(self),
                None => r is Ok && holds_new_run(*final(self), id@, request, now_unix),
            },
    {
        match validate_request(&request, limits) {
            Ok(_) => {},
            Err(e) => {
                return Err(e);
            },
        }
        if !can_train {
            return Err(TrainError::TrainingUnavailable);
        }
        match &self.record {
            Some(active) => {
                if active.is_running() {
                    return Err(TrainError::RunInProgress { run_id: active.run_id.clone() });
                }
            },
            None => {},
        }
        self.record = Some(TrainRunRecord::started(id, request, now_unix));
        Ok(())
    }

    /// Starts a run under a new id.
    pub fn train(
        &mut self,
        request: TrainRequest,
        limits: &ServerLimits,
        can_train: bool,
        now_unix: u64,
    ) -> (r: Result<TrainAccepted, TrainError>)
        ensures
            match start_problem(*old(self), request, *limits, can_train) {
                Some(e) => r matches Err(f) && f@ == e && *final(self) == *old(self),
                None => r matches Ok(accepted) && run_id::is_uuid(accepted.run_id@)
                    && run_id::is_random_uuid(accepted.run_id@) && holds_new_run(
                    *final(self),
                    accepted.run_id@,
                    request,
                    now_unix,
                ),
            },
    {
        let id = run_id::new_run_id();
        let told = id.clone();
        match self.start_run(request, limits, can_train, id, now_unix) {
            Ok(_) => Ok(TrainAccepted { run_id: told }),
            Err(e) => Err(e),
        }
    }

    /// Gives the slot back when the manifest of a new run could not be written.
    pub fn abandon(&mut self, reason: &str) -> (e: TrainError)
        ensures
            final(self).record is None,
            e@ == TrainErrorView::Internal("failed to write run manifest: "@ + reason@),
    {
        self.record = None;
        let mut message = "failed to write run manifest: ".to_owned();
        message.append(reason);
        TrainError::Internal(message)
    }

    /// Takes the end of the run in, and says whether its model is to be served from now on. Only a
    /// run that came to its end is served.
    pub fn end_run(&mut self, end: RunEnd, now_unix: u64) -> (serve: bool)
        ensures
            serve == (end is Completed),
            match old(self).record {
                Some(before) => final(self).record matches Some(after) && ended(
                    before,
                    after,
                    end,
                    now_unix,
                ),
                None => final(self).record is None,
            },
    {
        let serve = match &end {
            RunEnd::Completed { .. } => true,
            _ => false,
        };
        let taken = self.record.take();
        match taken {
            Some(before) => {
                let mut record = before;
                record.ended_at_unix = Some(now_unix);
                match end {
                    RunEnd::Completed { steps_completed } => {
                        record.status = TrainRunStatus::Completed;
                        record.steps_completed = steps_completed;
                    },
                    RunEnd::Interrupted { steps_completed } => {
                        record.status = TrainRunStatus::Interrupted;
                        record.steps_completed = steps_completed;
                    },
                    RunEnd::Failed { error } => {
                        record.status = TrainRunStatus::Failed;
                        record.error = Some(error);
                    },
                }
                self.record = Some(record);
            },
            None => {},
        }
        serve
    }
}

/// Whether a run can be stopped: it is the one in the slot, and it is going.
pub open spec fn stoppable(slot: RunSlot, id: Seq<char>) -> bool {
    slot_runs(slot) && slot.record->Some_0.run_id@ == id
}

/// What the interrupt state is once a stop has been asked for.
pub open spec fn stop_asked(interrupt: InterruptState) -> InterruptState {
    InterruptState { requested: true, ..interrupt }
}

/// Asks the run of the given id to stop at its next step, and gives the status code of the answer.
pub fn stop_train(slot: &RunSlot, id: &str, interrupt: &mut InterruptState) -> (code: u16)
    ensures
        stoppable(*slot, id@) ==> code == 202 && *final(interrupt) == stop_asked(*old(interrupt)),
        !stoppable(*slot, id@) ==> code == 404 && *final(interrupt) == *old(interrupt),
{
    let found = match &slot.record {
        Some(r) => r.is_running() && text::same_text(r.run_id.as_str(), id),
        None => false,
    };
    if !found {
        return 404;
    }
    runtime_signals::request_interrupt(interrupt);
    202
}

/// A run that is asked to stop runs no further step and ends as interrupted, just as it does on a
/// signal; and to ask again changes nothing more.
pub proof fn law_a_stop_is_heard_at_the_next_step(run: TrainingLoop, interrupt: InterruptState)
    requires
        run.well_formed(),
        run.unfinished(),
    ensures
        run.next_action(stop_asked(interrupt).requested) == (TrainingAction::Stop {
            interrupted: true,
        }),
        run.asked(stop_asked(interrupt).requested).steps_completed == run.steps_completed,
        stop_asked(stop_asked(interrupt)) == stop_asked(interrupt),
{
}

/// A run that has ended leaves the slot to the next: whatever its end was, a request within the
/// limits is accepted after it.
pub proof fn law_an_ended_run_frees_the_slot(
    before: TrainRunRecord,
    after: TrainRunRecord,
    end: RunEnd,
    now_unix: u64,
    request: TrainRequest,
    limits: ServerLimits,
)
    requires
        ended(before, after, end, now_unix),
        request_problem(request, limits) is None,
    ensures
        start_problem(RunSlot { record: Some(after) }, request, limits, true) is None,
        !stoppable(RunSlot { record: Some(after) }, after.run_id@),
{
}

/// While a run is going no other starts, and the client is told which one it is.
pub proof fn law_one_run_at_a_time(
    slot: RunSlot,
    request: TrainRequest,
    limits: ServerLimits,
    can_train: bool,
)
    requires
        slot_runs(slot),
        request_problem(request, limits) is None,
        can_train,
    ensures
        start_problem(slot, request, limits, can_train) == Some(
            TrainErrorView::RunInProgress { run_id: slot.record->Some_0.run_id@ },
        ),
{
}

// ---------------------------------------------------------------------------------------
// Progress
// ---------------------------------------------------------------------------------------

/// The text under a key of a JSON object, where the line is one and holds a text there.
pub uninterp spec fn json_text(line: Seq<char>, key: Seq<char>) -> Option<Seq<char>>;

/// The number under a key of a JSON object, where the line is one and holds there a number that a
/// `u64` can hold.
pub uninterp spec fn json_count(line: Seq<char>, key: Seq<char>) -> Option<u64>;

/// The bits of the number under a key of a JSON object, where the line is one and holds a number
/// there.
pub uninterp spec fn json_bits(line: Seq<char>, key: Seq<char>) -> Option<u64>;

/// Calls `serde_json::from_str` and, on the value under the key, `serde_json::Value::as_str`. Only
/// this is said of it: the same line and key always give the same text.
#[verifier::external_body]
fn read_text(line: &str, key: &str) -> (s: Option<String>)
    ensures
        match s {
            Some(t) => json_text(line@, key@) == Some(t@),
            None => json_text(line@, key@) is None,
        },
{
    let value: serde_json::Value = serde_json::from_str(line).ok()?;
    value[key].as_str().map(String::from)
}

/// Calls `serde_json::from_str` and, on the value under the key, `serde_json::Value::as_u64`. Only
/// this is said of it: the same line and key always give the same number.
#[verifier::external_body]
fn read_count(line: &str, key: &str) -> (n: Option<u64>)
    ensures
        n == json_count(line@, key@),
{
    let value: serde_json::Value = serde_json::from_str(line).ok()?;
    value[key].as_u64()
}

/// Calls `serde_json::from_str` and, on the value under the key, `serde_json::Value::as_f64`, and
/// gives the bits of the number. Only this is said of it: the same line and key always give the
/// same bits.
#[verifier::external_body]
fn read_bits(line: &str, key: &str) -> (bits: Option<u64>)
    ensures
        bits == json_bits(line@, key@),
{
    let value: serde_json::Value = serde_json::from_str(line).ok()?;
    Some(value[key].as_f64()?.to_bits())
}

/// What a logged event says about a run.
#[derive(Debug, Clone, PartialEq, Eq)]
pub struct EventFields {
    pub event: Option<String>,
    pub step: Option<u64>,
    pub total_steps: Option<u64>,
    pub training_loss: Option<Real>,
    pub value_loss: Option<Real>,
    pub steps_per_second: Option<Real>,
    pub final_value_loss: Option<Real>,
    pub path: Option<String>,
}

/// The real of optional bits.
pub open spec fn real_of(bits: Option<u64>) -> Option<Real> {
    match bits {
        Some(b) => Some(Real { bits: b }),
        None => None,
    }
}

/// The view of an optional text.
pub open spec fn text_of(s: Option<String>) -> Option<Seq<char>> {
    match s {
        Some(t) => Some(t@),
        None => None,
    }
}

/// Whether `fields` are what a line says.
pub open spec fn fields_say(fields: EventFields, line: Seq<char>) -> bool {
    &&& text_of(fields.event) == json_text(line, "event"@)
    &&& fields.step == json_count(line, "step"@)
    &&& fields.total_steps == json_count(line, "total_steps"@)
    &&& fields.training_loss == real_of(json_bits(line, "training_loss"@))
    &&& fields.value_loss == real_of(json_bits(line, "value_loss"@))
    &&& fields.steps_per_second == real_of(json_bits(line, "steps_per_second"@))
    &&& fields.final_value_loss == real_of(json_bits(line, "final_value_loss"@))
    &&& text_of(fields.path) == json_text(line, "path"@)
}

/// Whether an event can be taken in: the step that progress is reported of has one after it.
pub open spec fn is_countable(event: Option<Seq<char>>, step: Option<u64>) -> bool {
    event == Some("training_progress"@) ==> (step matches Some(n) ==> (n as usize) < usize::MAX)
}

/// The record after progress was reported.
pub open spec fn after_progress(record: TrainRunRecord, fields: EventFields) -> TrainRunRecord {
    TrainRunRecord {
        steps_completed: match fields.step {
            Some(step) => ((step as usize) + 1) as usize,
            None => record.steps_completed,
        },
        total_steps: match fields.total_steps {
            Some(total) => total as usize,
            None => record.total_steps,
        },
        training_loss: fields.training_loss,
        value_loss: fields.value_loss,
        steps_per_second: fields.steps_per_second,
        ..record
    }
}

/// The record after the end was reported.
pub open spec fn after_completion(record: TrainRunRecord, fields: EventFields) -> TrainRunRecord {
    TrainRunRecord {
        total_steps: match fields.total_steps {
            Some(total) => total as usize,
            None => record.total_steps,
        },
        value_loss: match fields.final_value_loss {
            Some(loss) => Some(loss),
            None => record.value_loss,
        },
        ..record
    }
}

/// Whether `after` is `before` with a checkpoint more: its last name only, never its directory.
pub open spec fn checkpoint_added(
    before: TrainRunRecord,
    after: TrainRunRecord,
    path: Option<Seq<char>>,
) -> bool {
    match path {
        Some(p) => match path::file_name(p) {
            Some(name) => {
                &&& after == (TrainRunRecord { checkpoints: after.checkpoints, ..before })
                &&& after.checkpoints@.len() == before.checkpoints@.len() + 1
                &&& after.checkpoints@.drop_last() == before.checkpoints@
                &&& after.checkpoints@.last()@ == name
            },
            None => after == before,
        },
        None => after == before,
    }
}

/// Whether `after` is `before` with an event taken in. Events of other kinds change nothing.
pub open spec fn event_taken_in(
    before: TrainRunRecord,
    after: TrainRunRecord,
    fields: EventFields,
) -> bool {
    if text_of(fields.event) == Some("training_progress"@) {
        after == after_progress(before, fields)
    } else if text_of(fields.event) == Some("training_completed"@) {
        after == after_completion(before, fields)
    } else if text_of(fields.event) == Some("checkpoint_saved"@) {
        checkpoint_added(before, after, text_of(fields.path))
    } else {
        after == before
    }
}

/// Takes an event into the record of its run.
pub fn apply_event(record: &mut TrainRunRecord, fields: &EventFields)
    requires
        is_countable(text_of(fields.event), fields.step),
    ensures
        event_taken_in(*old(record), *final(record), *fields),
{
    let event = match &fields.event {
        Some(event) => event,
        None => {
            return;
        },
    };
    if text::same_text(event.as_str(), "training_progress") {
        match fields.step {
            Some(step) => {
                record.steps_completed = step as usize + 1;
            },
            None => {},
        }
        match fields.total_steps {
            Some(total) => {
                record.total_steps = total as usize;
            },
            None => {},
        }
        record.training_loss = fields.training_loss;
        record.value_loss = fields.value_loss;
        record.steps_per_second = fields.steps_per_second;
    } else if text::same_text(event.as_str(), "training_completed") {
        match fields.total_steps {
            Some(total) => {
                record.total_steps = total as usize;
            },
            None => {},
        }
        match fields.final_value_loss {
            Some(loss) => {
                record.value_loss = Some(loss);
            },
            None => {},
        }
    } else if text::same_text(event.as_str(), "checkpoint_saved") {
        match &fields.path {
            Some(p) => match path::path_file_name(p.as_str()) {
                Some(name) => {
                    let ghost before = record.checkpoints@;
                    record.checkpoints.push(name);
                    assert(record.checkpoints@.drop_last() =~= before);
                },
                None => {},
            },
            None => {},
        }
    }
}

/// What a logged line says about a run.
pub fn read_event(line: &str) -> (fields: EventFields)
    ensures
        fields_say(fields, line@),
{
    EventFields {
        event: read_text(line, "event"),
        step: read_count(line, "step"),
        total_steps: read_count(line, "total_steps"),
        training_loss: read_real(line, "training_loss"),
        value_loss: read_real(line, "value_loss"),
        steps_per_second: read_real(line, "steps_per_second"),
        final_value_loss: read_real(line, "final_value_loss"),
        path: read_text(line, "path"),
    }
}

fn read_real(line: &str, key: &str) -> (r: Option<Real>)
    ensures
        r == real_of(json_bits(line@, key@)),
{
    match read_bits(line, key) {
        Some(bits) => Some(Real { bits }),
        None => None,
    }
}

/// Takes a logged line into the record of the run, and says whether it was taken in: progress at a
/// step that no number comes after is not.
pub fn apply_event_line(record: &mut TrainRunRecord, line: &str) -> (taken: bool)
    ensures
        taken == is_countable(json_text(line@, "event"@), json_count(line@, "step"@)),
        !taken ==> *final(record) == *old(record),
        taken ==> exists|fields: EventFields| #[trigger]
            fields_say(fields, line@) && event_taken_in(*old(record), *final(record), fields),
{
    let fields = read_event(line);
    if let Some(event) = &fields.event {
        if text::same_text(event.as_str(), "training_progress") {
            if let Some(step) = fields.step {
                if step as usize == usize::MAX {
                    return false;
                }
            }
        }
    }
    apply_event(record, &fields);
    assert(fields_say(fields, line@));
    true
}

/// No event names a directory in the record of a run.
pub proof fn law_records_hold_names_only(
    before: TrainRunRecord,
    after: TrainRunRecord,
    fields: EventFields,
    k: int,
    i: int,
)
    requires
        event_taken_in(before, after, fields),
        0 <= k < after.checkpoints@.len(),
        0 <= i < after.checkpoints@[k]@.len(),
        forall|m: int, j: int|
            0 <= m < before.checkpoints@.len() && 0 <= j < before.checkpoints@[m]@.len()
                ==> #[trigger] before.checkpoints@[m]@[j] != '/',
    ensures
        after.checkpoints@[k]@[i] != '/',
{
    if after.checkpoints@.len() == before.checkpoints@.len() + 1 && after.checkpoints@.drop_last()
        == before.checkpoints@ {
        if k < before.checkpoints@.len() {
            assert(after.checkpoints@[k] == after.checkpoints@.drop_last()[k]);
        } else {
            path::lemma_file_name_is_plain(fields.path->Some_0@);
        }
    }
}

/// No event changes whether a run is going, what it was asked for, or under which id.
pub proof fn law_events_keep_the_run(
    before: TrainRunRecord,
    after: TrainRunRecord,
    fields: EventFields,
)
    requires
        event_taken_in(before, after, fields),
    ensures
        after.run_id == before.run_id,
        after.status == before.status,
        after.request == before.request,
        after.started_at_unix == before.started_at_unix,
        after.ended_at_unix == before.ended_at_unix,
        after.error == before.error,
{
}

// ---------------------------------------------------------------------------------------
// Status
// ---------------------------------------------------------------------------------------

/// Where the record of a run is found.
#[derive(Debug, Clone, PartialEq, Eq)]
pub enum RunLocation {
    /// Nowhere: this is no id of a run.
    Unknown,
    /// In the slot.
    Live,
    /// In its manifest, where it has one.
    OnDisk { manifest: String },
}

/// Where the record of a run is found.
pub fn locate_run(slot: &RunSlot, runs_dir: &str, id: &str) -> (location: RunLocation)
    ensures
        match location {
            RunLocation::Unknown => !run_id::is_uuid(id@),
            RunLocation::Live => run_id::is_uuid(id@) && holds_run(*slot, id@),
            RunLocation::OnDisk { manifest: m } => {
                &&& run_id::is_uuid(id@)
                &&& !holds_run(*slot, id@)
                &&& m@ == manifest(runs_dir@, id@)
            },
        },
{
    if !run_id::is_run_id(id) {
        return RunLocation::Unknown;
    }
    match &slot.record {
        Some(r) => {
            if text::same_text(r.run_id.as_str(), id) {
                return RunLocation::Live;
            }
        },
        None => {},
    }
    RunLocation::OnDisk { manifest: manifest_path(runs_dir, id) }
}

/// What came of reading a manifest.
#[derive(Debug)]
pub enum ManifestRead {
    /// There is no such file.
    Missing,
    /// The file could not be read, with the system's message.
    Unreadable(String),
    /// The file does not hold a record, with the parser's message.
    Malformed(String),
    Record(TrainRunRecord),
}

/// The record of a manifest, if it holds one. A run without a manifest is not found; one whose
/// manifest cannot be read is the server's fault.
pub fn manifest_record(id: &str, read: ManifestRead) -> (r: Result<TrainRunRecord, TrainError>)
    ensures
        match (r, read) {
            (Ok(record), ManifestRead::Record(found)) => record == found,
            (Err(e), ManifestRead::Missing) => e@ == (TrainErrorView::RunNotFound { run_id: id@ }),
            (Err(e), ManifestRead::Unreadable(reason)) => e@ == TrainErrorView::Internal(
                "failed to read run manifest: "@ + reason@,
            ),
            (Err(e), ManifestRead::Malformed(reason)) => e@ == TrainErrorView::Internal(
                "run manifest could not be parsed: "@ + reason@,
            ),
            _ => false,
        },
{
    match read {
        ManifestRead::Record(found) => Ok(found),
        ManifestRead::Missing => Err(TrainError::RunNotFound { run_id: id.to_owned() }),
        ManifestRead::Unreadable(reason) => {
            let mut message = "failed to read run manifest: ".to_owned();
            message.append(reason.as_str());
            Err(TrainError::Internal(message))
        },
        ManifestRead::Malformed(reason) => {
            let mut message = "run manifest could not be parsed: ".to_owned();
            message.append(reason.as_str());
            Err(TrainError::Internal(message))
        },
    }
}

/// What is left of a run, and how fast it goes.
#[derive(Debug, Clone, Copy, PartialEq, Eq, Structural)]
pub struct EtaBasis {
    pub remaining_steps: usize,
    pub steps_per_second: Real,
}

/// What the time left is worked out from: the steps left and the speed that was reported last. A
/// run that has ended has none, and one that has not reported a speed above zero has none either.
pub fn eta_basis(record: &TrainRunRecord) -> (basis: Option<EtaBasis>)
    ensures
        match (record.steps_per_second, basis) {
            (Some(rate), Some(b)) => {
                &&& record.status == TrainRunStatus::Running
                &&& Real { bits: 0 }.less(rate)
                &&& b.steps_per_second == rate
                &&& b.remaining_steps == (if record.steps_completed <= record.total_steps {
                    record.total_steps - record.steps_completed
                } else {
                    0
                })
            },
            (Some(rate), None) => record.status != TrainRunStatus::Running || !Real {
                bits: 0,
            }.less(rate),
            (None, b) => b is None,
        },
{
    if !record.is_running() {
        return None;
    }
    match record.steps_per_second {
        Some(rate) => {
            if !rate.exceeds(Real { bits: 0 }) {
                return None;
            }
            Some(
                EtaBasis {
                    remaining_steps: record.total_steps.saturating_sub(record.steps_completed),
                    steps_per_second: rate,
                },
            )
        },
        None => None,
    }
}

/// A request is accepted exactly where it asks for some steps, for no more of them than are
/// allowed, and for a finite learning rate above zero that is no higher than is allowed.
pub proof fn law_requests_within_the_limits_are_accepted(
    request: TrainRequest,
    limits: ServerLimits,
)
    ensures
        request_problem(request, limits) is None <==> 0 < request.train_steps
            <= limits.max_train_steps && request.learning_rate.finite()
            && !request.learning_rate.at_most(Real { bits: 0 })
            && !limits.max_train_learning_rate.less(request.learning_rate),
        !(0 < request.train_steps <= limits.max_train_steps) ==> request_problem(request, limits)
            is Some && request_problem(request, limits)->Some_0 is TrainStepsOutOfRange,
{
}

/// Whether a run can start, and which error it meets where it cannot: a request outside of the
/// limits is refused for that, and one within them only for want of a trainer or because a run is
/// going.
pub proof fn law_runs_start_where_nothing_is_in_the_way(
    slot: RunSlot,
    request: TrainRequest,
    limits: ServerLimits,
    can_train: bool,
)
    ensures
        start_problem(slot, request, limits, can_train) is None <==> request_problem(
            request,
            limits,
        ) is None && can_train && !(slot.record matches Some(r) && r.status
            == TrainRunStatus::Running),
        request_problem(request, limits) is None && !can_train ==> start_problem(
            slot,
            request,
            limits,
            can_train,
        ) == Some(TrainErrorView::TrainingUnavailable),
{
}

/// Errors are told apart by their statuses: a request outside of the limits is the client's fault,
/// a run that is going is a conflict, an unknown run is not found, and the rest lies with the
/// server.
pub proof fn law_train_statuses_tell_errors_apart(e: TrainErrorView)
    ensures
        e is TrainStepsOutOfRange || e is LearningRateOutOfRange <==> train_status(e) == 400,
        e is RunInProgress <==> train_status(e) == 409,
        e is RunNotFound <==> train_status(e) == 404,
        e is TrainingUnavailable <==> train_status(e) == 503,
        e is Internal <==> train_status(e) == 500,
{
}

/// What a record says after an event: progress at a step counts that step as done and brings the
/// latest measurements, the end brings the final loss, a saved checkpoint is added behind those
/// before it, and nothing else changes anything.
pub proof fn law_records_follow_the_events(
    before: TrainRunRecord,
    after: TrainRunRecord,
    fields: EventFields,
    kind: Seq<char>,
)
    requires
        event_taken_in(before, after, fields),
        fields.event matches Some(e) && e@ == kind,
    ensures
        kind == "training_progress"@ ==> after.training_loss == fields.training_loss
            && after.value_loss == fields.value_loss && after.steps_per_second
            == fields.steps_per_second && after.checkpoints == before.checkpoints && (
        fields.step matches Some(step) ==> step < usize::MAX ==> after.steps_completed == step + 1)
            && (fields.total_steps matches Some(total) ==> total <= usize::MAX ==> after.total_steps
            == total) && (fields.step is None ==> after.steps_completed == before.steps_completed),
        kind == "training_completed"@ ==> after.steps_completed == before.steps_completed && (
        fields.final_value_loss matches Some(loss) ==> after.value_loss == Some(loss)) && (
        fields.final_value_loss is None ==> after.value_loss == before.value_loss)
            && after.training_loss == before.training_loss && after.checkpoints
            == before.checkpoints && (fields.total_steps matches Some(total) ==> total <= usize::MAX
            ==> after.total_steps == total),
        kind == "checkpoint_saved"@ ==> after.steps_completed == before.steps_completed
            && after.training_loss == before.training_loss && after.value_loss
            == before.value_loss && (fields.path matches Some(p) ==> path::file_name(
            p@,
        ) matches Some(name) ==> after.checkpoints@.len() == before.checkpoints@.len() + 1
            && after.checkpoints@.last()@ == name && before.checkpoints@.is_prefix_of(
            after.checkpoints@,
        )),
        kind != "training_progress"@ && kind != "training_completed"@ && kind
            != "checkpoint_saved"@ ==> after == before,
{
    reveal_strlit("training_progress");
    reveal_strlit("training_completed");
    reveal_strlit("checkpoint_saved");
    assert("training_progress"@.len() == 17);
    assert("training_completed"@.len() == 18);
    assert("checkpoint_saved"@.len() == 16);
}

/// What a record says after the end of its run: which end it was and when, the steps that were
/// done, and the error of a run that failed; all else stays as it was.
pub proof fn law_records_say_how_the_run_ended(
    before: TrainRunRecord,
    after: TrainRunRecord,
    end: RunEnd,
    now_unix: u64,
)
    requires
        ended(before, after, end, now_unix),
    ensures
        after.ended_at_unix == Some(now_unix),
        after.status != TrainRunStatus::Running,
        after.status == TrainRunStatus::Completed <==> end is Completed,
        after.status == TrainRunStatus::Interrupted <==> end is Interrupted,
        after.status == TrainRunStatus::Failed <==> end is Failed,
        end matches RunEnd::Completed { steps_completed } ==> after.steps_completed
            == steps_completed && after.error == before.error,
        end matches RunEnd::Interrupted { steps_completed } ==> after.steps_completed
            == steps_completed && after.error == before.error,
        end matches RunEnd::Failed { error } ==> after.steps_completed == before.steps_completed
            && after.error == Some(error),
        after.run_id == before.run_id,
        after.request == before.request,
        after.started_at_unix == before.started_at_unix,
        after.total_steps == before.total_steps,
        after.training_loss == before.training_loss,
        after.value_loss == before.value_loss,
        after.steps_per_second == before.steps_per_second,
        after.checkpoints == before.checkpoints,
{
}

/// What a line says is read from its fields of these names, and a line is taken in unless it tells
/// of progress at a step that no number comes after.
pub proof fn law_lines_are_read_by_their_fields(fields: EventFields, line: Seq<char>)
    requires
        fields_say(fields, line),
    ensures
        fields.step == json_count(line, "step"@),
        fields.total_steps == json_count(line, "total_steps"@),
        fields.event matches Some(e) ==> json_text(line, "event"@) == Some(e@),
        fields.event is None ==> json_text(line, "event"@) is None,
        fields.path matches Some(p) ==> json_text(line, "path"@) == Some(p@),
        fields.path is None ==> json_text(line, "path"@) is None,
        fields.training_loss matches Some(x) ==> json_bits(line, "training_loss"@) == Some(x.bits),
        fields.value_loss matches Some(x) ==> json_bits(line, "value_loss"@) == Some(x.bits),
        fields.steps_per_second matches Some(x) ==> json_bits(line, "steps_per_second"@) == Some(
            x.bits,
        ),
        fields.final_value_loss matches Some(x) ==> json_bits(line, "final_value_loss"@) == Some(
            x.bits,
        ),
        json_text(line, "event"@) != Some("training_progress"@) ==> is_countable(
            json_text(line, "event"@),
            json_count(line, "step"@),
        ),
        fields.step is None ==> is_countable(json_text(line, "event"@), json_count(line, "step"@)),
        fields.step matches Some(step) ==> step < usize::MAX ==> is_countable(
            json_text(line, "event"@),
            json_count(line, "step"@),
        ),
{
}

/// A run that has just started is going, under its id, with what was asked for, and with nothing
/// done yet; and no other can start beside it.
pub proof fn law_new_runs_have_done_nothing(
    slot: RunSlot,
    id: Seq<char>,
    request: TrainRequest,
    now_unix: u64,
    limits: ServerLimits,
)
    requires
        holds_new_run(slot, id, request, now_unix),
    ensures
        slot.record is Some,
        slot_runs(slot),
        stoppable(slot, id),
        holds_run(slot, id),
        ({
            let record = slot.record->Some_0;
            &&& record.run_id@ == id
            &&& record.steps_completed == 0
            &&& record.total_steps == request.train_steps
            &&& record.request == request
            &&& record.started_at_unix == now_unix
            &&& record.ended_at_unix is None
            &&& record.error is None
            &&& record.checkpoints@.len() == 0
        }),
        start_problem(slot, request, limits, true) is Some,
{
}

/// A run can be stopped exactly while it is going, and by its own id alone.
pub proof fn law_runs_are_stopped_by_their_own_id(slot: RunSlot, id: Seq<char>, other: Seq<char>)
    ensures
        stoppable(slot, id) <==> (slot.record matches Some(r) && r.status == TrainRunStatus::Running
            && r.run_id@ == id),
        stoppable(slot, id) && stoppable(slot, other) ==> id == other,
{
}

} // verus!

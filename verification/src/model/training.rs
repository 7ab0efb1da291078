//! The schedule of a training run: which steps run, log and save, and where an interrupt stops it.
//!
//! The tensor work of a step is the caller's. The caller asks [`TrainingLoop::next_step`] before
//! every step and tells [`TrainingLoop::step_done`] after it.
use vstd::prelude::*;

use crate::loader::data::SamplingPolicy;
use crate::observability::EventLogger;
use crate::reals::{Real, ShortReal};

verus! {

/// How the learning rate moves over a run.
#[derive(Debug, Clone, Copy, PartialEq, Eq, Structural)]
pub enum LearningRateSchedule {
    Constant,
    WarmupCosine,
    WarmupLinear,
}

/// Who trains what, and where the log lines go.
#[derive(Clone)]
pub struct TrainingLogContext<S> {
    pub backend: &'static str,
    pub model: &'static str,
    pub logger: EventLogger<S>,
}

/// The settings of a training run.
#[derive(Clone)]
pub struct TrainingParams<S> {
    pub learning_rate: Real,
    pub learning_rate_schedule: LearningRateSchedule,
    pub lr_warmup_steps: usize,
    pub sampling_policy: SamplingPolicy,
    pub steps: usize,
    pub eval_interval: usize,
    pub prefetch_batches: usize,
    /// The norm that gradients are clipped to, where they are.
    pub grad_clipping: Option<ShortReal>,
    pub log_context: TrainingLogContext<S>,
    /// Steps between two mid-run saves. Zero saves none.
    pub periodic_checkpoint_interval: usize,
    /// The step that the run begins at. Zero for a fresh run, and the steps already completed
    /// where a run is resumed.
    pub start_step: usize,
}

/// What a run came to.
#[derive(Debug, Clone, Copy, PartialEq, Eq, Structural)]
pub struct TrainingMetrics {
    pub final_value_loss: Real,
    pub final_perplexity: Real,
}

/// A trained model and how far its training went.
pub struct TrainingOutcome<M> {
    pub model: M,
    pub metrics: TrainingMetrics,
    /// The steps that were completed, counted from the very first one.
    pub steps_completed: usize,
    /// Whether an interrupt stopped the run early.
    pub interrupted: bool,
}

impl<S> TrainingParams<S> {
    /// Settings of a fresh run at a constant rate, without prefetching, clipping or mid-run saves.
    pub fn new(
        learning_rate: Real,
        steps: usize,
        eval_interval: usize,
        log_context: TrainingLogContext<S>,
    ) -> (p: TrainingParams<S>)
        ensures
            p == (TrainingParams {
                learning_rate,
                learning_rate_schedule: LearningRateSchedule::Constant,
                lr_warmup_steps: 0,
                sampling_policy: SamplingPolicy::RandomWindow,
                steps,
                eval_interval,
                prefetch_batches: 0,
                grad_clipping: None,
                log_context,
                periodic_checkpoint_interval: 0,
                start_step: 0,
            }),
    {
        TrainingParams {
            learning_rate,
            learning_rate_schedule: LearningRateSchedule::Constant,
            lr_warmup_steps: 0,
            sampling_policy: SamplingPolicy::RandomWindow,
            steps,
            eval_interval,
            prefetch_batches: 0,
            grad_clipping: None,
            log_context,
            periodic_checkpoint_interval: 0,
            start_step: 0,
        }
    }

    /// These settings with gradients clipped to a norm.
    pub fn with_grad_clip_norm(self, norm: ShortReal) -> (p: TrainingParams<S>)
        ensures
            p == (TrainingParams { grad_clipping: Some(norm), ..self }),
    {
        TrainingParams { grad_clipping: Some(norm), ..self }
    }

    /// These settings with a learning rate that moves over the run.
    pub fn with_learning_rate_schedule(self, learning_rate_schedule: LearningRateSchedule, lr_warmup_steps: usize) -> (p: TrainingParams<S>)
        ensures
            p == (TrainingParams { learning_rate_schedule, lr_warmup_steps, ..self }),
    {
        TrainingParams { learning_rate_schedule, lr_warmup_steps, ..self }
    }

    /// These settings with batches placed by a policy.
    pub fn with_sampling_policy(self, sampling_policy: SamplingPolicy) -> (p: TrainingParams<S>)
        ensures
            p == (TrainingParams { sampling_policy, ..self }),
    {
        TrainingParams { sampling_policy, ..self }
    }

    /// These settings for a run that begins at the given step.
    pub fn with_start_step(self, start_step: usize) -> (p: TrainingParams<S>)
        ensures
            p == (TrainingParams { start_step, ..self }),
    {
        TrainingParams { start_step, ..self }
    }

    /// These settings with batches prepared ahead.
    pub fn with_prefetch_batches(self, batches: usize) -> (p: TrainingParams<S>)
        ensures
            p == (TrainingParams { prefetch_batches: batches, ..self }),
    {
        TrainingParams { prefetch_batches: batches, ..self }
    }

    /// These settings with a mid-run save every so many steps.
    pub fn with_periodic_checkpoint_interval(self, interval: usize) -> (p: TrainingParams<S>)
        ensures
            p == (TrainingParams { periodic_checkpoint_interval: interval, ..self }),
    {
        TrainingParams { periodic_checkpoint_interval: interval, ..self }
    }
}

/// Whether a step is logged: the last one always, and with an interval every step at a multiple of
/// it. A run no longer than the interval logs every step.
pub open spec fn logs_step(step: int, steps: int, eval_interval: int) -> bool {
    if eval_interval == 0 {
        step + 1 == steps
    } else {
        steps <= eval_interval || step % eval_interval == 0 || step + 1 == steps
    }
}

/// Whether a checkpoint is saved once `completed` steps are done: at every multiple of the
/// interval but the end, which is saved anyway.
pub open spec fn saves_at(completed: int, steps: int, interval: int) -> bool {
    interval > 0 && completed != steps && completed % interval == 0
}

/// Whether a step is logged: see [`logs_step`].
pub fn should_log_training_step(step: usize, steps: usize, eval_interval: usize) -> (yes: bool)
    requires
        step < usize::MAX,
    ensures
        yes == logs_step(step as int, steps as int, eval_interval as int),
{
    if eval_interval == 0 {
        return step + 1 == steps;
    }
    steps <= eval_interval || step % eval_interval == 0 || step + 1 == steps
}

/// What to do next in a training run.
#[derive(Debug, Clone, Copy, PartialEq, Eq, Structural)]
pub enum TrainingAction {
    /// Run this step.
    RunStep { step: usize },
    /// The run is over.
    Stop { interrupted: bool },
}

/// What to do after a step.
#[derive(Debug, Clone, Copy, PartialEq, Eq, Structural)]
pub struct AfterStep {
    /// Save a mid-run checkpoint of so many completed steps.
    pub save: Option<usize>,
    /// Measure and log this step.
    pub log: bool,
}

/// A training run in progress.
#[derive(Debug, Clone, Copy, PartialEq, Eq, Structural)]
pub struct TrainingLoop {
    pub start_step: usize,
    pub steps: usize,
    pub eval_interval: usize,
    pub interval: usize,
    /// The steps that are done, counted from the very first one.
    pub steps_completed: usize,
    pub interrupted: bool,
    /// The value loss that was measured last.
    pub last_value_loss: Option<Real>,
}

/// The bits of a loss that could not be measured.
pub const UNKNOWN_LOSS_BITS: u64 = 0x7ff8_0000_0000_0000;

impl TrainingLoop {
    /// A run of the given settings, before its first step.
    pub open spec fn first<S>(params: TrainingParams<S>) -> TrainingLoop {
        TrainingLoop {
            start_step: params.start_step,
            steps: params.steps,
            eval_interval: params.eval_interval,
            interval: params.periodic_checkpoint_interval,
            steps_completed: params.start_step,
            interrupted: false,
            last_value_loss: None,
        }
    }

    /// What holds between two steps: no step before the first is done, and none after the last.
    pub open spec fn well_formed(self) -> bool {
        &&& self.start_step <= self.steps_completed
        &&& self.steps_completed <= self.steps || self.steps_completed == self.start_step
    }

    /// Whether there is a step left to run.
    pub open spec fn unfinished(self) -> bool {
        !self.interrupted && self.steps_completed < self.steps
    }

    /// A run of the given settings, before its first step.
    pub fn begin<S>(params: &TrainingParams<S>) -> (run: TrainingLoop)
        ensures
            run.well_formed(),
            run == TrainingLoop::first(*params),
    {
        TrainingLoop {
            start_step: params.start_step,
            steps: params.steps,
            eval_interval: params.eval_interval,
            interval: params.periodic_checkpoint_interval,
            steps_completed: params.start_step,
            interrupted: false,
            last_value_loss: None,
        }
    }

    /// This run once it has been asked whether it is interrupted.
    pub open spec fn asked(self, interrupt_requested: bool) -> TrainingLoop {
        TrainingLoop {
            interrupted: self.interrupted || (self.unfinished() && interrupt_requested),
            ..self
        }
    }

    /// What this run does next: the next step, unless it is over or an interrupt stops it before
    /// the step begins.
    pub open spec fn next_action(self, interrupt_requested: bool) -> TrainingAction {
        if self.unfinished() && !interrupt_requested {
            TrainingAction::RunStep { step: self.steps_completed }
        } else {
            TrainingAction::Stop { interrupted: self.asked(interrupt_requested).interrupted }
        }
    }

    /// The next step, unless the run is over or an interrupt stops it before the step begins.
    pub fn next_step(&mut self, interrupt_requested: bool) -> (action: TrainingAction)
        requires
            old(self).well_formed(),
        ensures
            final(self).well_formed(),
            *final(self) == old(self).asked(interrupt_requested),
            action == old(self).next_action(interrupt_requested),
    {
        if self.interrupted || self.steps_completed >= self.steps {
            return TrainingAction::Stop { interrupted: self.interrupted };
        }
        if interrupt_requested {
            self.interrupted = true;
            return TrainingAction::Stop { interrupted: true };
        }
        TrainingAction::RunStep { step: self.steps_completed }
    }

    /// Counts a step as done, and says whether to save and to log.
    pub fn step_done(&mut self) -> (after: AfterStep)
        requires
            old(self).well_formed(),
            old(self).unfinished(),
        ensures
            final(self).well_formed(),
            *final(self) == (TrainingLoop {
                steps_completed: (old(self).steps_completed + 1) as usize,
                ..*old(self)
            }),
            after.save == (if saves_at(
                old(self).steps_completed + 1,
                old(self).steps as int,
                old(self).interval as int,
            ) {
                Some((old(self).steps_completed + 1) as usize)
            } else {
                None
            }),
            after.log == logs_step(
                old(self).steps_completed as int,
                old(self).steps as int,
                old(self).eval_interval as int,
            ),
    {
        let step: usize = self.steps_completed;
        self.steps_completed = step + 1;
        let save = if self.interval > 0 && self.steps_completed != self.steps
            && self.steps_completed % self.interval == 0 {
            Some(self.steps_completed)
        } else {
            None
        };
        AfterStep { save, log: should_log_training_step(step, self.steps, self.eval_interval) }
    }

    /// Takes the value loss of a logged step in.
    pub fn step_logged(&mut self, value_loss: Real)
        requires
            old(self).well_formed(),
        ensures
            final(self).well_formed(),
            *final(self) == (TrainingLoop { last_value_loss: Some(value_loss), ..*old(self) }),
    {
        self.last_value_loss = Some(value_loss);
    }

    /// The value loss of the run: the one logged last, or else what one more measurement gave.
    pub fn final_value_loss(&self, measured: Option<Real>) -> (loss: Real)
        ensures
            loss == (match (self.last_value_loss, measured) {
                (Some(logged), _) => logged,
                (None, Some(m)) => m,
                (None, None) => Real { bits: UNKNOWN_LOSS_BITS },
            }),
    {
        match self.last_value_loss {
            Some(logged) => logged,
            None => match measured {
                Some(m) => m,
                None => Real { bits: UNKNOWN_LOSS_BITS },
            },
        }
    }

    /// What the run came to.
    pub fn finish<M>(self, model: M, metrics: TrainingMetrics) -> (outcome: TrainingOutcome<M>)
        ensures
            outcome == (TrainingOutcome {
                model,
                metrics,
                steps_completed: self.steps_completed,
                interrupted: self.interrupted,
            }),
    {
        TrainingOutcome {
            model,
            metrics,
            steps_completed: self.steps_completed,
            interrupted: self.interrupted,
        }
    }
}

/// A run after `n` more steps, where no interrupt comes.
pub open spec fn after_steps(run: TrainingLoop, n: nat) -> TrainingLoop {
    TrainingLoop { steps_completed: (run.steps_completed + n) as usize, ..run }
}

/// A run that is not interrupted runs every step from its first to its last, each once, and then
/// stops with the target reached. A resumed run runs exactly the steps that are missing, under the
/// numbers that they would have had without the break.
pub proof fn law_runs_the_missing_steps<S>(params: TrainingParams<S>, n: nat)
    requires
        params.start_step <= params.steps,
        n <= params.steps - params.start_step,
    ensures
        ({
            let now = after_steps(TrainingLoop::first(params), n);
            &&& now.well_formed()
            &&& now.steps_completed == params.start_step + n
            &&& now.unfinished() <==> n < params.steps - params.start_step
            &&& n == params.steps - params.start_step ==> now.steps_completed == params.steps
        }),
{
}

/// A run saves in the middle exactly at the multiples of the interval that come before its end.
pub proof fn law_saves_are_the_multiples(completed: int, steps: int, interval: int)
    requires
        0 < completed <= steps,
        interval >= 0,
    ensures
        saves_at(completed, steps, interval) <==> completed < steps && exists|k: int|
            k > 0 && completed == #[trigger] (k * interval),
{
    if saves_at(completed, steps, interval) {
        let k = completed / interval;
        assert(completed == k * interval && k > 0) by (nonlinear_arith)
            requires
                interval > 0,
                completed > 0,
                completed % interval == 0,
                k == completed / interval,
        ;
    }
    if exists|k: int| k > 0 && completed == #[trigger] (k * interval) {
        let k = choose|k: int| k > 0 && completed == #[trigger] (k * interval);
        assert(interval > 0) by (nonlinear_arith)
            requires
                completed > 0,
                interval >= 0,
                completed == k * interval,
        ;
        vstd::arithmetic::div_mod::lemma_mod_multiples_basic(k, interval);
    }
}

/// The last step of a run is always logged, so a run that is not interrupted always ends with a
/// measured loss.
pub proof fn law_last_step_is_logged(steps: int, eval_interval: int)
    requires
        steps > 0,
        eval_interval >= 0,
    ensures
        logs_step(steps - 1, steps, eval_interval),
{
}

/// What a run does next. As long as steps are missing and no interrupt has come, it runs the step
/// of the number of steps that are done. Else it stops, and says that it was interrupted exactly
/// where an interrupt came before its end.
pub proof fn law_what_a_run_does_next(run: TrainingLoop, interrupt_requested: bool)
    ensures
        !run.interrupted && run.steps_completed < run.steps && !interrupt_requested
            ==> run.next_action(interrupt_requested) == (TrainingAction::RunStep {
            step: run.steps_completed,
        }) && run.asked(interrupt_requested) == run,
        !run.interrupted && run.steps_completed < run.steps && interrupt_requested
            ==> run.next_action(interrupt_requested) == (TrainingAction::Stop { interrupted: true })
            && run.asked(interrupt_requested).interrupted,
        !run.interrupted && run.steps_completed >= run.steps ==> run.next_action(
            interrupt_requested,
        ) == (TrainingAction::Stop { interrupted: false }) && run.asked(interrupt_requested) == run,
        run.interrupted ==> run.next_action(interrupt_requested) == (TrainingAction::Stop {
            interrupted: true,
        }),
        run.asked(interrupt_requested).steps_completed == run.steps_completed,
{
}

/// The steps that are logged: without an interval only the last, and with one the last, every
/// multiple of the interval, and all of them in a run that is no longer than the interval.
pub proof fn law_logged_steps(step: int, steps: int, eval_interval: int)
    requires
        0 <= step < steps,
        eval_interval >= 0,
    ensures
        eval_interval == 0 ==> (logs_step(step, steps, eval_interval) <==> step == steps - 1),
        0 < steps <= eval_interval ==> logs_step(step, steps, eval_interval),
        0 < eval_interval < steps ==> (logs_step(step, steps, eval_interval) <==> step == steps - 1
            || exists|k: int| k >= 0 && step == #[trigger] (k * eval_interval)),
{
    if 0 < eval_interval {
        let k = step / eval_interval;
        assert(step == k * eval_interval + step % eval_interval && k >= 0) by (nonlinear_arith)
            requires
                k == step / eval_interval,
                eval_interval > 0,
                step >= 0,
        ;
        if step % eval_interval == 0 {
            assert(step == k * eval_interval);
        }
        if exists|j: int| j >= 0 && step == #[trigger] (j * eval_interval) {
            let j = choose|j: int| j >= 0 && step == #[trigger] (j * eval_interval);
            assert(step % eval_interval == 0) by (nonlinear_arith)
                requires
                    step == j * eval_interval,
                    eval_interval > 0,
            ;
        }
    }
}

/// A run begins with its settings, at the step that it starts from, and with nothing measured.
pub proof fn law_runs_begin_with_their_settings<S>(params: TrainingParams<S>)
    ensures
        ({
            let run = TrainingLoop::first(params);
            &&& run.start_step == params.start_step
            &&& run.steps_completed == params.start_step
            &&& run.steps == params.steps
            &&& run.eval_interval == params.eval_interval
            &&& run.interval == params.periodic_checkpoint_interval
            &&& !run.interrupted
            &&& run.last_value_loss is None
            &&& run.unfinished() <==> params.start_step < params.steps
        }),
{
}

} // verus!

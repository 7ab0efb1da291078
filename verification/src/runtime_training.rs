//! A training run around its steps: what it starts from, what it saves, what it keeps.
use vstd::prelude::*;

use crate::failure::Failure;
use crate::loader::data::DataLoader;
use crate::model::persistence;
use crate::model::persistence::{
    CheckpointMetadata, CheckpointModelShape, CheckpointTokenizer, CheckpointTrainingMetrics,
    CheckpointTrainingRun,
};
use crate::model::training;
use crate::model::training::{
    TrainingLogContext, TrainingLoop, TrainingMetrics, TrainingParams,
};
use crate::observability::RuntimeEvent;
use crate::path;
use crate::ranking;
use crate::reals::Real;
use crate::runtime_config;
use crate::runtime_config::{Hyperparameters, ModelChoice};
use crate::runtime_signals::INTERRUPTED_EXIT_CODE;
use crate::text;

verus! {

// ---------------------------------------------------------------------------------------
// Before the run
// ---------------------------------------------------------------------------------------

/// Refuses a generation benchmark of models that do not generate.
pub fn check_benchmark_model(benchmark_generation: bool, model: ModelChoice) -> (r: Result<
    (),
    Failure,
>)
    ensures
        match r {
            Ok(_) => benchmark_generation ==> runtime_config::generates(model),
            Err(e) => benchmark_generation && !runtime_config::generates(model) && e.cause is None && e.message@
                == "generation benchmarks require --model minigpt, moe-gpt, or compare"@,
        },
{
    if benchmark_generation && !model.includes_generation_model() {
        return Err(
            Failure::new("generation benchmarks require --model minigpt, moe-gpt, or compare"),
        );
    }
    Ok(())
}

/// How many tokens are set apart to measure the value loss: the last tenth.
pub open spec fn value_len(tokens: Seq<usize>) -> int {
    tokens.len() as int / 10
}

/// Why a stream is too short to be split, if it is.
pub open spec fn split_problem(tokens: Seq<usize>, block_size: usize) -> Option<Seq<char>> {
    let split_at = tokens.len() - value_len(tokens);
    if value_len(tokens) < 2 {
        Some(
            "not enough input tokens for value loss: last 10% has "@ + text::decimal(
                value_len(tokens) as nat,
            ) + " tokens, need at least 2"@,
        )
    } else if split_at < block_size + 1 {
        Some(
            "not enough input tokens for training loss: first 90% has "@ + text::decimal(
                split_at as nat,
            ) + " tokens, need at least "@ + text::decimal((block_size + 1) as nat),
        )
    } else {
        None
    }
}

/// The context length of the value windows.
pub open spec fn value_block_size(tokens: Seq<usize>, block_size: usize) -> int {
    if block_size <= value_len(tokens) - 1 {
        block_size as int
    } else {
        value_len(tokens) - 1
    }
}

/// Splits a token stream into the part to train on and the part to measure on, and gives the
/// context length for the latter.
pub fn split_training_and_value_tokens(tokens: &[usize], block_size: usize) -> (r: Result<
    (Vec<usize>, Vec<usize>, usize),
    Failure,
>)
    requires
        value_len(tokens@) >= 2 ==> block_size < usize::MAX,
    ensures
        match r {
            Ok(parts) => {
                &&& split_problem(tokens@, block_size) is None
                &&& parts.0@ == tokens@.take(tokens@.len() - value_len(tokens@))
                &&& parts.1@ == tokens@.skip(tokens@.len() - value_len(tokens@))
                &&& parts.2 == value_block_size(tokens@, block_size)
                &&& parts.0@ + parts.1@ == tokens@
                &&& 10 * parts.1@.len() <= tokens@.len() < 10 * (parts.1@.len() + 1)
                &&& parts.1@.len() >= 2 && parts.0@.len() > block_size
                &&& parts.2 == block_size || (parts.2 < block_size && parts.2 + 1
                    == parts.1@.len())
                &&& parts.2 < parts.1@.len()
            },
            Err(e) => {
                &&& split_problem(tokens@, block_size) == Some(e.message@) && e.cause is None
                &&& tokens@.len() < 20 || 9 * tokens@.len() <= 10 * block_size
            },
        },
{
    let last: usize = tokens.len() / 10;
    if last < 2 {
        let mut message = "not enough input tokens for value loss: last 10% has ".to_owned();
        message.append(text::usize_text(last).as_str());
        message.append(" tokens, need at least 2");
        return Err(Failure::of(message));
    }
    let split_at: usize = tokens.len() - last;
    let min_tokens: usize = block_size + 1;
    if split_at < min_tokens {
        let mut message = "not enough input tokens for training loss: first 90% has ".to_owned();
        message.append(text::usize_text(split_at).as_str());
        message.append(" tokens, need at least ");
        message.append(text::usize_text(min_tokens).as_str());
        return Err(Failure::of(message));
    }
    let block: usize = if block_size <= last - 1 {
        block_size
    } else {
        last - 1
    };
    let training = copy_tokens(tokens, 0, split_at);
    let value = copy_tokens(tokens, split_at, tokens.len());
    assert(training@ == tokens@.take(split_at as int));
    assert(value@ == tokens@.skip(split_at as int));
    Ok((training, value, block))
}

fn copy_tokens(tokens: &[usize], from: usize, to: usize) -> (part: Vec<usize>)
    requires
        from <= to <= tokens@.len(),
    ensures
        part@ == tokens@.subrange(from as int, to as int),
{
    let mut part: Vec<usize> = Vec::new();
    let mut i: usize = from;
    while i < to
        invariant
            from <= i <= to <= tokens@.len(),
            part@ == tokens@.subrange(from as int, i as int),
        decreases to - i,
    {
        part.push(tokens[i]);
        i += 1;
    }
    part
}

/// The two parts of every stream that can be split are the whole of it, in order, and each holds a
/// window with its target.
pub proof fn law_split_loses_nothing(tokens: Seq<usize>, block_size: usize)
    requires
        split_problem(tokens, block_size) is None,
    ensures
        ({
            let at = tokens.len() - value_len(tokens);
            &&& tokens.take(at) + tokens.skip(at) == tokens
            &&& tokens.take(at).len() > block_size
            &&& tokens.skip(at).len() > value_block_size(tokens, block_size)
            &&& value_block_size(tokens, block_size) >= 1 || block_size == 0
        }),
{
}

/// The part to measure on is a tenth of the stream, rounded down, whatever its length. A stream is
/// refused exactly where that tenth holds no input with its target, or the rest no window with
/// its target. The windows to measure on are as long as those to train on, or as long as they can
/// be.
pub proof fn law_a_tenth_is_measured_on(tokens: Seq<usize>, block_size: usize)
    ensures
        ({
            let value = tokens.skip(tokens.len() - value_len(tokens));
            let training = tokens.take(tokens.len() - value_len(tokens));
            &&& 10 * value.len() <= tokens.len() < 10 * (value.len() + 1)
            &&& training.len() + value.len() == tokens.len()
            &&& split_problem(tokens, block_size) is None <==> value.len() >= 2 && training.len()
                > block_size
            &&& block_size < value.len() ==> value_block_size(tokens, block_size) == block_size
            &&& block_size >= value.len() ==> value_block_size(tokens, block_size) == value.len()
                - 1
        }),
{
}

/// The batches to train on and the batches to measure on.
pub fn training_loaders(tokens: &[usize], hyperparameters: &Hyperparameters) -> (r: Result<
    (DataLoader, DataLoader),
    Failure,
>)
    requires
        value_len(tokens@) >= 2 ==> hyperparameters.block_size < usize::MAX,
    ensures
        match r {
            Ok(loaders) => {
                &&& split_problem(tokens@, hyperparameters.block_size) is None
                &&& loaders.0.tokens@ == tokens@.take(tokens@.len() - value_len(tokens@))
                &&& loaders.0.block_size == hyperparameters.block_size
                &&& loaders.0.batch_size == hyperparameters.batch_size
                &&& loaders.1.tokens@ == tokens@.skip(tokens@.len() - value_len(tokens@))
                &&& loaders.1.block_size == value_block_size(tokens@, hyperparameters.block_size)
                &&& loaders.1.batch_size == hyperparameters.batch_size
                &&& loaders.0.tokens@ + loaders.1.tokens@ == tokens@
                &&& 10 * loaders.1.tokens@.len() <= tokens@.len() < 10 * (loaders.1.tokens@.len()
                    + 1)
                &&& loaders.1.block_size <= hyperparameters.block_size
            },
            Err(e) => split_problem(tokens@, hyperparameters.block_size) == Some(e.message@) && e.cause is None,
        },
{
    match split_training_and_value_tokens(tokens, hyperparameters.block_size) {
        Ok(parts) => {
            let (training, value, block) = parts;
            Ok(
                (
                    DataLoader {
                        tokens: training,
                        block_size: hyperparameters.block_size,
                        batch_size: hyperparameters.batch_size,
                    },
                    DataLoader {
                        tokens: value,
                        block_size: block,
                        batch_size: hyperparameters.batch_size,
                    },
                ),
            )
        },
        Err(e) => Err(e),
    }
}

/// The settings of a run: those of the hyperparameters, and for a model that keeps checkpoints
/// also clipped gradients and the step to begin at.
pub open spec fn run_params<S>(
    hyperparameters: Hyperparameters,
    model: ModelChoice,
    log_context: TrainingLogContext<S>,
    start_step: usize,
) -> TrainingParams<S> {
    TrainingParams {
        learning_rate: hyperparameters.learning_rate,
        learning_rate_schedule: hyperparameters.learning_rate_schedule,
        lr_warmup_steps: hyperparameters.lr_warmup_steps,
        sampling_policy: hyperparameters.sampling_policy,
        steps: hyperparameters.train_steps,
        eval_interval: hyperparameters.eval_interval,
        prefetch_batches: hyperparameters.prefetch_batches,
        grad_clipping: if runtime_config::checkpoint_backed(model) {
            Some(hyperparameters.minigpt_grad_clip_norm)
        } else {
            None
        },
        log_context,
        periodic_checkpoint_interval: hyperparameters.checkpoint_interval,
        start_step: if runtime_config::checkpoint_backed(model) {
            start_step
        } else {
            0
        },
    }
}

/// The settings of a run: see [`run_params`].
pub fn training_params<S>(
    hyperparameters: &Hyperparameters,
    model: ModelChoice,
    log_context: TrainingLogContext<S>,
    start_step: usize,
) -> (params: TrainingParams<S>)
    ensures
        params == run_params(*hyperparameters, model, log_context, start_step),
{
    let params = TrainingParams::new(
        hyperparameters.learning_rate,
        hyperparameters.train_steps,
        hyperparameters.eval_interval,
        log_context,
    ).with_prefetch_batches(hyperparameters.prefetch_batches).with_learning_rate_schedule(
        hyperparameters.learning_rate_schedule,
        hyperparameters.lr_warmup_steps,
    ).with_sampling_policy(
        hyperparameters.sampling_policy,
    ).with_periodic_checkpoint_interval(hyperparameters.checkpoint_interval);
    if model.is_checkpoint_backed() {
        params.with_grad_clip_norm(hyperparameters.minigpt_grad_clip_norm).with_start_step(
            start_step,
        )
    } else {
        params
    }
}

/// What is logged when a run starts.
pub fn training_started(
    hyperparameters: &Hyperparameters,
    model: ModelChoice,
    backend: &str,
    vocab_size: usize,
) -> (event: RuntimeEvent)
    ensures
        match event {
            RuntimeEvent::TrainingStarted {
                backend: b,
                model: m,
                vocab_size: v,
                batch_size,
                block_size,
                total_steps,
            } => {
                &&& b@ == backend@
                &&& m@ == runtime_config::model_label(model)
                &&& v == vocab_size
                &&& batch_size == hyperparameters.batch_size
                &&& block_size == hyperparameters.block_size
                &&& total_steps == hyperparameters.train_steps
            },
            _ => false,
        },
{
    RuntimeEvent::TrainingStarted {
        backend: backend.to_owned(),
        model: model.label().to_owned(),
        vocab_size,
        batch_size: hyperparameters.batch_size,
        block_size: hyperparameters.block_size,
        total_steps: hyperparameters.train_steps,
    }
}

/// What is logged when a run has come to its end. The two metrics are given as they are printed.
pub fn training_completed(
    hyperparameters: &Hyperparameters,
    model: ModelChoice,
    backend: &str,
    elapsed_ms: u128,
    final_value_loss: String,
    final_perplexity: String,
) -> (event: RuntimeEvent)
    ensures
        match event {
            RuntimeEvent::TrainingCompleted {
                backend: b,
                model: m,
                total_steps,
                elapsed_ms: e,
                final_value_loss: l,
                final_perplexity: p,
            } => {
                &&& b@ == backend@
                &&& m@ == runtime_config::model_label(model)
                &&& total_steps == hyperparameters.train_steps
                &&& e == elapsed_ms
                &&& l == final_value_loss
                &&& p == final_perplexity
            },
            _ => false,
        },
{
    RuntimeEvent::TrainingCompleted {
        backend: backend.to_owned(),
        model: model.label().to_owned(),
        total_steps: hyperparameters.train_steps,
        elapsed_ms,
        final_value_loss,
        final_perplexity,
    }
}

/// What the failure of a run is introduced with.
pub open spec fn training_context(model: ModelChoice) -> Seq<char> {
    match model {
        ModelChoice::Trivial => "failed to train trivial model"@,
        ModelChoice::SingleAttention => "failed to train single attention model"@,
        ModelChoice::MultiAttention => "failed to train multi attention model"@,
        ModelChoice::MiniGpt => "failed to train minigpt model"@,
        ModelChoice::MoeGpt => "failed to train moe-gpt model"@,
        ModelChoice::Compare => Seq::empty(),
    }
}

/// What the failure of a run is introduced with. A comparison is taken apart before it runs.
pub fn training_failure_context(model: ModelChoice) -> (s: &'static str)
    requires
        model !is Compare,
    ensures
        s@ == training_context(model),
{
    match model {
        ModelChoice::Trivial => "failed to train trivial model",
        ModelChoice::SingleAttention => "failed to train single attention model",
        ModelChoice::MultiAttention => "failed to train multi attention model",
        ModelChoice::MiniGpt => "failed to train minigpt model",
        ModelChoice::MoeGpt => "failed to train moe-gpt model",
        ModelChoice::Compare => "",
    }
}

// ---------------------------------------------------------------------------------------
// Checkpoint paths
// ---------------------------------------------------------------------------------------

/// The last name of a path, or a name for what has none.
pub open spec fn checkpoint_name(base: Seq<char>) -> Seq<char> {
    match path::file_name(base) {
        Some(name) => name,
        None => "checkpoint"@,
    }
}

/// A path beside `base`, whose name is that of `base` with a tag behind it.
pub open spec fn tagged_path(base: Seq<char>, tag: Seq<char>) -> Seq<char> {
    let tagged = checkpoint_name(base) + tag;
    match path::parent(base) {
        Some(parent) => if parent.len() > 0 {
            path::join(parent, tagged)
        } else {
            tagged
        },
        None => tagged,
    }
}

/// The tag of a checkpoint that was saved when a run was interrupted.
pub open spec fn interrupted_tag(step: usize) -> Seq<char> {
    ".interrupted-step-"@ + text::decimal(step as nat) + ".mpk"@
}

/// The tag of a mid-run checkpoint.
pub open spec fn step_tag(step: usize) -> Seq<char> {
    ".step-"@ + text::decimal(step as nat) + ".mpk"@
}

fn path_with_tag(base: &str, tag: &str) -> (p: String)
    ensures
        p@ == tagged_path(base@, tag@),
{
    let mut tagged = match path::path_file_name(base) {
        Some(name) => name,
        None => "checkpoint".to_owned(),
    };
    tagged.append(tag);
    match path::path_parent(base) {
        Some(parent) => {
            if !text::same_text(parent.as_str(), "") {
                proof {
                    reveal_strlit("");
                }
                path::path_join(parent.as_str(), tagged.as_str())
            } else {
                proof {
                    reveal_strlit("");
                }
                tagged
            }
        },
        None => tagged,
    }
}

/// Where the checkpoint of an interrupted run is saved. The path ends in `.mpk` already, so that
/// setting that extension leaves the tag alone.
pub fn interrupted_checkpoint_path(base: &str, step: usize) -> (p: String)
    ensures
        p@ == tagged_path(base@, interrupted_tag(step)),
{
    let mut tag = ".interrupted-step-".to_owned();
    tag.append(text::usize_text(step).as_str());
    tag.append(".mpk");
    path_with_tag(base, tag.as_str())
}

/// Where a mid-run checkpoint is saved.
pub fn step_checkpoint_path(base: &str, step: usize) -> (p: String)
    ensures
        p@ == tagged_path(base@, step_tag(step)),
{
    let mut tag = ".step-".to_owned();
    tag.append(text::usize_text(step).as_str());
    tag.append(".mpk");
    path_with_tag(base, tag.as_str())
}

/// The file that a checkpoint is resumed from.
pub open spec fn resume_file(resume_path: Seq<char>) -> Seq<char> {
    if path::extension(resume_path) == Some("mpk"@) {
        resume_path
    } else {
        resume_path + ".mpk"@
    }
}

/// The file that a checkpoint is resumed from: a name with a dot in it is not cut at the dot.
pub fn resume_load_path(resume_path: &str) -> (p: String)
    ensures
        p@ == resume_file(resume_path@),
{
    match path::path_extension(resume_path) {
        Some(ext) => {
            if text::same_text(ext.as_str(), "mpk") {
                return resume_path.to_owned();
            }
        },
        None => {},
    }
    let mut p = resume_path.to_owned();
    p.append(".mpk");
    p
}

proof fn lemma_checkpoint_name_is_plain(base: Seq<char>)
    ensures
        checkpoint_name(base).len() > 0,
        forall|i: int| 0 <= i < checkpoint_name(base).len() ==> #[trigger] checkpoint_name(base)[i]
            != '/',
{
    match path::file_name(base) {
        Some(name) => path::lemma_file_name_is_plain(base),
        None => {
            reveal_strlit("checkpoint");
        },
    }
}

/// A tag without a slash stays the end of the last name.
proof fn lemma_tagged_name(base: Seq<char>, tag: Seq<char>)
    requires
        tag.len() >= 4,
        forall|i: int| 0 <= i < tag.len() ==> #[trigger] tag[i] != '/',
    ensures
        path::file_name(tagged_path(base, tag)) == Some(checkpoint_name(base) + tag),
        path::body(tagged_path(base, tag)) == tagged_path(base, tag),
{
    let name = checkpoint_name(base) + tag;
    lemma_checkpoint_name_is_plain(base);
    assert(name.len() > 4);
    assert(!path::is_absolute(name)) by {
        assert(name[0] == checkpoint_name(base)[0]);
    }
    assert forall|i: int| 0 <= i < name.len() implies #[trigger] name[i] != '/' by {
        if i < checkpoint_name(base).len() {
            assert(name[i] == checkpoint_name(base)[i]);
        } else {
            assert(name[i] == tag[i - checkpoint_name(base).len()]);
        }
    }
    let directory = match path::parent(base) {
        Some(parent) => if parent.len() == 0 || parent.last() == '/' {
            parent
        } else {
            parent.push('/')
        },
        None => Seq::empty(),
    };
    assert(tagged_path(base, tag) =~= directory + name);
    path::lemma_name_in_directory(directory, name);
}

/// Setting the extension of a path that has it already changes nothing.
proof fn lemma_extension_stays(p: Seq<char>, name: Seq<char>)
    requires
        path::body(p) == p,
        path::file_name(p) == Some(name),
        name.len() > 4,
        name.skip(name.len() - 4) == ".mpk"@,
    ensures
        path::with_extension(p, "mpk"@) == p,
{
    reveal_strlit(".mpk");
    reveal_strlit("mpk");
    let at = name.len() - 4;
    assert(name.skip(at)[0] == '.' && name.skip(at)[1] == 'm' && name.skip(at)[2] == 'p'
        && name.skip(at)[3] == 'k');
    assert(name[at] == '.' && name[at + 1] == 'm' && name[at + 2] == 'p' && name[at + 3] == 'k');
    text::lemma_rfind_is(name, '.', at);
    text::lemma_rfind(p, '/');
    let start = text::rfind(p, '/') + 1;
    assert(name == p.skip(start));
    assert(p[start + at] == '.' && p[start + at + 1] == 'm' && p[start + at + 2] == 'p'
        && p[start + at + 3] == 'k');
    assert(p.take(p.len() - 4).push('.') + "mpk"@ =~= p);
}

/// The paths of mid-run and interrupted checkpoints end in `.mpk` for good: setting that extension
/// again leaves them as they are, whatever the base is called.
pub proof fn law_tagged_paths_keep_their_tag(base: Seq<char>, step: usize)
    ensures
        path::with_extension(tagged_path(base, step_tag(step)), "mpk"@) == tagged_path(
            base,
            step_tag(step),
        ),
        path::with_extension(tagged_path(base, interrupted_tag(step)), "mpk"@) == tagged_path(
            base,
            interrupted_tag(step),
        ),
{
    lemma_tags(step);
    lemma_tagged_name(base, step_tag(step));
    lemma_tagged_name(base, interrupted_tag(step));
    lemma_checkpoint_name_is_plain(base);
    let short = checkpoint_name(base) + step_tag(step);
    let long = checkpoint_name(base) + interrupted_tag(step);
    reveal_strlit(".mpk");
    assert(short.skip(short.len() - 4) =~= ".mpk"@);
    assert(long.skip(long.len() - 4) =~= ".mpk"@);
    lemma_extension_stays(tagged_path(base, step_tag(step)), short);
    lemma_extension_stays(tagged_path(base, interrupted_tag(step)), long);
}

proof fn lemma_tags(step: usize)
    ensures
        step_tag(step).len() >= 4,
        interrupted_tag(step).len() >= 4,
        forall|i: int| 0 <= i < step_tag(step).len() ==> #[trigger] step_tag(step)[i] != '/',
        forall|i: int|
            0 <= i < interrupted_tag(step).len() ==> #[trigger] interrupted_tag(step)[i] != '/',
{
    text::lemma_decimal_reads_back(step as nat, usize::MAX as nat);
    reveal_strlit(".step-");
    reveal_strlit(".interrupted-step-");
    reveal_strlit(".mpk");
    let digits = text::decimal(step as nat);
    assert forall|i: int| 0 <= i < step_tag(step).len() implies #[trigger] step_tag(step)[i]
        != '/' by {
        if 6 <= i < 6 + digits.len() {
            assert(step_tag(step)[i] == digits[i - 6]);
            assert(text::is_digit(digits[i - 6]));
        }
    }
    assert forall|i: int|
        0 <= i < interrupted_tag(step).len() implies #[trigger] interrupted_tag(step)[i] != '/' by {
        if 18 <= i < 18 + digits.len() {
            assert(interrupted_tag(step)[i] == digits[i - 18]);
            assert(text::is_digit(digits[i - 18]));
        }
    }
}

/// Setting the extension of the file to resume from changes nothing, so that a checkpoint whose
/// name holds a dot is found under its own name.
pub proof fn law_resume_path_is_exact(resume_path: Seq<char>)
    requires
        path::body(resume_path) == resume_path,
        path::file_name(resume_path) is Some,
    ensures
        path::with_extension(resume_file(resume_path), "mpk"@) == resume_file(resume_path),
{
    reveal_strlit(".mpk");
    reveal_strlit("mpk");
    let name = path::file_name(resume_path)->Some_0;
    path::lemma_file_name_is_plain(resume_path);
    text::lemma_rfind(resume_path, '/');
    let start = text::rfind(resume_path, '/') + 1;
    let directory = resume_path.take(start);
    assert(directory + name =~= resume_path);
    if path::extension(resume_path) == Some("mpk"@) {
        let at = path::stem_len(name);
        text::lemma_rfind(name, '.');
        assert(name.skip(at + 1) == "mpk"@);
        assert(name.len() == at + 4);
        assert(name[at] == '.');
        assert(name.skip(at + 1)[0] == 'm' && name.skip(at + 1)[1] == 'p' && name.skip(at + 1)[2]
            == 'k');
        assert(name.skip(at) =~= ".mpk"@);
        lemma_extension_stays(resume_path, name);
    } else {
        let longer = name + ".mpk"@;
        assert forall|i: int| 0 <= i < longer.len() implies #[trigger] longer[i] != '/' by {
            if i < name.len() {
                assert(longer[i] == name[i]);
            }
        }
        assert(directory + longer =~= resume_path + ".mpk"@);
        path::lemma_name_in_directory(directory, longer);
        assert(longer.skip(longer.len() - 4) =~= ".mpk"@);
        lemma_extension_stays(resume_path + ".mpk"@, longer);
    }
}

// ---------------------------------------------------------------------------------------
// Resuming
// ---------------------------------------------------------------------------------------

/// Where a run begins.
#[derive(Debug, Clone, PartialEq, Eq)]
pub enum StartPoint {
    /// With a new model, at the first step.
    Fresh,
    /// With the weights of a checkpoint, at the step after those it had completed.
    Resumed { load_path: String, start_step: usize },
}

/// The message about a checkpoint without a sidecar.
pub open spec fn no_sidecar_text(load_path: Seq<char>) -> Seq<char> {
    "cannot resume from "@ + path::path_debug_text(load_path) + ": missing metadata sidecar "@
        + path::path_debug_text(path::with_extension(load_path, "metadata.json"@))
        + ". --resume-from needs a checkpoint written with a completed_steps sidecar (train one with this build first)."@
}

/// The message about a checkpoint that has reached the target already.
pub open spec fn nothing_to_resume_text(
    load_path: Seq<char>,
    completed: usize,
    target: usize,
) -> Seq<char> {
    "nothing to resume: checkpoint "@ + path::path_debug_text(load_path) + " already completed "@
        + text::decimal(completed as nat) + " steps, which is >= --train-steps "@ + text::decimal(
        target as nat,
    ) + ". Raise --train-steps above "@ + text::decimal(completed as nat)
        + " to continue training."@
}

/// The step that a resumed run begins at, where the checkpoint has not reached the target yet.
pub open spec fn resume_step(metadata: CheckpointMetadata, train_steps: usize) -> Option<usize> {
    if metadata.completed_steps < train_steps {
        Some(metadata.completed_steps)
    } else {
        None
    }
}

/// Where a run begins. `sidecar` is what is recorded beside the checkpoint to resume from.
pub fn resolve_start(
    resume_from: Option<&str>,
    sidecar: &Option<CheckpointMetadata>,
    train_steps: usize,
) -> (r: Result<StartPoint, Failure>)
    ensures
        match resume_from {
            None => r == Ok::<StartPoint, Failure>(StartPoint::Fresh),
            Some(resume_path) => {
                let file = resume_file(resume_path@);
                match *sidecar {
                    None => r matches Err(e) && e.cause is None && e.message@ == no_sidecar_text(file),
                    Some(m) => match resume_step(m, train_steps) {
                        None => r matches Err(e) && e.cause is None && e.message@ == nothing_to_resume_text(
                            file,
                            m.completed_steps,
                            train_steps,
                        ),
                        Some(step) => r matches Ok(StartPoint::Resumed { load_path, start_step })
                            && load_path@ == file && start_step == step,
                    },
                }
            },
        },
{
    let resume_path = match resume_from {
        Some(p) => p,
        None => {
            return Ok(StartPoint::Fresh);
        },
    };
    let load_path = resume_load_path(resume_path);
    match sidecar {
        None => {
            let mut message = "cannot resume from ".to_owned();
            message.append(path::path_debug(load_path.as_str()).as_str());
            message.append(": missing metadata sidecar ");
            message.append(
                path::path_debug(persistence::metadata_path(load_path.as_str()).as_str()).as_str(),
            );
            message.append(
                ". --resume-from needs a checkpoint written with a completed_steps sidecar (train one with this build first).",
            );
            Err(Failure::of(message))
        },
        Some(m) => {
            if m.completed_steps >= train_steps {
                let mut message = "nothing to resume: checkpoint ".to_owned();
                message.append(path::path_debug(load_path.as_str()).as_str());
                message.append(" already completed ");
                message.append(text::usize_text(m.completed_steps).as_str());
                message.append(" steps, which is >= --train-steps ");
                message.append(text::usize_text(train_steps).as_str());
                message.append(". Raise --train-steps above ");
                message.append(text::usize_text(m.completed_steps).as_str());
                message.append(" to continue training.");
                return Err(Failure::of(message));
            }
            Ok(StartPoint::Resumed { load_path, start_step: m.completed_steps })
        },
    }
}

// ---------------------------------------------------------------------------------------
// Saving
// ---------------------------------------------------------------------------------------

/// The directory that has to be there before a checkpoint is saved, if one has to.
pub open spec fn directory_of(checkpoint_path: Seq<char>) -> Option<Seq<char>> {
    match path::parent(checkpoint_path) {
        Some(parent) => if parent.len() > 0 {
            Some(parent)
        } else {
            None
        },
        None => None,
    }
}

/// The directory that has to be there before a checkpoint is saved, if one has to.
pub fn checkpoint_directory(checkpoint_path: &str) -> (r: Option<String>)
    ensures
        match r {
            Some(d) => directory_of(checkpoint_path@) == Some(d@),
            None => directory_of(checkpoint_path@) is None,
        },
{
    proof {
        reveal_strlit("");
    }
    match path::path_parent(checkpoint_path) {
        Some(parent) => {
            if text::same_text(parent.as_str(), "") {
                None
            } else {
                assert(parent@.len() == 0 ==> parent@ =~= ""@);
                Some(parent)
            }
        },
        None => None,
    }
}

/// What a run knows of itself when it saves.
#[derive(Debug, Clone)]
pub struct RunFacts {
    pub created_at_utc: String,
    pub git_commit: Option<String>,
    pub input_source: String,
    pub vocab_size: usize,
    pub tokenizer_path: String,
    /// The bytes of the tokenizer, where its file is there.
    pub tokenizer_file: Option<Vec<u8>>,
    pub backend: String,
    pub train_tokens: usize,
    pub value_tokens: usize,
}

/// Whether `m` records a run of the given facts, settings and metrics.
pub open spec fn describes(
    m: CheckpointMetadata,
    facts: RunFacts,
    hyperparameters: Hyperparameters,
    metrics: TrainingMetrics,
) -> bool {
    &&& m.version == 1
    &&& m.created_at_utc@ == facts.created_at_utc@
    &&& match (m.git_commit, facts.git_commit) {
        (Some(a), Some(b)) => a@ == b@,
        (None, None) => true,
        _ => false,
    }
    &&& m.input_source@ == facts.input_source@
    &&& m.model_shape == CheckpointModelShape {
        vocab_size: facts.vocab_size,
        block_size: hyperparameters.block_size,
        embed_dim: hyperparameters.embed_dim,
        num_heads: hyperparameters.num_heads,
        num_layers: hyperparameters.num_layers,
    }
    &&& m.tokenizer.path@ == facts.tokenizer_path@
    &&& match m.tokenizer.sha256 {
        Some(d) => persistence::file_digest(facts.tokenizer_file) == Some(d@),
        None => facts.tokenizer_file is None,
    }
    &&& m.tokenizer.vocab_size == facts.vocab_size
    &&& m.training.backend@ == facts.backend@
    &&& m.training.train_tokens == facts.train_tokens
    &&& m.training.value_tokens == facts.value_tokens
    &&& m.training.batch_size == hyperparameters.batch_size
    &&& m.training.learning_rate == hyperparameters.learning_rate
    &&& m.training.train_steps == hyperparameters.train_steps
    &&& m.training.eval_interval == hyperparameters.eval_interval
    &&& m.training.grad_clip_norm == hyperparameters.minigpt_grad_clip_norm
    &&& m.training.prefetch_batches == hyperparameters.prefetch_batches
    &&& m.final_metrics.final_value_loss == metrics.final_value_loss
    &&& m.final_metrics.final_perplexity == metrics.final_perplexity
}

/// What is recorded beside a checkpoint, before anything is known of its steps.
pub fn checkpoint_metadata(
    facts: &RunFacts,
    hyperparameters: &Hyperparameters,
    metrics: TrainingMetrics,
) -> (m: CheckpointMetadata)
    ensures
        describes(m, *facts, *hyperparameters, metrics),
        !m.interrupted,
        m.interrupted_at_step is None,
        m.step is None,
        m.interval is None,
        m.completed_steps == 0,
{
    CheckpointMetadata {
        version: 1,
        created_at_utc: facts.created_at_utc.clone(),
        git_commit: match &facts.git_commit {
            Some(commit) => Some(commit.clone()),
            None => None,
        },
        input_source: facts.input_source.clone(),
        model_shape: CheckpointModelShape {
            vocab_size: facts.vocab_size,
            block_size: hyperparameters.block_size,
            embed_dim: hyperparameters.embed_dim,
            num_heads: hyperparameters.num_heads,
            num_layers: hyperparameters.num_layers,
        },
        tokenizer: CheckpointTokenizer {
            path: facts.tokenizer_path.clone(),
            sha256: persistence::sha256_file_hex(&facts.tokenizer_file),
            vocab_size: facts.vocab_size,
        },
        training: CheckpointTrainingRun {
            backend: facts.backend.clone(),
            train_tokens: facts.train_tokens,
            value_tokens: facts.value_tokens,
            batch_size: hyperparameters.batch_size,
            learning_rate: hyperparameters.learning_rate,
            train_steps: hyperparameters.train_steps,
            eval_interval: hyperparameters.eval_interval,
            grad_clip_norm: hyperparameters.minigpt_grad_clip_norm,
            prefetch_batches: hyperparameters.prefetch_batches,
        },
        final_metrics: CheckpointTrainingMetrics {
            final_value_loss: metrics.final_value_loss,
            final_perplexity: metrics.final_perplexity,
        },
        interrupted: false,
        interrupted_at_step: None,
        step: None,
        interval: None,
        completed_steps: 0,
    }
}

/// A checkpoint to be saved: where, and with which sidecar.
#[derive(Debug)]
pub struct CheckpointSave {
    pub path: String,
    pub metadata: CheckpointMetadata,
}

/// Where the checkpoint at the end of a run goes: beside the usual place where the run was
/// interrupted, so that a partial checkpoint never takes the place of a whole one.
pub open spec fn final_path(base: Seq<char>, interrupted: bool, steps_completed: usize) -> Seq<
    char,
> {
    if interrupted {
        tagged_path(base, interrupted_tag(steps_completed))
    } else {
        base
    }
}

/// The checkpoint at the end of a run.
pub fn final_save(
    checkpoint_path: &str,
    facts: &RunFacts,
    hyperparameters: &Hyperparameters,
    metrics: TrainingMetrics,
    interrupted: bool,
    steps_completed: usize,
) -> (save: CheckpointSave)
    ensures
        save.path@ == final_path(checkpoint_path@, interrupted, steps_completed),
        describes(save.metadata, *facts, *hyperparameters, metrics),
        save.metadata.completed_steps == steps_completed,
        save.metadata.interrupted == interrupted,
        save.metadata.interrupted_at_step == (if interrupted {
            Some(steps_completed)
        } else {
            None
        }),
        save.metadata.step is None,
        save.metadata.interval is None,
{
    let path = if interrupted {
        interrupted_checkpoint_path(checkpoint_path, steps_completed)
    } else {
        checkpoint_path.to_owned()
    };
    let mut metadata = checkpoint_metadata(facts, hyperparameters, metrics);
    metadata.completed_steps = steps_completed;
    if interrupted {
        metadata.interrupted = true;
        metadata.interrupted_at_step = Some(steps_completed);
    }
    CheckpointSave { path, metadata }
}

/// A mid-run checkpoint.
pub fn periodic_save(
    checkpoint_path: &str,
    facts: &RunFacts,
    hyperparameters: &Hyperparameters,
    step: usize,
) -> (save: CheckpointSave)
    ensures
        save.path@ == tagged_path(checkpoint_path@, step_tag(step)),
        describes(
            save.metadata,
            *facts,
            *hyperparameters,
            (TrainingMetrics {
                final_value_loss: Real { bits: 0 },
                final_perplexity: Real { bits: 0 },
            }),
        ),
        save.metadata.completed_steps == step,
        save.metadata.step == Some(step),
        save.metadata.interval == Some(hyperparameters.checkpoint_interval),
        !save.metadata.interrupted,
        save.metadata.interrupted_at_step is None,
{
    let mut metadata = checkpoint_metadata(
        facts,
        hyperparameters,
        TrainingMetrics {
            final_value_loss: Real { bits: 0 },
            final_perplexity: Real { bits: 0 },
        },
    );
    metadata.step = Some(step);
    metadata.interval = Some(hyperparameters.checkpoint_interval);
    metadata.completed_steps = step;
    CheckpointSave { path: step_checkpoint_path(checkpoint_path, step), metadata }
}

/// What is logged when a checkpoint has been saved: the file that its weights lie in.
pub fn saved_event(save: &CheckpointSave, elapsed_ms: u128) -> (event: RuntimeEvent)
    ensures
        event matches RuntimeEvent::CheckpointSaved { path: p, elapsed_ms: e } && p@
            == path::with_extension(save.path@, "mpk"@) && e == elapsed_ms,
{
    RuntimeEvent::CheckpointSaved {
        path: path::path_with_extension(save.path.as_str(), "mpk"),
        elapsed_ms,
    }
}

/// A checkpoint that a run has saved is admitted again exactly where the model has the shape that
/// was trained and the tokenizer has the digest that the tokenizer of the run had; so it is with
/// the same settings and an unchanged tokenizer. A run without a tokenizer file leaves a checkpoint
/// that is never admitted.
pub proof fn law_saved_checkpoints_are_admitted_again(
    m: CheckpointMetadata,
    facts: RunFacts,
    hyperparameters: Hyperparameters,
    metrics: TrainingMetrics,
    shape: CheckpointModelShape,
    tokenizer_path: Seq<char>,
    tokenizer_file: Option<Vec<u8>>,
)
    requires
        describes(m, facts, hyperparameters, metrics),
    ensures
        ({
            let issues = persistence::strict_issues(
                m,
                shape,
                tokenizer_path,
                persistence::tokenizer_mark(tokenizer_file),
            );
            let same_shape = shape == (CheckpointModelShape {
                vocab_size: facts.vocab_size,
                block_size: hyperparameters.block_size,
                embed_dim: hyperparameters.embed_dim,
                num_heads: hyperparameters.num_heads,
                num_layers: hyperparameters.num_layers,
            });
            &&& issues.len() == 0 <==> same_shape && persistence::file_digest(
                facts.tokenizer_file,
            ) == Some(persistence::tokenizer_mark(tokenizer_file))
            &&& same_shape && facts.tokenizer_file is Some && tokenizer_file is Some
                && facts.tokenizer_file->Some_0@ == tokenizer_file->Some_0@ ==> issues.len() == 0
            &&& facts.tokenizer_file is None ==> issues.len() > 0
        }),
{
    persistence::law_no_issue_means_same_shape(
        m,
        shape,
        Some(persistence::tokenizer_mark(tokenizer_file)),
    );
}

/// What follows a run of a model that keeps checkpoints.
#[derive(Debug)]
pub struct AfterRun {
    /// Run the generation benchmark before the checkpoint is saved.
    pub benchmark: bool,
    /// Once it is saved, tell this and end the process with the code.
    pub exit: Option<(String, i32)>,
}

/// The message about a run that was interrupted.
pub open spec fn interrupted_text(steps_completed: usize) -> Seq<char> {
    "training interrupted at step "@ + text::decimal(steps_completed as nat)
        + "; partial checkpoint saved. Exiting with code 130."@
}

/// What follows a run: a benchmark where one is asked for and the run came to its end, and an
/// early exit where it did not.
pub fn after_run(
    interrupted: bool,
    steps_completed: usize,
    benchmark_generation: bool,
) -> (after: AfterRun)
    ensures
        after.benchmark == (!interrupted && benchmark_generation),
        match after.exit {
            Some(exit) => interrupted && exit.0@ == interrupted_text(steps_completed) && exit.1
                == INTERRUPTED_EXIT_CODE,
            None => !interrupted,
        },
{
    let exit = if interrupted {
        let mut message = "training interrupted at step ".to_owned();
        message.append(text::usize_text(steps_completed).as_str());
        message.append("; partial checkpoint saved. Exiting with code 130.");
        Some((message, INTERRUPTED_EXIT_CODE))
    } else {
        None
    };
    AfterRun { benchmark: !interrupted && benchmark_generation, exit }
}

/// A resumed run begins at the step that the run before it would have run next, and without an
/// interrupt it ends with the new target reached.
pub proof fn law_resumed_runs_reach_the_target<S>(
    metadata: CheckpointMetadata,
    hyperparameters: Hyperparameters,
    model: ModelChoice,
    log_context: TrainingLogContext<S>,
)
    requires
        runtime_config::checkpoint_backed(model),
        resume_step(metadata, hyperparameters.train_steps) is Some,
    ensures
        ({
            let start = resume_step(metadata, hyperparameters.train_steps)->Some_0;
            let params = run_params(hyperparameters, model, log_context, start);
            let missing = (hyperparameters.train_steps - start) as nat;
            let last = training::after_steps(TrainingLoop::first(params), missing);
            &&& start == metadata.completed_steps
            &&& TrainingLoop::first(params).steps_completed == metadata.completed_steps
            &&& TrainingLoop::first(params).unfinished()
            &&& last.steps_completed == hyperparameters.train_steps
            &&& !last.unfinished()
        }),
{
}

/// The commit that a repository is at, from what asking for it printed.
pub open spec fn commit_of(printed: Option<Seq<u8>>) -> Option<Seq<char>> {
    match printed {
        Some(bytes) => if vstd::utf8::valid_utf8(bytes) && text::trim(
            vstd::utf8::decode_utf8(bytes),
        ).len() > 0 {
            Some(text::trim(vstd::utf8::decode_utf8(bytes)))
        } else {
            None
        },
        None => None,
    }
}

/// The commit that a repository is at: see [`commit_of`].
pub fn git_commit(printed: Option<Vec<u8>>) -> (commit: Option<String>)
    ensures
        match commit {
            Some(c) => commit_of(
                match printed {
                    Some(bytes) => Some(bytes@),
                    None => None,
                },
            ) == Some(c@),
            None => commit_of(
                match printed {
                    Some(bytes) => Some(bytes@),
                    None => None,
                },
            ) is None,
        },
{
    let bytes = match printed {
        Some(bytes) => bytes,
        None => {
            return None;
        },
    };
    match text::from_utf8(bytes) {
        Some(line) => {
            let commit = text::trim_text(line.as_str());
            if text::same_text(commit.as_str(), "") {
                proof {
                    reveal_strlit("");
                }
                return None;
            }
            proof {
                reveal_strlit("");
                assert(commit@.len() == 0 ==> commit@ =~= ""@);
            }
            Some(commit)
        },
        None => None,
    }
}

// ---------------------------------------------------------------------------------------
// Retention
// ---------------------------------------------------------------------------------------

/// The step in a file name: what stands between the base name with `.step-` and the given end.
pub open spec fn step_in_name(name: Seq<char>, base_name: Seq<char>, end: Seq<char>) -> Option<
    usize,
> {
    let start = base_name + ".step-"@;
    if start.is_prefix_of(name) && end.is_suffix_of(name.skip(start.len() as int)) {
        text::usize_value(name.subrange(start.len() as int, name.len() - end.len()))
    } else {
        None
    }
}

/// The step of each name that has one.
pub open spec fn steps_in_names(names: Seq<String>, base_name: Seq<char>, end: Seq<char>) -> Seq<
    Option<usize>,
> {
    Seq::new(names.len(), |i: int| step_in_name(names[i]@, base_name, end))
}

/// The last entry of the given step.
pub open spec fn last_of_step(steps: Seq<Option<usize>>, step: usize) -> Option<usize>
    decreases steps.len(),
{
    if steps.len() == 0 {
        None
    } else if steps.last() == Some(step) {
        Some((steps.len() - 1) as usize)
    } else {
        last_of_step(steps.drop_last(), step)
    }
}

/// Whether entry `i` is a sidecar, the last of its step, without any checkpoint of that step.
pub open spec fn is_orphan(
    sidecars: Seq<Option<usize>>,
    snapshots: Seq<Option<usize>>,
    i: int,
) -> bool {
    match sidecars[i] {
        Some(step) => last_of_step(sidecars, step) == Some(i as usize) && !snapshots.contains(
            Some(step),
        ),
        None => false,
    }
}

/// The orphans among the first `n` entries.
pub open spec fn orphans(
    sidecars: Seq<Option<usize>>,
    snapshots: Seq<Option<usize>>,
    n: nat,
) -> Seq<usize>
    decreases n,
{
    if n == 0 {
        Seq::empty()
    } else if is_orphan(sidecars, snapshots, n - 1) {
        orphans(sidecars, snapshots, (n - 1) as nat).push((n - 1) as usize)
    } else {
        orphans(sidecars, snapshots, (n - 1) as nat)
    }
}

/// A mid-run checkpoint to be removed, and its sidecar.
#[derive(Debug, Clone, Copy, PartialEq, Eq, Structural)]
pub struct PrunedSnapshot {
    pub entry: usize,
    pub step: usize,
    pub sidecar: Option<usize>,
}

/// What is kept and what is removed. Entries are given by their place in the listing.
#[derive(Debug, PartialEq, Eq)]
pub struct RetentionPlan {
    /// The mid-run checkpoints that stay, newest first.
    pub kept: Vec<usize>,
    /// Those that go, newest first.
    pub pruned: Vec<PrunedSnapshot>,
    /// The sidecars that go because they belong to none.
    pub orphans: Vec<usize>,
}

/// The entries of pruned checkpoints.
pub open spec fn pruned_entries(pruned: Seq<PrunedSnapshot>) -> Seq<usize> {
    Seq::new(pruned.len(), |k: int| pruned[k].entry)
}

/// The sidecar that goes with the pruned checkpoint `k`: the last of its step, unless it has gone
/// with an earlier one.
pub open spec fn sidecar_of(
    pruned: Seq<PrunedSnapshot>,
    sidecars: Seq<Option<usize>>,
    k: int,
) -> Option<usize> {
    if exists|j: int| 0 <= j < k && #[trigger] pruned[j].step == pruned[k].step {
        None
    } else {
        last_of_step(sidecars, pruned[k].step)
    }
}

/// Whether the pruned checkpoint `k` is listed with its step and its sidecar.
pub open spec fn is_pruned_rightly(
    pruned: Seq<PrunedSnapshot>,
    snapshots: Seq<Option<usize>>,
    sidecars: Seq<Option<usize>>,
    k: int,
) -> bool {
    &&& snapshots[pruned[k].entry as int] == Some(pruned[k].step)
    &&& pruned[k].sidecar == sidecar_of(pruned, sidecars, k)
}

/// Whether every pruned checkpoint is listed with its step and its sidecar.
pub open spec fn pruned_with_sidecars(
    pruned: Seq<PrunedSnapshot>,
    snapshots: Seq<Option<usize>>,
    sidecars: Seq<Option<usize>>,
) -> bool {
    forall|k: int|
        0 <= k < pruned.len() ==> #[trigger] is_pruned_rightly(pruned, snapshots, sidecars, k)
}

impl RetentionPlan {
    /// Whether this plan keeps the `keep` newest mid-run checkpoints of the listing, removes the
    /// others with their sidecars, and removes the sidecars that belong to none.
    pub open spec fn keeps_newest(
        self,
        keep: usize,
        snapshots: Seq<Option<usize>>,
        sidecars: Seq<Option<usize>>,
    ) -> bool {
        &&& ranking::highest_first(
            self.kept@ + pruned_entries(self.pruned@),
            snapshots,
            snapshots.len() as int,
        )
        &&& self.kept@.len() <= keep
        &&& self.pruned@.len() > 0 ==> self.kept@.len() == keep
        &&& pruned_with_sidecars(self.pruned@, snapshots, sidecars)
        &&& self.orphans@ == orphans(sidecars, snapshots, sidecars.len())
    }
}

/// Whether there is anything to look at: checkpoints are limited in number, and the base has a
/// directory and a name.
pub open spec fn retention_applies(base: Seq<char>, keep: usize) -> bool {
    keep != 0 && path::parent(base) is Some && path::file_name(base) is Some
}

/// The step in a file name: see [`step_in_name`].
fn step_of_name(name: &str, base_name: &str, end: &str) -> (step: Option<usize>)
    ensures
        step == step_in_name(name@, base_name@, end@),
{
    let mut start = base_name.to_owned();
    start.append(".step-");
    let chars = text::to_chars(name);
    match text::strip_prefix(chars.as_slice(), start.as_str()) {
        Some(rest) => {
            if text::has_suffix(rest.as_slice(), end) {
                let end_chars = text::to_chars(end);
                let middle = text::slice_chars(rest.as_slice(), 0, rest.len() - end_chars.len());
                assert(middle@ =~= name@.subrange(
                    start@.len() as int,
                    name@.len() - end@.len(),
                ));
                text::parse_usize(text::from_chars(middle.as_slice()).as_str())
            } else {
                None
            }
        },
        None => None,
    }
}

fn steps_of_names(names: &Vec<String>, base_name: &str, end: &str) -> (steps: Vec<Option<usize>>)
    ensures
        steps@ == steps_in_names(names@, base_name@, end@),
{
    let mut steps: Vec<Option<usize>> = Vec::new();
    let mut i: usize = 0;
    while i < names.len()
        invariant
            i <= names@.len(),
            steps@ =~= steps_in_names(names@, base_name@, end@).take(i as int),
        decreases names.len() - i,
    {
        steps.push(step_of_name(names[i].as_str(), base_name, end));
        i += 1;
    }
    steps
}

fn last_place(steps: &Vec<Option<usize>>, step: usize) -> (place: Option<usize>)
    ensures
        place == last_of_step(steps@, step),
{
    let mut n: usize = steps.len();
    assert(steps@.take(n as int) =~= steps@);
    while n > 0
        invariant
            n <= steps@.len(),
            last_of_step(steps@, step) == last_of_step(steps@.take(n as int), step),
        decreases n,
    {
        proof {
            assert(steps@.take(n as int).last() == steps@[n - 1]);
            assert(steps@.take(n as int).drop_last() =~= steps@.take(n - 1));
        }
        match steps[n - 1] {
            Some(s) => {
                if s == step {
                    return Some(n - 1);
                }
            },
            None => {},
        }
        n -= 1;
    }
    None
}

fn has_step(steps: &Vec<Option<usize>>, step: usize) -> (yes: bool)
    ensures
        yes == steps@.contains(Some(step)),
{
    let mut i: usize = 0;
    while i < steps.len()
        invariant
            i <= steps@.len(),
            forall|j: int| 0 <= j < i ==> steps@[j] != Some(step),
        decreases steps.len() - i,
    {
        match steps[i] {
            Some(s) => {
                if s == step {
                    assert(steps@[i as int] == Some(step));
                    return true;
                }
            },
            None => {},
        }
        i += 1;
    }
    false
}

fn find_orphans(sidecars: &Vec<Option<usize>>, snapshots: &Vec<Option<usize>>) -> (list: Vec<usize>)
    ensures
        list@ == orphans(sidecars@, snapshots@, sidecars@.len()),
{
    let mut list: Vec<usize> = Vec::new();
    let mut i: usize = 0;
    while i < sidecars.len()
        invariant
            i <= sidecars@.len(),
            list@ == orphans(sidecars@, snapshots@, i as nat),
        decreases sidecars.len() - i,
    {
        match sidecars[i] {
            Some(step) => {
                let last = match last_place(sidecars, step) {
                    Some(place) => place == i,
                    None => false,
                };
                if last && !has_step(snapshots, step) {
                    list.push(i);
                }
            },
            None => {},
        }
        i += 1;
    }
    list
}

fn was_pruned(pruned: &Vec<PrunedSnapshot>, step: usize) -> (yes: bool)
    ensures
        yes == exists|j: int| 0 <= j < pruned@.len() && #[trigger] pruned@[j].step == step,
{
    let mut i: usize = 0;
    while i < pruned.len()
        invariant
            i <= pruned@.len(),
            forall|j: int| 0 <= j < i ==> #[trigger] pruned@[j].step != step,
        decreases pruned.len() - i,
    {
        if pruned[i].step == step {
            return true;
        }
        i += 1;
    }
    false
}

proof fn lemma_push_pruned(
    before: Seq<PrunedSnapshot>,
    next: PrunedSnapshot,
    snapshots: Seq<Option<usize>>,
    sidecars: Seq<Option<usize>>,
)
    requires
        pruned_with_sidecars(before, snapshots, sidecars),
        snapshots[next.entry as int] == Some(next.step),
        next.sidecar == (if exists|j: int|
            0 <= j < before.len() && #[trigger] before[j].step == next.step {
            None
        } else {
            last_of_step(sidecars, next.step)
        }),
    ensures
        pruned_with_sidecars(before.push(next), snapshots, sidecars),
{
    let after = before.push(next);
    assert forall|k: int| 0 <= k < after.len() implies is_pruned_rightly(
        after,
        snapshots,
        sidecars,
        k,
    ) by {
        assert forall|j: int| 0 <= j < before.len() implies after[j] == before[j] by {}
        if k < before.len() {
            assert(is_pruned_rightly(before, snapshots, sidecars, k));
            if exists|j: int| 0 <= j < k && #[trigger] before[j].step == before[k].step {
                let j = choose|j: int| 0 <= j < k && #[trigger] before[j].step == before[k].step;
                assert(after[j].step == after[k].step);
            }
            if exists|j: int| 0 <= j < k && #[trigger] after[j].step == after[k].step {
                let j = choose|j: int| 0 <= j < k && #[trigger] after[j].step == after[k].step;
                assert(before[j].step == before[k].step);
            }
        } else {
            if exists|j: int| 0 <= j < k && #[trigger] after[j].step == after[k].step {
                let j = choose|j: int| 0 <= j < k && #[trigger] after[j].step == after[k].step;
                assert(before[j].step == next.step);
            }
            if exists|j: int| 0 <= j < before.len() && #[trigger] before[j].step == next.step {
                let j = choose|j: int|
                    0 <= j < before.len() && #[trigger] before[j].step == next.step;
                assert(after[j].step == after[k].step);
            }
        }
    }
}

/// What is kept of the mid-run checkpoints among `names`, and what is removed.
pub fn plan_retention(names: &Vec<String>, base_name: &str, keep: usize) -> (plan: RetentionPlan)
    ensures
        plan.keeps_newest(
            keep,
            steps_in_names(names@, base_name@, ".mpk"@),
            steps_in_names(names@, base_name@, ".metadata.json"@),
        ),
{
    let snapshots = steps_of_names(names, base_name, ".mpk");
    let sidecars = steps_of_names(names, base_name, ".metadata.json");
    let order = ranking::rank_highest_first(&snapshots);
    let mut kept: Vec<usize> = Vec::new();
    let mut i: usize = 0;
    while i < order.len() && i < keep
        invariant
            i <= order@.len(),
            i <= keep,
            kept@ =~= order@.take(i as int),
        decreases order.len() - i,
    {
        kept.push(order[i]);
        i += 1;
    }
    let mut pruned: Vec<PrunedSnapshot> = Vec::new();
    while i < order.len()
        invariant
            kept@.len() <= i <= order@.len(),
            ranking::highest_first(order@, snapshots@, snapshots@.len() as int),
            pruned_entries(pruned@) =~= order@.subrange(kept@.len() as int, i as int),
            pruned_with_sidecars(pruned@, snapshots@, sidecars@),
        decreases order.len() - i,
    {
        let entry: usize = order[i];
        let step: usize = ranking::key_at(&snapshots, entry);
        let sidecar = if was_pruned(&pruned, step) {
            None
        } else {
            last_place(&sidecars, step)
        };
        let next = PrunedSnapshot { entry, step, sidecar };
        proof {
            lemma_push_pruned(pruned@, next, snapshots@, sidecars@);
        }
        let ghost before = pruned@;
        pruned.push(next);
        proof {
            assert(pruned_entries(pruned@) =~= pruned_entries(before).push(entry));
            assert(order@.subrange(kept@.len() as int, i + 1) =~= order@.subrange(
                kept@.len() as int,
                i as int,
            ).push(entry));
        }
        i += 1;
    }
    assert(kept@ + pruned_entries(pruned@) =~= order@);
    let orphans = find_orphans(&sidecars, &snapshots);
    RetentionPlan { kept, pruned, orphans }
}

/// Whether `plan` says what is kept of the mid-run checkpoints of a base, and what is removed: it
/// keeps the newest, where there is anything to look at.
pub open spec fn is_pruning(
    plan: Option<RetentionPlan>,
    checkpoint_base: Seq<char>,
    keep: usize,
    names: Seq<String>,
) -> bool {
    match plan {
        Some(p) => retention_applies(checkpoint_base, keep) && p.keeps_newest(
            keep,
            steps_in_names(names, checkpoint_name(checkpoint_base), ".mpk"@),
            steps_in_names(names, checkpoint_name(checkpoint_base), ".metadata.json"@),
        ),
        None => !retention_applies(checkpoint_base, keep),
    }
}

/// What is kept of the mid-run checkpoints of `checkpoint_base`, and what is removed, where there
/// is anything to look at. `names` lists the directory that they lie in.
pub fn prune_old_step_checkpoints(
    checkpoint_base: &str,
    keep: usize,
    names: &Vec<String>,
) -> (plan: Option<RetentionPlan>)
    ensures
        is_pruning(plan, checkpoint_base@, keep, names@),
{
    if keep == 0 {
        return None;
    }
    if path::path_parent(checkpoint_base).is_none() {
        return None;
    }
    match path::path_file_name(checkpoint_base) {
        Some(base_name) => Some(plan_retention(names, base_name.as_str(), keep)),
        None => None,
    }
}

/// The names of the checkpoints at the end of a run, and of their sidecars, are not those of
/// mid-run checkpoints: they are never removed.
pub proof fn law_final_checkpoints_are_never_pruned(base_name: Seq<char>, rest: Seq<char>)
    requires
        rest.len() > 0 ==> rest[0] != 's',
    ensures
        step_in_name(base_name + "."@ + rest, base_name, ".mpk"@) is None,
        step_in_name(base_name + "."@ + rest, base_name, ".metadata.json"@) is None,
{
    reveal_strlit(".step-");
    reveal_strlit(".");
    let name = base_name + "."@ + rest;
    let start = base_name + ".step-"@;
    assert(start[base_name.len() as int + 1] == 's');
    if start.is_prefix_of(name) {
        assert(name[base_name.len() as int + 1] == start[base_name.len() as int + 1]);
        assert(name[base_name.len() as int + 1] == rest[0]);
    }
}

/// Neither the checkpoint of an interrupted run nor its sidecar is ever removed.
pub proof fn law_interrupted_checkpoints_are_never_pruned(base_name: Seq<char>, step: usize)
    ensures
        step_in_name(base_name + interrupted_tag(step), base_name, ".mpk"@) is None,
        step_in_name(base_name + interrupted_tag(step), base_name, ".metadata.json"@) is None,
        step_in_name(
            base_name + ".interrupted-step-"@ + text::decimal(step as nat) + ".metadata.json"@,
            base_name,
            ".metadata.json"@,
        ) is None,
        step_in_name(
            base_name + ".interrupted-step-"@ + text::decimal(step as nat) + ".metadata.json"@,
            base_name,
            ".mpk"@,
        ) is None,
{
    reveal_strlit(".interrupted-step-");
    reveal_strlit(".");
    let first = interrupted_tag(step).skip(1);
    assert(first[0] == 'i');
    assert(base_name + interrupted_tag(step) =~= base_name + "."@ + first);
    law_final_checkpoints_are_never_pruned(base_name, first);
    let sidecar = base_name + ".interrupted-step-"@ + text::decimal(step as nat)
        + ".metadata.json"@;
    let second = (".interrupted-step-"@ + text::decimal(step as nat) + ".metadata.json"@).skip(1);
    assert(second[0] == 'i');
    assert(sidecar =~= base_name + "."@ + second);
    law_final_checkpoints_are_never_pruned(base_name, second);
}

/// Every mid-run checkpoint that is saved is recognised as one, with its step.
pub proof fn law_saved_steps_are_recognised(base: Seq<char>, step: usize)
    ensures
        path::file_name(tagged_path(base, step_tag(step))) == Some(
            checkpoint_name(base) + step_tag(step),
        ),
        step_in_name(checkpoint_name(base) + step_tag(step), checkpoint_name(base), ".mpk"@)
            == Some(step),
{
    lemma_tags(step);
    lemma_tagged_name(base, step_tag(step));
    text::lemma_decimal_reads_back(step as nat, usize::MAX as nat);
    reveal_strlit(".step-");
    reveal_strlit(".mpk");
    let name = checkpoint_name(base) + step_tag(step);
    let start = checkpoint_name(base) + ".step-"@;
    let rest = name.skip(start.len() as int);
    assert(start.is_prefix_of(name)) by {
        assert(name.take(start.len() as int) =~= start);
    }
    assert(rest =~= text::decimal(step as nat) + ".mpk"@);
    assert(".mpk"@.is_suffix_of(rest)) by {
        assert(rest.skip(rest.len() - 4) =~= ".mpk"@);
    }
    assert(name.subrange(start.len() as int, name.len() - 4) =~= text::decimal(step as nat));
}

/// Every plan keeps as many of the mid-run checkpoints as it may, and no checkpoint that it
/// removes is newer than one that it keeps.
pub proof fn law_newest_checkpoints_survive(
    plan: RetentionPlan,
    keep: usize,
    snapshots: Seq<Option<usize>>,
    sidecars: Seq<Option<usize>>,
    k: int,
    p: int,
)
    requires
        plan.keeps_newest(keep, snapshots, sidecars),
        0 <= k < plan.kept@.len(),
        0 <= p < plan.pruned@.len(),
    ensures
        snapshots[plan.kept@[k] as int] is Some,
        plan.pruned@[p].step <= snapshots[plan.kept@[k] as int]->Some_0,
        plan.kept@[k] != plan.pruned@[p].entry,
        plan.kept@.len() == keep,
{
    let order = plan.kept@ + pruned_entries(plan.pruned@);
    let b = plan.kept@.len() + p;
    assert(order[k] == plan.kept@[k]);
    assert(order[b] == plan.pruned@[p].entry);
    assert(ranking::higher(snapshots, order[k] as int, order[b] as int));
    assert(is_pruned_rightly(plan.pruned@, snapshots, sidecars, p));
}

/// A checkpoint of an interrupted run lies beside the usual one, under a name that tells its step;
/// that of a whole run lies at the usual place.
pub proof fn law_interrupted_checkpoints_tell_their_step(base: Seq<char>, a: usize, b: usize)
    ensures
        final_path(base, false, a) == base,
        path::file_name(final_path(base, true, a)) == Some(
            checkpoint_name(base) + (".interrupted-step-"@ + text::decimal(a as nat) + ".mpk"@),
        ),
        final_path(base, true, a) == final_path(base, true, b) ==> a == b,
        tagged_path(base, step_tag(a)) == tagged_path(base, step_tag(b)) ==> a == b,
{
    lemma_tags(a);
    lemma_tags(b);
    lemma_tagged_name(base, interrupted_tag(a));
    lemma_tagged_name(base, interrupted_tag(b));
    lemma_tagged_name(base, step_tag(a));
    lemma_tagged_name(base, step_tag(b));
    text::lemma_decimal_reads_back(a as nat, usize::MAX as nat);
    text::lemma_decimal_reads_back(b as nat, usize::MAX as nat);
    let name = checkpoint_name(base);
    if final_path(base, true, a) == final_path(base, true, b) {
        lemma_same_middle(
            name + ".interrupted-step-"@,
            text::decimal(a as nat),
            text::decimal(b as nat),
            ".mpk"@,
        );
        assert(name + interrupted_tag(a) == name + ".interrupted-step-"@ + text::decimal(a as nat)
            + ".mpk"@);
        assert(name + interrupted_tag(b) == name + ".interrupted-step-"@ + text::decimal(b as nat)
            + ".mpk"@);
    }
    if tagged_path(base, step_tag(a)) == tagged_path(base, step_tag(b)) {
        lemma_same_middle(
            name + ".step-"@,
            text::decimal(a as nat),
            text::decimal(b as nat),
            ".mpk"@,
        );
        assert(name + step_tag(a) == name + ".step-"@ + text::decimal(a as nat) + ".mpk"@);
        assert(name + step_tag(b) == name + ".step-"@ + text::decimal(b as nat) + ".mpk"@);
    }
}

proof fn lemma_same_middle(front: Seq<char>, a: Seq<char>, b: Seq<char>, end: Seq<char>)
    ensures
        front + a + end == front + b + end ==> a == b,
{
    let x = front + a + end;
    let y = front + b + end;
    if x == y {
        assert(x.len() == y.len());
        assert(a == x.subrange(front.len() as int, (front.len() + a.len()) as int));
        assert(b == y.subrange(front.len() as int, (front.len() + b.len()) as int));
    }
}

/// A checkpoint can be resumed exactly where it is short of the target.
pub proof fn law_what_can_be_resumed(metadata: CheckpointMetadata, train_steps: usize)
    ensures
        resume_step(metadata, train_steps) is Some <==> metadata.completed_steps < train_steps,
        resume_step(metadata, train_steps) matches Some(step) ==> step == metadata.completed_steps,
{
}

/// A run goes by its settings: only a model that keeps checkpoints has its gradients clipped and
/// begins at another step than the first.
pub proof fn law_runs_go_by_their_settings<S>(
    hyperparameters: Hyperparameters,
    model: ModelChoice,
    log_context: TrainingLogContext<S>,
    start_step: usize,
)
    ensures
        ({
            let params = run_params(hyperparameters, model, log_context, start_step);
            let backed = model == ModelChoice::MiniGpt || model == ModelChoice::MoeGpt;
            &&& params.steps == hyperparameters.train_steps
            &&& params.eval_interval == hyperparameters.eval_interval
            &&& params.learning_rate == hyperparameters.learning_rate
            &&& params.learning_rate_schedule == hyperparameters.learning_rate_schedule
            &&& params.lr_warmup_steps == hyperparameters.lr_warmup_steps
            &&& params.sampling_policy == hyperparameters.sampling_policy
            &&& params.prefetch_batches == hyperparameters.prefetch_batches
            &&& params.periodic_checkpoint_interval == hyperparameters.checkpoint_interval
            &&& params.log_context == log_context
            &&& backed ==> params.start_step == start_step && params.grad_clipping == Some(
                hyperparameters.minigpt_grad_clip_norm,
            )
            &&& !backed ==> params.start_step == 0 && params.grad_clipping is None
        }),
{
}

/// What asking for a commit printed is the commit, without the whitespace around it; whitespace
/// alone is none.
pub proof fn law_commits_are_read_without_whitespace(a: Seq<char>, commit: Seq<char>, b: Seq<char>)
    requires
        forall|i: int| 0 <= i < a.len() ==> text::is_space(#[trigger] a[i]),
        forall|i: int| 0 <= i < b.len() ==> text::is_space(#[trigger] b[i]),
        commit.len() > 0 ==> !text::is_space(commit[0]) && !text::is_space(commit.last()),
    ensures
        commit_of(Some(vstd::utf8::encode_utf8(a + commit + b))) == (if commit.len() > 0 {
            Some(commit)
        } else {
            None
        }),
        commit_of(None) is None,
{
    text::law_trimming_takes_the_ends(a, commit, b);
    vstd::utf8::encode_utf8_valid_utf8(a + commit + b);
    vstd::utf8::encode_utf8_decode_utf8(a + commit + b);
}

/// The directory that a checkpoint needs is the one that it lies in; a bare name needs none.
pub proof fn law_checkpoints_need_their_directory(directory: Seq<char>, name: Seq<char>)
    requires
        path::is_name(name),
        forall|i: int| 0 <= i < name.len() ==> #[trigger] name[i] != '/',
    ensures
        directory.len() == 0 ==> directory_of(path::join(directory, name)) is None,
        path::body(directory).len() > 0 ==> directory_of(path::join(directory, name)) == Some(
            path::body(directory),
        ),
{
    path::law_names_lie_in_their_directory(directory, name);
}

/// A checkpoint beside a base lies in the directory of the base, under its name with the tag behind
/// it.
pub proof fn law_tagged_paths_lie_beside_the_base(
    directory: Seq<char>,
    name: Seq<char>,
    tag: Seq<char>,
)
    requires
        path::is_name(name),
        forall|i: int| 0 <= i < name.len() ==> #[trigger] name[i] != '/',
    ensures
        directory.len() == 0 ==> tagged_path(path::join(directory, name), tag) == name + tag,
        path::body(directory).len() > 0 ==> tagged_path(path::join(directory, name), tag)
            == path::body(directory).push('/') + (name + tag),
{
    path::law_names_lie_in_their_directory(directory, name);
    let b = path::body(directory);
    let tagged = name + tag;
    assert(tagged[0] == name[0]);
    if b.len() > 0 {
        path::lemma_body_is_prefix(directory);
        assert(path::join(b, tagged) == b.push('/') + tagged);
    }
}

/// A path to resume from is taken as it is where it ends in `.mpk`, and is given that end where it
/// has another extension, which it keeps.
pub proof fn law_resume_paths_end_in_mpk(directory: Seq<char>, stem: Seq<char>, ext: Seq<char>)
    requires
        directory.len() == 0 || directory.last() == '/',
        stem.len() > 0,
        ext.len() > 0,
        forall|i: int| 0 <= i < stem.len() ==> #[trigger] stem[i] != '/',
        forall|i: int| 0 <= i < ext.len() ==> #[trigger] ext[i] != '/' && ext[i] != '.',
    ensures
        ({
            let p = directory + (stem.push('.') + ext);
            &&& ext == "mpk"@ ==> resume_file(p) == p
            &&& ext != "mpk"@ ==> resume_file(p) == p + ".mpk"@
        }),
{
    path::law_extensions_follow_the_last_dot(directory, stem, ext, ext);
}

/// A sidecar records the run: what it was trained on and with, by which settings, and what it came
/// to.
pub proof fn law_sidecars_record_the_run(
    m: CheckpointMetadata,
    facts: RunFacts,
    hyperparameters: Hyperparameters,
    metrics: TrainingMetrics,
)
    requires
        describes(m, facts, hyperparameters, metrics),
    ensures
        m.version == 1,
        m.created_at_utc@ == facts.created_at_utc@,
        m.input_source@ == facts.input_source@,
        m.git_commit is Some <==> facts.git_commit is Some,
        m.git_commit is Some ==> m.git_commit->Some_0@ == facts.git_commit->Some_0@,
        m.model_shape.vocab_size == facts.vocab_size,
        m.model_shape.block_size == hyperparameters.block_size,
        m.model_shape.embed_dim == hyperparameters.embed_dim,
        m.model_shape.num_heads == hyperparameters.num_heads,
        m.model_shape.num_layers == hyperparameters.num_layers,
        m.tokenizer.path@ == facts.tokenizer_path@,
        m.tokenizer.vocab_size == facts.vocab_size,
        m.tokenizer.sha256 is Some <==> facts.tokenizer_file is Some,
        m.training.backend@ == facts.backend@,
        m.training.train_tokens == facts.train_tokens,
        m.training.value_tokens == facts.value_tokens,
        m.training.batch_size == hyperparameters.batch_size,
        m.training.learning_rate == hyperparameters.learning_rate,
        m.training.train_steps == hyperparameters.train_steps,
        m.training.eval_interval == hyperparameters.eval_interval,
        m.training.grad_clip_norm == hyperparameters.minigpt_grad_clip_norm,
        m.training.prefetch_batches == hyperparameters.prefetch_batches,
        m.final_metrics.final_value_loss == metrics.final_value_loss,
        m.final_metrics.final_perplexity == metrics.final_perplexity,
{
}

/// Checkpoints are looked at wherever their number is limited and the base names a file; and a plan
/// that keeps fewer than it may removes none.
pub proof fn law_limited_checkpoints_are_looked_at(
    plan: Option<RetentionPlan>,
    base: Seq<char>,
    keep: usize,
    names: Seq<String>,
)
    requires
        is_pruning(plan, base, keep, names),
    ensures
        plan is Some <==> keep > 0 && path::parent(base) is Some && path::file_name(base) is Some,
        plan matches Some(p) ==> p.kept@.len() <= keep,
        plan matches Some(p) ==> p.kept@.len() < keep ==> p.pruned@.len() == 0,
{
}

} // verus!

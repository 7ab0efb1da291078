//! Settings of a run: command line first, then environment, then defaults.
//!
//! Reading the command line, the environment and the filesystem is left to the caller, who hands
//! over what was read. Everything decided from it is decided here.
use vstd::prelude::*;

use crate::failure;
use crate::failure::{Failure, FailureView, Reading};
use crate::loader::data::SamplingPolicy;
use crate::loader::input_source;
use crate::loader::input_source::InputSource;
use crate::model::LearningRateSchedule;
use crate::observability;
use crate::observability::LogFormat;
use crate::path;
use crate::reals::{Real, RealText, ShortReal, ShortRealText, ONE};
use crate::text;
use crate::utils;
use crate::utils::BenchmarkConfig;

verus! {

pub const DEFAULT_INPUT_PATH: &'static str = "data/input.txt";

pub const DEFAULT_MINIGPT_CHECKPOINT_PATH: &'static str = "checkpoints/mini_gpt";

pub const DEFAULT_CHECKPOINT_DIR: &'static str = "checkpoints";

pub const DEFAULT_SERVER_ADDR: &'static str = "127.0.0.1:8787";

pub const DEFAULT_MAX_PROMPT_BYTES: usize = 8192;

pub const DEFAULT_MAX_OUTPUT_TOKENS: usize = 512;

pub const DEFAULT_RATE_LIMIT_RPS: usize = 5;

pub const DEFAULT_RATE_LIMIT_BURST: usize = 10;

pub const BLOCK_SIZE: usize = 128;

pub const BATCH_SIZE: usize = 32;

pub const EMBED_DIM: usize = 128;

pub const NUM_HEADS: usize = 4;

pub const HEAD_DIM: usize = EMBED_DIM / NUM_HEADS;

pub const NUM_LAYERS: usize = 4;

/// The bits of 0.1.
pub const DROPOUT_BITS: u64 = 0x3fb9_9999_9999_999a;

/// The bits of 0.0001.
pub const LEARNING_RATE_BITS: u64 = 0x3f1a_36e2_eb1c_432d;

pub const LR_WARMUP_STEPS: usize = 0;

pub const TRAIN_STEPS: usize = 1000;

pub const EVAL_INTERVAL: usize = 100;

pub const GENERATE_TOKENS: usize = 80;

/// The 32 bits of 1.
pub const MINIGPT_GRAD_CLIP_NORM_BITS: u32 = 0x3f80_0000;

pub const MOE_EXPERTS: usize = 4;

pub const MOE_TOP_K: usize = 2;

/// The bits of 0.01.
pub const MOE_AUX_LOSS_WEIGHT_BITS: u64 = 0x3f84_7ae1_47ae_147b;

pub const PREFETCH_BATCHES: usize = 2;

/// Steps between two mid-run checkpoints. Zero saves at the end only.
pub const CHECKPOINT_INTERVAL: usize = 0;

/// How many mid-run checkpoints are kept.
pub const CHECKPOINT_KEEP: usize = 3;

// ---------------------------------------------------------------------------------------
// Names
// ---------------------------------------------------------------------------------------

/// Where the tensors live.
#[derive(Debug, Clone, Copy, PartialEq, Eq, Structural)]
pub enum BackendChoice {
    Cpu,
}

/// Which model runs.
#[derive(Debug, Clone, Copy, PartialEq, Eq, Structural)]
pub enum ModelChoice {
    Trivial,
    SingleAttention,
    MultiAttention,
    MiniGpt,
    MoeGpt,
    Compare,
}

/// The name of a backend.
pub open spec fn backend_label(backend: BackendChoice) -> Seq<char> {
    match backend {
        BackendChoice::Cpu => "cpu"@,
    }
}

/// The name of a model.
pub open spec fn model_label(model: ModelChoice) -> Seq<char> {
    match model {
        ModelChoice::Trivial => "trivial"@,
        ModelChoice::SingleAttention => "single-attention"@,
        ModelChoice::MultiAttention => "multi-attention"@,
        ModelChoice::MiniGpt => "minigpt"@,
        ModelChoice::MoeGpt => "moe-gpt"@,
        ModelChoice::Compare => "compare"@,
    }
}

/// The models that a choice stands for, in the order in which they run.
pub open spec fn compared_models(model: ModelChoice) -> Seq<ModelChoice> {
    match model {
        ModelChoice::Compare => seq![
            ModelChoice::Trivial,
            ModelChoice::SingleAttention,
            ModelChoice::MultiAttention,
            ModelChoice::MiniGpt,
            ModelChoice::MoeGpt,
        ],
        _ => seq![model],
    }
}

/// Whether a choice generates text.
pub open spec fn generates(model: ModelChoice) -> bool {
    model is MiniGpt || model is MoeGpt || model is Compare
}

/// Whether a choice is trained into a checkpoint that it can be resumed from.
pub open spec fn checkpoint_backed(model: ModelChoice) -> bool {
    model is MiniGpt || model is MoeGpt
}

/// The model of the given name.
pub open spec fn model_of(name: Seq<char>) -> Option<ModelChoice> {
    if name == "trivial"@ {
        Some(ModelChoice::Trivial)
    } else if name == "single-attention"@ {
        Some(ModelChoice::SingleAttention)
    } else if name == "multi-attention"@ {
        Some(ModelChoice::MultiAttention)
    } else if name == "minigpt"@ || name == "mini-gpt"@ {
        Some(ModelChoice::MiniGpt)
    } else if name == "moe-gpt"@ || name == "moegpt"@ {
        Some(ModelChoice::MoeGpt)
    } else if name == "compare"@ {
        Some(ModelChoice::Compare)
    } else {
        None
    }
}

/// The learning rate schedule of the given name.
pub open spec fn lr_schedule_of(name: Seq<char>) -> Option<LearningRateSchedule> {
    if name == "constant"@ {
        Some(LearningRateSchedule::Constant)
    } else if name == "warmup-cosine"@ {
        Some(LearningRateSchedule::WarmupCosine)
    } else if name == "warmup-linear"@ {
        Some(LearningRateSchedule::WarmupLinear)
    } else {
        None
    }
}

/// The sampling policy of the given name.
pub open spec fn sampling_policy_of(name: Seq<char>) -> Option<SamplingPolicy> {
    if name == "random-window"@ {
        Some(SamplingPolicy::RandomWindow)
    } else if name == "sequential"@ {
        Some(SamplingPolicy::Sequential)
    } else if name == "shuffled-chunks"@ {
        Some(SamplingPolicy::ShuffledChunks)
    } else {
        None
    }
}

/// Why a backend name is refused, if it is.
pub open spec fn backend_error(name: Seq<char>) -> Option<Seq<char>> {
    if name == "cpu"@ {
        None
    } else if name == "cuda"@ {
        Some("cuda backend is not compiled in; rebuild with `--features cuda`"@)
    } else {
        Some("unsupported backend '"@ + name + "'; expected cpu or cuda"@)
    }
}

/// The message about an unknown model.
pub open spec fn unsupported_model_text(name: Seq<char>) -> Seq<char> {
    "unsupported model '"@ + name
        + "'; expected trivial, single-attention, multi-attention, minigpt, moe-gpt, or compare"@
}

/// The message about an unknown schedule.
pub open spec fn unsupported_schedule_text(name: Seq<char>) -> Seq<char> {
    "unsupported lr schedule '"@ + name
        + "'; expected constant, warmup-cosine, or warmup-linear"@
}

/// The message about an unknown sampling policy.
pub open spec fn unsupported_policy_text(name: Seq<char>) -> Seq<char> {
    "unsupported sampling policy '"@ + name
        + "'; expected random-window, sequential, or shuffled-chunks"@
}

impl BackendChoice {
    /// The name of this backend.
    pub fn label(self) -> (s: &'static str)
        ensures
            s@ == backend_label(self),
    {
        match self {
            BackendChoice::Cpu => "cpu",
        }
    }
}

impl ModelChoice {
    /// The models that this choice stands for.
    pub fn comparison_models(self) -> (models: Vec<ModelChoice>)
        ensures
            models@ == compared_models(self),
    {
        let models = match self {
            ModelChoice::Compare => vec![
                ModelChoice::Trivial,
                ModelChoice::SingleAttention,
                ModelChoice::MultiAttention,
                ModelChoice::MiniGpt,
                ModelChoice::MoeGpt,
            ],
            _ => vec![self],
        };
        assert(models@ =~= compared_models(self));
        models
    }

    /// The name of this choice.
    pub fn label(self) -> (s: &'static str)
        ensures
            s@ == model_label(self),
    {
        match self {
            ModelChoice::Trivial => "trivial",
            ModelChoice::SingleAttention => "single-attention",
            ModelChoice::MultiAttention => "multi-attention",
            ModelChoice::MiniGpt => "minigpt",
            ModelChoice::MoeGpt => "moe-gpt",
            ModelChoice::Compare => "compare",
        }
    }

    /// Whether this choice generates text.
    pub fn includes_generation_model(self) -> (yes: bool)
        ensures
            yes == generates(self),
    {
        match self {
            ModelChoice::MiniGpt => true,
            ModelChoice::MoeGpt => true,
            ModelChoice::Compare => true,
            _ => false,
        }
    }

    /// Whether this choice reads byte pairs instead of characters.
    pub fn uses_bpe_tokenizer(self) -> (yes: bool)
        ensures
            yes == generates(self),
    {
        self.includes_generation_model()
    }

    /// Whether this choice can be resumed from a checkpoint.
    pub fn is_checkpoint_backed(self) -> (yes: bool)
        ensures
            yes == checkpoint_backed(self),
    {
        match self {
            ModelChoice::MiniGpt => true,
            ModelChoice::MoeGpt => true,
            _ => false,
        }
    }
}

/// The backend of the given name.
pub fn parse_backend_name(name: &str) -> (r: Result<BackendChoice, Failure>)
    ensures
        match r {
            Ok(backend) => backend_error(name@) is None && backend == BackendChoice::Cpu,
            Err(e) => failure::plainly(backend_error(name@)) == Some(e@),
        },
{
    if text::same_text(name, "cpu") {
        Ok(BackendChoice::Cpu)
    } else if text::same_text(name, "cuda") {
        Err(Failure::new("cuda backend is not compiled in; rebuild with `--features cuda`"))
    } else {
        let mut message = "unsupported backend '".to_owned();
        message.append(name);
        message.append("'; expected cpu or cuda");
        Err(Failure::of(message))
    }
}

/// The log format of a backend where none is asked for.
pub fn default_log_format(backend: BackendChoice) -> (format: LogFormat)
    ensures
        format == LogFormat::Plain,
{
    match backend {
        BackendChoice::Cpu => LogFormat::Plain,
    }
}

/// The model of the given name.
pub fn parse_model_name(name: &str) -> (r: Result<ModelChoice, Failure>)
    ensures
        match r {
            Ok(model) => model_of(name@) == Some(model),
            Err(e) => model_of(name@) is None && e@ == failure::said(
                unsupported_model_text(name@),
            ),
        },
{
    if text::same_text(name, "trivial") {
        Ok(ModelChoice::Trivial)
    } else if text::same_text(name, "single-attention") {
        Ok(ModelChoice::SingleAttention)
    } else if text::same_text(name, "multi-attention") {
        Ok(ModelChoice::MultiAttention)
    } else if text::same_text(name, "minigpt") || text::same_text(name, "mini-gpt") {
        Ok(ModelChoice::MiniGpt)
    } else if text::same_text(name, "moe-gpt") || text::same_text(name, "moegpt") {
        Ok(ModelChoice::MoeGpt)
    } else if text::same_text(name, "compare") {
        Ok(ModelChoice::Compare)
    } else {
        let mut message = "unsupported model '".to_owned();
        message.append(name);
        message.append(
            "'; expected trivial, single-attention, multi-attention, minigpt, moe-gpt, or compare",
        );
        Err(Failure::of(message))
    }
}

/// The learning rate schedule of the given name.
pub fn parse_lr_schedule(value: &str) -> (r: Result<LearningRateSchedule, Failure>)
    ensures
        match r {
            Ok(schedule) => lr_schedule_of(value@) == Some(schedule),
            Err(e) => lr_schedule_of(value@) is None && e@ == failure::said(
                unsupported_schedule_text(value@),
            ),
        },
{
    if text::same_text(value, "constant") {
        Ok(LearningRateSchedule::Constant)
    } else if text::same_text(value, "warmup-cosine") {
        Ok(LearningRateSchedule::WarmupCosine)
    } else if text::same_text(value, "warmup-linear") {
        Ok(LearningRateSchedule::WarmupLinear)
    } else {
        let mut message = "unsupported lr schedule '".to_owned();
        message.append(value);
        message.append("'; expected constant, warmup-cosine, or warmup-linear");
        Err(Failure::of(message))
    }
}

/// The sampling policy of the given name.
pub fn parse_sampling_policy(value: &str) -> (r: Result<SamplingPolicy, Failure>)
    ensures
        match r {
            Ok(policy) => sampling_policy_of(value@) == Some(policy),
            Err(e) => sampling_policy_of(value@) is None && e@ == failure::said(
                unsupported_policy_text(value@),
            ),
        },
{
    if text::same_text(value, "random-window") {
        Ok(SamplingPolicy::RandomWindow)
    } else if text::same_text(value, "sequential") {
        Ok(SamplingPolicy::Sequential)
    } else if text::same_text(value, "shuffled-chunks") {
        Ok(SamplingPolicy::ShuffledChunks)
    } else {
        let mut message = "unsupported sampling policy '".to_owned();
        message.append(value);
        message.append("'; expected random-window, sequential, or shuffled-chunks");
        Err(Failure::of(message))
    }
}

// ---------------------------------------------------------------------------------------
// Hyperparameters
// ---------------------------------------------------------------------------------------

/// The numbers of a training run.
#[derive(Debug, Clone, Copy, PartialEq, Eq, Structural)]
pub struct Hyperparameters {
    pub block_size: usize,
    pub batch_size: usize,
    pub embed_dim: usize,
    pub num_heads: usize,
    pub head_dim: usize,
    pub num_layers: usize,
    pub dropout: Real,
    pub learning_rate: Real,
    pub learning_rate_schedule: LearningRateSchedule,
    pub lr_warmup_steps: usize,
    pub sampling_policy: SamplingPolicy,
    pub train_steps: usize,
    pub eval_interval: usize,
    pub generate_tokens: usize,
    pub minigpt_grad_clip_norm: ShortReal,
    pub moe_experts: usize,
    pub moe_top_k: usize,
    pub moe_aux_loss_weight: Real,
    pub prefetch_batches: usize,
    pub checkpoint_interval: usize,
    pub checkpoint_keep: usize,
}

/// What the environment says. A real stands here with its value where its text is one.
#[derive(Debug, Clone, Default)]
pub struct RuntimeEnv {
    pub backend: Option<String>,
    pub input: Option<String>,
    pub model: Option<String>,
    pub checkpoint: Option<String>,
    pub resume_from: Option<String>,
    pub server_addr: Option<String>,
    pub max_prompt_bytes: Option<String>,
    pub max_output_tokens: Option<String>,
    pub rate_limit_rps: Option<String>,
    pub rate_limit_burst: Option<String>,
    pub log_format: Option<String>,
    pub benchmark_prompt_lens: Option<String>,
    pub benchmark_gen_lens: Option<String>,
    pub benchmark_warmups: Option<String>,
    pub benchmark_iterations: Option<String>,
    pub block_size: Option<String>,
    pub batch_size: Option<String>,
    pub embed_dim: Option<String>,
    pub num_heads: Option<String>,
    pub num_layers: Option<String>,
    pub dropout: Option<RealText>,
    pub learning_rate: Option<RealText>,
    pub learning_rate_schedule: Option<String>,
    pub lr_warmup_steps: Option<String>,
    pub sampling_policy: Option<String>,
    pub train_steps: Option<String>,
    pub eval_interval: Option<String>,
    pub generate_tokens: Option<String>,
    pub minigpt_grad_clip_norm: Option<ShortRealText>,
    pub moe_experts: Option<String>,
    pub moe_top_k: Option<String>,
    pub moe_aux_loss_weight: Option<RealText>,
    pub prefetch_batches: Option<String>,
    pub checkpoint_interval: Option<String>,
    pub checkpoint_keep: Option<String>,
}

/// Hyperparameters that the command line sets.
#[derive(Debug, Clone, Copy, Default, PartialEq, Eq, Structural)]
pub struct HyperparameterOverrides {
    pub block_size: Option<usize>,
    pub batch_size: Option<usize>,
    pub embed_dim: Option<usize>,
    pub num_heads: Option<usize>,
    pub num_layers: Option<usize>,
    pub dropout: Option<Real>,
    pub learning_rate: Option<Real>,
    pub learning_rate_schedule: Option<LearningRateSchedule>,
    pub lr_warmup_steps: Option<usize>,
    pub sampling_policy: Option<SamplingPolicy>,
    pub train_steps: Option<usize>,
    pub eval_interval: Option<usize>,
    pub generate_tokens: Option<usize>,
    pub minigpt_grad_clip_norm: Option<ShortReal>,
    pub moe_experts: Option<usize>,
    pub moe_top_k: Option<usize>,
    pub moe_aux_loss_weight: Option<Real>,
    pub prefetch_batches: Option<usize>,
    pub checkpoint_interval: Option<usize>,
    pub checkpoint_keep: Option<usize>,
}

/// The hyperparameters where nothing else is said.
pub open spec fn default_hyperparameters() -> Hyperparameters {
    Hyperparameters {
        block_size: BLOCK_SIZE,
        batch_size: BATCH_SIZE,
        embed_dim: EMBED_DIM,
        num_heads: NUM_HEADS,
        head_dim: HEAD_DIM,
        num_layers: NUM_LAYERS,
        dropout: Real { bits: DROPOUT_BITS },
        learning_rate: Real { bits: LEARNING_RATE_BITS },
        learning_rate_schedule: LearningRateSchedule::Constant,
        lr_warmup_steps: LR_WARMUP_STEPS,
        sampling_policy: SamplingPolicy::RandomWindow,
        train_steps: TRAIN_STEPS,
        eval_interval: EVAL_INTERVAL,
        generate_tokens: GENERATE_TOKENS,
        minigpt_grad_clip_norm: ShortReal { bits: MINIGPT_GRAD_CLIP_NORM_BITS },
        moe_experts: MOE_EXPERTS,
        moe_top_k: MOE_TOP_K,
        moe_aux_loss_weight: Real { bits: MOE_AUX_LOSS_WEIGHT_BITS },
        prefetch_batches: PREFETCH_BATCHES,
        checkpoint_interval: CHECKPOINT_INTERVAL,
        checkpoint_keep: CHECKPOINT_KEEP,
    }
}

impl Default for Hyperparameters {
    fn default() -> (h: Hyperparameters)
        ensures
            h == default_hyperparameters(),
    {
        Hyperparameters {
            block_size: BLOCK_SIZE,
            batch_size: BATCH_SIZE,
            embed_dim: EMBED_DIM,
            num_heads: NUM_HEADS,
            head_dim: HEAD_DIM,
            num_layers: NUM_LAYERS,
            dropout: Real { bits: DROPOUT_BITS },
            learning_rate: Real { bits: LEARNING_RATE_BITS },
            learning_rate_schedule: LearningRateSchedule::Constant,
            lr_warmup_steps: LR_WARMUP_STEPS,
            sampling_policy: SamplingPolicy::RandomWindow,
            train_steps: TRAIN_STEPS,
            eval_interval: EVAL_INTERVAL,
            generate_tokens: GENERATE_TOKENS,
            minigpt_grad_clip_norm: ShortReal { bits: MINIGPT_GRAD_CLIP_NORM_BITS },
            moe_experts: MOE_EXPERTS,
            moe_top_k: MOE_TOP_K,
            moe_aux_loss_weight: Real { bits: MOE_AUX_LOSS_WEIGHT_BITS },
            prefetch_batches: PREFETCH_BATCHES,
            checkpoint_interval: CHECKPOINT_INTERVAL,
            checkpoint_keep: CHECKPOINT_KEEP,
        }
    }
}

/// The message about an environment value that cannot be read.
pub open spec fn invalid_env_text(name: Seq<char>, value: Seq<char>) -> Seq<char> {
    "invalid "@ + name + " value: "@ + value
}

fn invalid_env(name: &str, value: &str, cause: String) -> (f: Failure)
    ensures
        f@ == failure::because(invalid_env_text(name@, value@), cause@),
{
    let mut message = "invalid ".to_owned();
    message.append(name);
    message.append(" value: ");
    message.append(value);
    Failure::caused(message, cause)
}

/// Why an environment number is refused, if it is.
pub open spec fn usize_env_error(name: Seq<char>, value: Option<String>) -> Option<FailureView> {
    match value {
        Some(s) => if text::usize_value(s@) is None {
            Some(failure::because(invalid_env_text(name, s@), text::usize_cause(s@)))
        } else {
            None
        },
        None => None,
    }
}

/// An environment number, or what stands without one.
pub open spec fn usize_env_or(value: Option<String>, default: usize) -> usize {
    match value {
        Some(s) => match text::usize_value(s@) {
            Some(n) => n,
            None => default,
        },
        None => default,
    }
}

/// Why an environment real is refused, if it is.
pub open spec fn real_env_error(name: Seq<char>, value: Option<RealText>) -> Option<FailureView> {
    match value {
        Some(r) => match r.value {
            Reading::Fault(cause) => Some(failure::because(invalid_env_text(name, r.text@), cause@)),
            Reading::Value(_) => None,
        },
        None => None,
    }
}

/// An environment real, or what stands without one.
pub open spec fn real_env_or(value: Option<RealText>, default: Real) -> Real {
    match value {
        Some(r) => match r.value {
            Reading::Value(v) => v,
            Reading::Fault(_) => default,
        },
        None => default,
    }
}

/// Why an environment 32-bit real is refused, if it is.
pub open spec fn short_env_error(name: Seq<char>, value: Option<ShortRealText>) -> Option<
    FailureView,
> {
    match value {
        Some(r) => match r.value {
            Reading::Fault(cause) => Some(failure::because(invalid_env_text(name, r.text@), cause@)),
            Reading::Value(_) => None,
        },
        None => None,
    }
}

/// An environment 32-bit real, or what stands without one.
pub open spec fn short_env_or(value: Option<ShortRealText>, default: ShortReal) -> ShortReal {
    match value {
        Some(r) => match r.value {
            Reading::Value(v) => v,
            Reading::Fault(_) => default,
        },
        None => default,
    }
}

/// Why an environment schedule is refused, if it is.
pub open spec fn schedule_error(value: Option<String>) -> Option<FailureView> {
    match value {
        Some(s) => if lr_schedule_of(s@) is None {
            Some(failure::said(unsupported_schedule_text(s@)))
        } else {
            None
        },
        None => None,
    }
}

/// A named schedule, where there is one.
pub open spec fn named_schedule(value: Option<String>) -> Option<LearningRateSchedule> {
    match value {
        Some(s) => lr_schedule_of(s@),
        None => None,
    }
}

/// Why a sampling policy is refused, if it is.
pub open spec fn policy_error(value: Option<String>) -> Option<FailureView> {
    match value {
        Some(s) => if sampling_policy_of(s@) is None {
            Some(failure::said(unsupported_policy_text(s@)))
        } else {
            None
        },
        None => None,
    }
}

/// A named sampling policy, where there is one.
pub open spec fn named_policy(value: Option<String>) -> Option<SamplingPolicy> {
    match value {
        Some(s) => sampling_policy_of(s@),
        None => None,
    }
}

/// The first of two, where it is there.
pub open spec fn first_of<T>(value: Option<T>, other: T) -> T {
    match value {
        Some(v) => v,
        None => other,
    }
}

/// The first environment hyperparameter that cannot be read, in the order in which they are read.
pub open spec fn env_error(env: RuntimeEnv) -> Option<FailureView> {
    if usize_env_error("RUSTY_GPT_BLOCK_SIZE"@, env.block_size) is Some {
        usize_env_error("RUSTY_GPT_BLOCK_SIZE"@, env.block_size)
    } else if usize_env_error("RUSTY_GPT_BATCH_SIZE"@, env.batch_size) is Some {
        usize_env_error("RUSTY_GPT_BATCH_SIZE"@, env.batch_size)
    } else if usize_env_error("RUSTY_GPT_EMBED_DIM"@, env.embed_dim) is Some {
        usize_env_error("RUSTY_GPT_EMBED_DIM"@, env.embed_dim)
    } else if usize_env_error("RUSTY_GPT_NUM_HEADS"@, env.num_heads) is Some {
        usize_env_error("RUSTY_GPT_NUM_HEADS"@, env.num_heads)
    } else if usize_env_error("RUSTY_GPT_NUM_LAYERS"@, env.num_layers) is Some {
        usize_env_error("RUSTY_GPT_NUM_LAYERS"@, env.num_layers)
    } else if real_env_error("RUSTY_GPT_DROPOUT"@, env.dropout) is Some {
        real_env_error("RUSTY_GPT_DROPOUT"@, env.dropout)
    } else if real_env_error("RUSTY_GPT_LEARNING_RATE"@, env.learning_rate) is Some {
        real_env_error("RUSTY_GPT_LEARNING_RATE"@, env.learning_rate)
    } else if schedule_error(env.learning_rate_schedule) is Some {
        schedule_error(env.learning_rate_schedule)
    } else if usize_env_error("RUSTY_GPT_LR_WARMUP_STEPS"@, env.lr_warmup_steps) is Some {
        usize_env_error("RUSTY_GPT_LR_WARMUP_STEPS"@, env.lr_warmup_steps)
    } else if policy_error(env.sampling_policy) is Some {
        policy_error(env.sampling_policy)
    } else if usize_env_error("RUSTY_GPT_TRAIN_STEPS"@, env.train_steps) is Some {
        usize_env_error("RUSTY_GPT_TRAIN_STEPS"@, env.train_steps)
    } else if usize_env_error("RUSTY_GPT_EVAL_INTERVAL"@, env.eval_interval) is Some {
        usize_env_error("RUSTY_GPT_EVAL_INTERVAL"@, env.eval_interval)
    } else if usize_env_error("RUSTY_GPT_GENERATE_TOKENS"@, env.generate_tokens) is Some {
        usize_env_error("RUSTY_GPT_GENERATE_TOKENS"@, env.generate_tokens)
    } else if short_env_error("RUSTY_GPT_MINIGPT_GRAD_CLIP_NORM"@, env.minigpt_grad_clip_norm) is Some {
        short_env_error("RUSTY_GPT_MINIGPT_GRAD_CLIP_NORM"@, env.minigpt_grad_clip_norm)
    } else if usize_env_error("RUSTY_GPT_MOE_EXPERTS"@, env.moe_experts) is Some {
        usize_env_error("RUSTY_GPT_MOE_EXPERTS"@, env.moe_experts)
    } else if usize_env_error("RUSTY_GPT_MOE_TOP_K"@, env.moe_top_k) is Some {
        usize_env_error("RUSTY_GPT_MOE_TOP_K"@, env.moe_top_k)
    } else if real_env_error("RUSTY_GPT_MOE_AUX_LOSS_WEIGHT"@, env.moe_aux_loss_weight) is Some {
        real_env_error("RUSTY_GPT_MOE_AUX_LOSS_WEIGHT"@, env.moe_aux_loss_weight)
    } else if usize_env_error("RUSTY_GPT_PREFETCH_BATCHES"@, env.prefetch_batches) is Some {
        usize_env_error("RUSTY_GPT_PREFETCH_BATCHES"@, env.prefetch_batches)
    } else if usize_env_error("RUSTY_GPT_CHECKPOINT_INTERVAL"@, env.checkpoint_interval) is Some {
        usize_env_error("RUSTY_GPT_CHECKPOINT_INTERVAL"@, env.checkpoint_interval)
    } else if usize_env_error("RUSTY_GPT_CHECKPOINT_KEEP"@, env.checkpoint_keep) is Some {
        usize_env_error("RUSTY_GPT_CHECKPOINT_KEEP"@, env.checkpoint_keep)
    } else {
        None
    }
}

/// The environment's hyperparameters, with the defaults where it says nothing.
pub open spec fn env_hyperparameters(env: RuntimeEnv) -> Hyperparameters {
    Hyperparameters {
        block_size: usize_env_or(env.block_size, BLOCK_SIZE),
        batch_size: usize_env_or(env.batch_size, BATCH_SIZE),
        embed_dim: usize_env_or(env.embed_dim, EMBED_DIM),
        num_heads: usize_env_or(env.num_heads, NUM_HEADS),
        head_dim: HEAD_DIM,
        num_layers: usize_env_or(env.num_layers, NUM_LAYERS),
        dropout: real_env_or(env.dropout, Real { bits: DROPOUT_BITS }),
        learning_rate: real_env_or(env.learning_rate, Real { bits: LEARNING_RATE_BITS }),
        learning_rate_schedule: first_of(named_schedule(env.learning_rate_schedule), LearningRateSchedule::Constant),
        lr_warmup_steps: usize_env_or(env.lr_warmup_steps, LR_WARMUP_STEPS),
        sampling_policy: first_of(named_policy(env.sampling_policy), SamplingPolicy::RandomWindow),
        train_steps: usize_env_or(env.train_steps, TRAIN_STEPS),
        eval_interval: usize_env_or(env.eval_interval, EVAL_INTERVAL),
        generate_tokens: usize_env_or(env.generate_tokens, GENERATE_TOKENS),
        minigpt_grad_clip_norm: short_env_or(env.minigpt_grad_clip_norm, ShortReal { bits: MINIGPT_GRAD_CLIP_NORM_BITS }),
        moe_experts: usize_env_or(env.moe_experts, MOE_EXPERTS),
        moe_top_k: usize_env_or(env.moe_top_k, MOE_TOP_K),
        moe_aux_loss_weight: real_env_or(env.moe_aux_loss_weight, Real { bits: MOE_AUX_LOSS_WEIGHT_BITS }),
        prefetch_batches: usize_env_or(env.prefetch_batches, PREFETCH_BATCHES),
        checkpoint_interval: usize_env_or(env.checkpoint_interval, CHECKPOINT_INTERVAL),
        checkpoint_keep: usize_env_or(env.checkpoint_keep, CHECKPOINT_KEEP),
    }
}

/// Hyperparameters with what the command line sets in their place.
pub open spec fn overridden(h: Hyperparameters, o: HyperparameterOverrides) -> Hyperparameters {
    Hyperparameters {
        block_size: first_of(o.block_size, h.block_size),
        batch_size: first_of(o.batch_size, h.batch_size),
        embed_dim: first_of(o.embed_dim, h.embed_dim),
        num_heads: first_of(o.num_heads, h.num_heads),
        head_dim: h.head_dim,
        num_layers: first_of(o.num_layers, h.num_layers),
        dropout: first_of(o.dropout, h.dropout),
        learning_rate: first_of(o.learning_rate, h.learning_rate),
        learning_rate_schedule: first_of(o.learning_rate_schedule, h.learning_rate_schedule),
        lr_warmup_steps: first_of(o.lr_warmup_steps, h.lr_warmup_steps),
        sampling_policy: first_of(o.sampling_policy, h.sampling_policy),
        train_steps: first_of(o.train_steps, h.train_steps),
        eval_interval: first_of(o.eval_interval, h.eval_interval),
        generate_tokens: first_of(o.generate_tokens, h.generate_tokens),
        minigpt_grad_clip_norm: first_of(o.minigpt_grad_clip_norm, h.minigpt_grad_clip_norm),
        moe_experts: first_of(o.moe_experts, h.moe_experts),
        moe_top_k: first_of(o.moe_top_k, h.moe_top_k),
        moe_aux_loss_weight: first_of(o.moe_aux_loss_weight, h.moe_aux_loss_weight),
        prefetch_batches: first_of(o.prefetch_batches, h.prefetch_batches),
        checkpoint_interval: first_of(o.checkpoint_interval, h.checkpoint_interval),
        checkpoint_keep: first_of(o.checkpoint_keep, h.checkpoint_keep),
    }
}

/// The first rule that hyperparameters break, in the order in which the rules are checked.
pub open spec fn violation(h: Hyperparameters) -> Option<Seq<char>> {
    if h.block_size == 0 {
        Some("block_size must be greater than zero"@)
    } else if h.batch_size == 0 {
        Some("batch_size must be greater than zero"@)
    } else if h.embed_dim == 0 {
        Some("embed_dim must be greater than zero"@)
    } else if h.num_heads == 0 {
        Some("num_heads must be greater than zero"@)
    } else if h.num_layers == 0 {
        Some("num_layers must be greater than zero"@)
    } else if h.embed_dim % h.num_heads != 0 {
        Some("embed_dim must be divisible by num_heads"@)
    } else if !(Real { bits: 0 }.at_most(h.dropout) && h.dropout.less(Real { bits: ONE })) {
        Some("dropout must be >= 0 and < 1"@)
    } else if h.learning_rate.at_most(Real { bits: 0 }) {
        Some("learning_rate must be greater than zero"@)
    } else if h.train_steps == 0 {
        Some("train_steps must be greater than zero"@)
    } else if h.lr_warmup_steps > h.train_steps {
        Some("lr_warmup_steps must be <= train_steps"@)
    } else if h.generate_tokens == 0 {
        Some("generate_tokens must be greater than zero"@)
    } else if h.minigpt_grad_clip_norm.at_most(ShortReal { bits: 0 }) {
        Some("RUSTY_GPT_MINIGPT_GRAD_CLIP_NORM must be greater than zero"@)
    } else if h.moe_experts == 0 {
        Some("moe_experts must be greater than zero"@)
    } else if h.moe_top_k == 0 {
        Some("moe_top_k must be greater than zero"@)
    } else if h.moe_top_k > h.moe_experts {
        Some("moe_top_k must be <= moe_experts"@)
    } else if h.moe_aux_loss_weight.less(Real { bits: 0 }) {
        Some("moe_aux_loss_weight must be >= 0"@)
    } else if h.checkpoint_interval != 0 && h.checkpoint_keep == 0 {
        Some(
            "checkpoint_keep must be greater than zero when checkpoint_interval is non-zero (use --checkpoint-interval 0 to disable periodic checkpoints entirely)"@,
        )
    } else {
        None
    }
}

/// Hyperparameters with the head size that follows from the others.
pub open spec fn with_head_dim(h: Hyperparameters) -> Hyperparameters {
    Hyperparameters { head_dim: h.embed_dim / h.num_heads, ..h }
}

/// What every accepted set of hyperparameters keeps.
pub open spec fn well_formed(h: Hyperparameters) -> bool {
    &&& violation(h) is None
    &&& h.head_dim * h.num_heads == h.embed_dim
    &&& h.head_dim > 0
}

fn read_usize(name: &str, value: &Option<String>, default: usize) -> (r: Result<usize, Failure>)
    ensures
        match r {
            Ok(n) => usize_env_error(name@, *value) is None && n == usize_env_or(*value, default),
            Err(e) => usize_env_error(name@, *value) == Some(e@),
        },
{
    match value {
        Some(s) => match text::parse_usize(s.as_str()) {
            Some(n) => Ok(n),
            None => Err(invalid_env(name, s.as_str(), text::usize_cause_text(s.as_str()))),
        },
        None => Ok(default),
    }
}

fn read_real(name: &str, value: &Option<RealText>, default: Real) -> (r: Result<Real, Failure>)
    ensures
        match r {
            Ok(n) => real_env_error(name@, *value) is None && n == real_env_or(*value, default),
            Err(e) => real_env_error(name@, *value) == Some(e@),
        },
{
    match value {
        Some(r) => match &r.value {
            Reading::Value(v) => Ok(*v),
            Reading::Fault(cause) => Err(invalid_env(name, r.text.as_str(), cause.clone())),
        },
        None => Ok(default),
    }
}

fn read_short(name: &str, value: &Option<ShortRealText>, default: ShortReal) -> (r: Result<
    ShortReal,
    Failure,
>)
    ensures
        match r {
            Ok(n) => short_env_error(name@, *value) is None && n == short_env_or(*value, default),
            Err(e) => short_env_error(name@, *value) == Some(e@),
        },
{
    match value {
        Some(r) => match &r.value {
            Reading::Value(v) => Ok(*v),
            Reading::Fault(cause) => Err(invalid_env(name, r.text.as_str(), cause.clone())),
        },
        None => Ok(default),
    }
}

fn read_schedule(value: &Option<String>) -> (r: Result<Option<LearningRateSchedule>, Failure>)
    ensures
        match r {
            Ok(schedule) => schedule_error(*value) is None && schedule == named_schedule(*value),
            Err(e) => schedule_error(*value) == Some(e@),
        },
{
    match value {
        Some(s) => match parse_lr_schedule(s.as_str()) {
            Ok(schedule) => Ok(Some(schedule)),
            Err(e) => Err(e),
        },
        None => Ok(None),
    }
}

fn read_policy(value: &Option<String>) -> (r: Result<Option<SamplingPolicy>, Failure>)
    ensures
        match r {
            Ok(policy) => policy_error(*value) is None && policy == named_policy(*value),
            Err(e) => policy_error(*value) == Some(e@),
        },
{
    match value {
        Some(s) => match parse_sampling_policy(s.as_str()) {
            Ok(policy) => Ok(Some(policy)),
            Err(e) => Err(e),
        },
        None => Ok(None),
    }
}

fn or_default<T: Copy>(value: Option<T>, default: T) -> (v: T)
    ensures
        v == first_of(value, default),
{
    match value {
        Some(v) => v,
        None => default,
    }
}

impl HyperparameterOverrides {
    /// Puts what is set here in the place of what stands there.
    pub fn apply_to(&self, hyperparameters: &mut Hyperparameters)
        ensures
            *final(hyperparameters) == overridden(*old(hyperparameters), *self),
    {
        hyperparameters.block_size = or_default(self.block_size, hyperparameters.block_size);
        hyperparameters.batch_size = or_default(self.batch_size, hyperparameters.batch_size);
        hyperparameters.embed_dim = or_default(self.embed_dim, hyperparameters.embed_dim);
        hyperparameters.num_heads = or_default(self.num_heads, hyperparameters.num_heads);
        hyperparameters.num_layers = or_default(self.num_layers, hyperparameters.num_layers);
        hyperparameters.dropout = or_default(self.dropout, hyperparameters.dropout);
        hyperparameters.learning_rate = or_default(self.learning_rate, hyperparameters.learning_rate);
        hyperparameters.learning_rate_schedule = or_default(self.learning_rate_schedule, hyperparameters.learning_rate_schedule);
        hyperparameters.lr_warmup_steps = or_default(self.lr_warmup_steps, hyperparameters.lr_warmup_steps);
        hyperparameters.sampling_policy = or_default(self.sampling_policy, hyperparameters.sampling_policy);
        hyperparameters.train_steps = or_default(self.train_steps, hyperparameters.train_steps);
        hyperparameters.eval_interval = or_default(self.eval_interval, hyperparameters.eval_interval);
        hyperparameters.generate_tokens = or_default(self.generate_tokens, hyperparameters.generate_tokens);
        hyperparameters.minigpt_grad_clip_norm = or_default(self.minigpt_grad_clip_norm, hyperparameters.minigpt_grad_clip_norm);
        hyperparameters.moe_experts = or_default(self.moe_experts, hyperparameters.moe_experts);
        hyperparameters.moe_top_k = or_default(self.moe_top_k, hyperparameters.moe_top_k);
        hyperparameters.moe_aux_loss_weight = or_default(self.moe_aux_loss_weight, hyperparameters.moe_aux_loss_weight);
        hyperparameters.prefetch_batches = or_default(self.prefetch_batches, hyperparameters.prefetch_batches);
        hyperparameters.checkpoint_interval = or_default(self.checkpoint_interval, hyperparameters.checkpoint_interval);
        hyperparameters.checkpoint_keep = or_default(self.checkpoint_keep, hyperparameters.checkpoint_keep);
    }
}

impl Hyperparameters {
    /// Reads the hyperparameters that the environment sets.
    #[verifier::spinoff_prover]
    fn from_env(env: &RuntimeEnv) -> (r: Result<Hyperparameters, Failure>)
        ensures
            match r {
                Ok(h) => env_error(*env) is None && h == env_hyperparameters(*env),
                Err(e) => env_error(*env) == Some(e@),
            },
    {
        let block_size = match read_usize("RUSTY_GPT_BLOCK_SIZE", &env.block_size, BLOCK_SIZE) {
            Ok(v) => v,
            Err(e) => {
                return Err(e);
            },
        };
        let batch_size = match read_usize("RUSTY_GPT_BATCH_SIZE", &env.batch_size, BATCH_SIZE) {
            Ok(v) => v,
            Err(e) => {
                return Err(e);
            },
        };
        let embed_dim = match read_usize("RUSTY_GPT_EMBED_DIM", &env.embed_dim, EMBED_DIM) {
            Ok(v) => v,
            Err(e) => {
                return Err(e);
            },
        };
        let num_heads = match read_usize("RUSTY_GPT_NUM_HEADS", &env.num_heads, NUM_HEADS) {
            Ok(v) => v,
            Err(e) => {
                return Err(e);
            },
        };
        let num_layers = match read_usize("RUSTY_GPT_NUM_LAYERS", &env.num_layers, NUM_LAYERS) {
            Ok(v) => v,
            Err(e) => {
                return Err(e);
            },
        };
        let dropout = match read_real("RUSTY_GPT_DROPOUT", &env.dropout, Real { bits: DROPOUT_BITS }) {
            Ok(v) => v,
            Err(e) => {
                return Err(e);
            },
        };
        let learning_rate = match read_real("RUSTY_GPT_LEARNING_RATE", &env.learning_rate, Real { bits: LEARNING_RATE_BITS }) {
            Ok(v) => v,
            Err(e) => {
                return Err(e);
            },
        };
        let learning_rate_schedule = match read_schedule(&env.learning_rate_schedule) {
            Ok(v) => v,
            Err(e) => {
                return Err(e);
            },
        };
        let lr_warmup_steps = match read_usize("RUSTY_GPT_LR_WARMUP_STEPS", &env.lr_warmup_steps, LR_WARMUP_STEPS) {
            Ok(v) => v,
            Err(e) => {
                return Err(e);
            },
        };
        let sampling_policy = match read_policy(&env.sampling_policy) {
            Ok(v) => v,
            Err(e) => {
                return Err(e);
            },
        };
        let train_steps = match read_usize("RUSTY_GPT_TRAIN_STEPS", &env.train_steps, TRAIN_STEPS) {
            Ok(v) => v,
            Err(e) => {
                return Err(e);
            },
        };
        let eval_interval = match read_usize("RUSTY_GPT_EVAL_INTERVAL", &env.eval_interval, EVAL_INTERVAL) {
            Ok(v) => v,
            Err(e) => {
                return Err(e);
            },
        };
        let generate_tokens = match read_usize("RUSTY_GPT_GENERATE_TOKENS", &env.generate_tokens, GENERATE_TOKENS) {
            Ok(v) => v,
            Err(e) => {
                return Err(e);
            },
        };
        let minigpt_grad_clip_norm = match read_short("RUSTY_GPT_MINIGPT_GRAD_CLIP_NORM", &env.minigpt_grad_clip_norm, ShortReal { bits: MINIGPT_GRAD_CLIP_NORM_BITS }) {
            Ok(v) => v,
            Err(e) => {
                return Err(e);
            },
        };
        let moe_experts = match read_usize("RUSTY_GPT_MOE_EXPERTS", &env.moe_experts, MOE_EXPERTS) {
            Ok(v) => v,
            Err(e) => {
                return Err(e);
            },
        };
        let moe_top_k = match read_usize("RUSTY_GPT_MOE_TOP_K", &env.moe_top_k, MOE_TOP_K) {
            Ok(v) => v,
            Err(e) => {
                return Err(e);
            },
        };
        let moe_aux_loss_weight = match read_real("RUSTY_GPT_MOE_AUX_LOSS_WEIGHT", &env.moe_aux_loss_weight, Real { bits: MOE_AUX_LOSS_WEIGHT_BITS }) {
            Ok(v) => v,
            Err(e) => {
                return Err(e);
            },
        };
        let prefetch_batches = match read_usize("RUSTY_GPT_PREFETCH_BATCHES", &env.prefetch_batches, PREFETCH_BATCHES) {
            Ok(v) => v,
            Err(e) => {
                return Err(e);
            },
        };
        let checkpoint_interval = match read_usize("RUSTY_GPT_CHECKPOINT_INTERVAL", &env.checkpoint_interval, CHECKPOINT_INTERVAL) {
            Ok(v) => v,
            Err(e) => {
                return Err(e);
            },
        };
        let checkpoint_keep = match read_usize("RUSTY_GPT_CHECKPOINT_KEEP", &env.checkpoint_keep, CHECKPOINT_KEEP) {
            Ok(v) => v,
            Err(e) => {
                return Err(e);
            },
        };
        Ok(
            Hyperparameters {
                block_size,
                batch_size,
                embed_dim,
                num_heads,
                head_dim: HEAD_DIM,
                num_layers,
                dropout,
                learning_rate,
                learning_rate_schedule: or_default(learning_rate_schedule, LearningRateSchedule::Constant),
                lr_warmup_steps,
                sampling_policy: or_default(sampling_policy, SamplingPolicy::RandomWindow),
                train_steps,
                eval_interval,
                generate_tokens,
                minigpt_grad_clip_norm,
                moe_experts,
                moe_top_k,
                moe_aux_loss_weight,
                prefetch_batches,
                checkpoint_interval,
                checkpoint_keep,
            },
        )
    }

    /// The hyperparameters of a run: what the command line sets, else what the environment sets,
    /// else the defaults. An environment value that cannot be read is refused even where the
    /// command line sets another.
    pub fn from_env_and_overrides(env: &RuntimeEnv, overrides: &HyperparameterOverrides) -> (r: Result<
        Hyperparameters,
        Failure,
    >)
        ensures
            match r {
                Ok(h) => {
                    &&& env_error(*env) is None
                    &&& violation(overridden(env_hyperparameters(*env), *overrides)) is None
                    &&& h == with_head_dim(overridden(env_hyperparameters(*env), *overrides))
                    &&& well_formed(h)
                },
                Err(e) => if env_error(*env) is Some {
                    env_error(*env) == Some(e@)
                } else {
                    failure::plainly(
                        violation(overridden(env_hyperparameters(*env), *overrides)),
                    ) == Some(e@)
                },
            },
    {
        let mut hyperparameters = match Hyperparameters::from_env(env) {
            Ok(h) => h,
            Err(e) => {
                return Err(e);
            },
        };
        overrides.apply_to(&mut hyperparameters);
        match hyperparameters.validate() {
            Ok(_) => Ok(hyperparameters),
            Err(e) => Err(e),
        }
    }

    /// Holds the hyperparameters to their rules, and sets the head size that follows from them.
    pub fn validate(&mut self) -> (r: Result<(), Failure>)
        ensures
            match r {
                Ok(_) => violation(*old(self)) is None && *final(self) == with_head_dim(*old(self))
                    && well_formed(*final(self)),
                Err(e) => failure::plainly(violation(*old(self))) == Some(e@) && *final(self)
                    == *old(self),
            },
    {
        match self.broken_rule() {
            Some(message) => Err(Failure::new(message)),
            None => {
                let head_dim: usize = self.embed_dim / self.num_heads;
                proof {
                    let e = self.embed_dim as int;
                    let n = self.num_heads as int;
                    vstd::arithmetic::div_mod::lemma_fundamental_div_mod(e, n);
                    assert(head_dim * n == e) by (nonlinear_arith)
                        requires
                            e == n * (e / n) + e % n,
                            e % n == 0,
                            head_dim == e / n,
                    ;
                    assert(head_dim > 0) by (nonlinear_arith)
                        requires
                            head_dim * n == e,
                            e > 0,
                            n > 0,
                            head_dim >= 0,
                    ;
                }
                self.head_dim = head_dim;
                Ok(())
            },
        }
    }

    fn broken_rule(&self) -> (rule: Option<&'static str>)
        ensures
            match rule {
                Some(message) => violation(*self) == Some(message@),
                None => violation(*self) is None,
            },
    {
        if self.block_size == 0 {
            Some("block_size must be greater than zero")
        } else if self.batch_size == 0 {
            Some("batch_size must be greater than zero")
        } else if self.embed_dim == 0 {
            Some("embed_dim must be greater than zero")
        } else if self.num_heads == 0 {
            Some("num_heads must be greater than zero")
        } else if self.num_layers == 0 {
            Some("num_layers must be greater than zero")
        } else if self.embed_dim % self.num_heads != 0 {
            Some("embed_dim must be divisible by num_heads")
        } else if !self.dropout.in_unit_interval() {
            Some("dropout must be >= 0 and < 1")
        } else if self.learning_rate.at_most_zero() {
            Some("learning_rate must be greater than zero")
        } else if self.train_steps == 0 {
            Some("train_steps must be greater than zero")
        } else if self.lr_warmup_steps > self.train_steps {
            Some("lr_warmup_steps must be <= train_steps")
        } else if self.generate_tokens == 0 {
            Some("generate_tokens must be greater than zero")
        } else if self.minigpt_grad_clip_norm.at_most_zero() {
            Some("RUSTY_GPT_MINIGPT_GRAD_CLIP_NORM must be greater than zero")
        } else if self.moe_experts == 0 {
            Some("moe_experts must be greater than zero")
        } else if self.moe_top_k == 0 {
            Some("moe_top_k must be greater than zero")
        } else if self.moe_top_k > self.moe_experts {
            Some("moe_top_k must be <= moe_experts")
        } else if self.moe_aux_loss_weight.below_zero() {
            Some("moe_aux_loss_weight must be >= 0")
        } else if self.checkpoint_interval != 0 && self.checkpoint_keep == 0 {
            Some(
                "checkpoint_keep must be greater than zero when checkpoint_interval is non-zero (use --checkpoint-interval 0 to disable periodic checkpoints entirely)",
            )
        } else {
            None
        }
    }
}

// ---------------------------------------------------------------------------------------
// Checkpoint paths
// ---------------------------------------------------------------------------------------

/// What the filesystem resolved for a checkpoint path: the checkpoint directory, and the
/// directory that the path puts its file into. Each is a fault where it could not be resolved.
#[derive(Debug, Clone, PartialEq, Eq)]
pub struct ResolvedDirs {
    pub root: Reading<String>,
    pub parent: Reading<String>,
}

/// Where a checkpoint path points before it is resolved: an absolute path and one that already
/// starts at the checkpoint directory are taken as they are, any other lies inside the directory.
pub open spec fn checkpoint_candidate(input: Seq<char>, root: Seq<char>) -> Seq<char> {
    if path::is_absolute(input) || path::starts_with(input, root) {
        input
    } else {
        path::join(root, input)
    }
}

/// The first part of every message about a checkpoint path.
pub open spec fn outside_checkpoints_text(input: Seq<char>) -> Seq<char> {
    "checkpoint path must be inside checkpoints/ (got: "@ + input
}

/// What a checkpoint path resolves to, or why it is refused.
pub open spec fn resolved_checkpoint(
    input: Seq<char>,
    root: Seq<char>,
    dirs: ResolvedDirs,
) -> Result<Seq<char>, FailureView> {
    let candidate = checkpoint_candidate(input, root);
    match dirs.root {
        Reading::Fault(cause) => Err(
            failure::because(
                outside_checkpoints_text(input) + ", failed to resolve root: "@ + root + ")"@,
                cause@,
            ),
        ),
        Reading::Value(real_root) => match path::file_name(candidate) {
            None => Err(
                failure::said(outside_checkpoints_text(input) + ", resolved: <none>)"@),
            ),
            Some(name) => match dirs.parent {
                Reading::Fault(cause) => Err(
                    failure::because(
                        outside_checkpoints_text(input) + ", failed to resolve parent: "@
                            + first_of(path::parent(candidate), real_root@) + ")"@,
                        cause@,
                    ),
                ),
                Reading::Value(real_parent) => {
                    let resolved = path::join(real_parent@, name);
                    if path::starts_with(resolved, real_root@) {
                        Ok(resolved)
                    } else {
                        Err(
                            failure::said(
                                outside_checkpoints_text(input) + ", resolved: "@ + resolved + ")"@,
                            ),
                        )
                    }
                },
            },
        },
    }
}

fn candidate_path(input: &str, root: &str) -> (candidate: String)
    ensures
        candidate@ == checkpoint_candidate(input@, root@),
{
    if path::path_is_absolute(input) || path::path_starts_with(input, root) {
        input.to_owned()
    } else {
        path::path_join(root, input)
    }
}

/// The directory that the caller has to resolve for a checkpoint path, where the path has one.
pub fn checkpoint_parent(input: &str, root: &str) -> (dir: Option<String>)
    ensures
        match (dir, path::parent(checkpoint_candidate(input@, root@))) {
            (Some(d), Some(p)) => d@ == p,
            (None, None) => true,
            _ => false,
        },
{
    let candidate = candidate_path(input, root);
    path::path_parent(candidate.as_str())
}

/// Confines a checkpoint path to the checkpoint directory: see [`resolved_checkpoint`].
pub fn validate_checkpoint_path(input: &str, root: &str, dirs: &ResolvedDirs) -> (r: Result<
    String,
    Failure,
>)
    ensures
        match r {
            Ok(p) => resolved_checkpoint(input@, root@, *dirs) == Ok::<Seq<char>, FailureView>(p@),
            Err(e) => resolved_checkpoint(input@, root@, *dirs) == Err::<Seq<char>, FailureView>(
                e@,
            ),
        },
{
    let candidate = candidate_path(input, root);
    let mut message = "checkpoint path must be inside checkpoints/ (got: ".to_owned();
    message.append(input);
    let real_root = match &dirs.root {
        Reading::Value(real_root) => real_root,
        Reading::Fault(cause) => {
            message.append(", failed to resolve root: ");
            message.append(root);
            message.append(")");
            return Err(Failure::caused(message, cause.clone()));
        },
    };
    let name = match path::path_file_name(candidate.as_str()) {
        Some(name) => name,
        None => {
            message.append(", resolved: <none>)");
            return Err(Failure::of(message));
        },
    };
    let real_parent = match &dirs.parent {
        Reading::Value(real_parent) => real_parent,
        Reading::Fault(cause) => {
            message.append(", failed to resolve parent: ");
            match path::path_parent(candidate.as_str()) {
                Some(parent) => {
                    message.append(parent.as_str());
                },
                None => {
                    message.append(real_root.as_str());
                },
            }
            message.append(")");
            return Err(Failure::caused(message, cause.clone()));
        },
    };
    let resolved = path::path_join(real_parent.as_str(), name.as_str());
    if !path::path_starts_with(resolved.as_str(), real_root.as_str()) {
        message.append(", resolved: ");
        message.append(resolved.as_str());
        message.append(")");
        return Err(Failure::of(message));
    }
    Ok(resolved)
}

/// An accepted checkpoint path lies inside the resolved checkpoint directory, and keeps the name
/// that was asked for.
pub proof fn law_accepted_checkpoints_are_confined(
    input: Seq<char>,
    root: Seq<char>,
    dirs: ResolvedDirs,
)
    requires
        resolved_checkpoint(input, root, dirs) is Ok,
    ensures
        dirs.root is Value,
        path::starts_with(resolved_checkpoint(input, root, dirs)->Ok_0, dirs.root->Value_0@),
        path::file_name(checkpoint_candidate(input, root)) is Some,
        resolved_checkpoint(input, root, dirs)->Ok_0 == path::join(
            dirs.parent->Value_0@,
            path::file_name(checkpoint_candidate(input, root))->Some_0,
        ),
{
}

// ---------------------------------------------------------------------------------------
// The whole configuration
// ---------------------------------------------------------------------------------------

/// What the command line says. Nothing has a default here: a value that is absent was not given.
#[derive(Debug, Clone, Default)]
pub struct CliArgs {
    pub backend: Option<String>,
    pub input: Option<String>,
    pub model: Option<String>,
    pub checkpoint: Option<String>,
    pub resume_from: Option<String>,
    pub server_addr: Option<String>,
    pub log_format: Option<String>,
    pub max_prompt_bytes: Option<usize>,
    pub max_output_tokens: Option<usize>,
    pub rate_limit_rps: Option<usize>,
    pub rate_limit_burst: Option<usize>,
    pub benchmark_prompt_lens: Option<String>,
    pub benchmark_gen_lens: Option<String>,
    pub benchmark_warmups: Option<String>,
    pub benchmark_iterations: Option<String>,
    pub block_size: Option<usize>,
    pub batch_size: Option<usize>,
    pub embed_dim: Option<usize>,
    pub num_heads: Option<usize>,
    pub num_layers: Option<usize>,
    pub dropout: Option<Real>,
    pub learning_rate: Option<Real>,
    pub lr_schedule: Option<String>,
    pub lr_warmup_steps: Option<usize>,
    pub sampling_policy: Option<String>,
    pub train_steps: Option<usize>,
    pub eval_interval: Option<usize>,
    pub generate_tokens: Option<usize>,
    pub grad_clip_norm: Option<ShortReal>,
    pub moe_experts: Option<usize>,
    pub moe_top_k: Option<usize>,
    pub moe_aux_loss_weight: Option<Real>,
    pub prefetch_batches: Option<usize>,
    pub checkpoint_interval: Option<usize>,
    pub checkpoint_keep: Option<usize>,
    pub interactive_generate: bool,
    pub benchmark_generation: bool,
    pub load_checkpoint: bool,
    pub load_latest_checkpoint: bool,
    pub serve: bool,
}

/// What only the network library and the filesystem can say about the settings.
#[derive(Debug, Clone)]
pub struct ConfigFacts {
    /// Why [`server_addr_text`] is no socket address, where it is none.
    pub server_addr_error: Option<String>,
    /// What [`checkpoint_text`] resolves to.
    pub checkpoint: ResolvedDirs,
    /// What [`resume_text`] resolves to.
    pub resume_from: ResolvedDirs,
}

/// The settings of a run.
#[derive(Debug, Clone)]
pub struct RuntimeConfig {
    pub backend: BackendChoice,
    pub model: ModelChoice,
    pub input_path: String,
    pub input_source: InputSource,
    pub checkpoint_path: String,
    /// The checkpoint that training goes on from. `None` starts afresh.
    pub resume_from: Option<String>,
    pub hyperparameters: Hyperparameters,
    pub interactive: bool,
    pub benchmark_generation: bool,
    pub load_checkpoint: bool,
    pub load_latest_checkpoint: bool,
    pub serve: bool,
    pub server_addr: String,
    pub max_prompt_bytes: usize,
    pub max_output_tokens: usize,
    pub rate_limit_rps: usize,
    pub rate_limit_burst: usize,
    pub log_format: LogFormat,
    pub benchmark_config: BenchmarkConfig,
}

/// The command line's text, else the environment's.
pub open spec fn given(arg: Option<String>, env: Option<String>) -> Option<Seq<char>> {
    match arg {
        Some(a) => Some(a@),
        None => match env {
            Some(e) => Some(e@),
            None => None,
        },
    }
}

/// The server address that is asked for.
pub open spec fn asked_server_addr(cli: CliArgs, env: RuntimeEnv) -> Seq<char> {
    first_of(given(cli.server_addr, env.server_addr), DEFAULT_SERVER_ADDR@)
}

/// The input that is asked for.
pub open spec fn asked_input(cli: CliArgs, env: RuntimeEnv) -> Seq<char> {
    first_of(given(cli.input, env.input), DEFAULT_INPUT_PATH@)
}

/// The backend that is asked for.
pub open spec fn asked_backend(cli: CliArgs, env: RuntimeEnv) -> Seq<char> {
    first_of(given(cli.backend, env.backend), "cpu"@)
}

/// The model that is asked for.
pub open spec fn asked_model(cli: CliArgs, env: RuntimeEnv) -> Seq<char> {
    first_of(given(cli.model, env.model), "minigpt"@)
}

/// Why a limit is refused, if it is. The environment counts only where the command line is silent.
pub open spec fn limit_error(arg: Option<usize>, env: Option<String>, name: Seq<char>) -> Option<
    FailureView,
> {
    match arg {
        Some(_) => None,
        None => usize_env_error(name, env),
    }
}

/// A limit: the command line's, else the environment's, else the default.
pub open spec fn limit_or(arg: Option<usize>, env: Option<String>, default: usize) -> usize {
    match arg {
        Some(n) => n,
        None => usize_env_or(env, default),
    }
}

/// The rule that server limits break, if they break one.
pub open spec fn server_limits_error(
    max_prompt_bytes: usize,
    max_output_tokens: usize,
    rate_limit_rps: usize,
    rate_limit_burst: usize,
) -> Option<Seq<char>> {
    if max_prompt_bytes == 0 {
        Some("max_prompt_bytes must be greater than zero"@)
    } else if max_output_tokens == 0 {
        Some("max_output_tokens must be greater than zero"@)
    } else if rate_limit_rps != 0 && rate_limit_burst == 0 {
        Some("rate_limit_burst must be greater than zero when rate_limit_rps is non-zero"@)
    } else {
        None
    }
}

/// Why a list of benchmark lengths is refused, if it is.
pub open spec fn lens_error(
    value: Option<Seq<char>>,
    what: Seq<char>,
    label: Seq<char>,
) -> Option<FailureView> {
    match value {
        Some(v) => if utils::accepted_list(v) is None {
            Some(
                failure::because(
                    "invalid benchmark "@ + what + " '"@ + v + "'"@,
                    utils::list_error_text(v, label),
                ),
            )
        } else {
            None
        },
        None => None,
    }
}

/// Benchmark lengths, or the defaults.
pub open spec fn lens_or(value: Option<Seq<char>>, default: Seq<usize>) -> Seq<usize> {
    match value {
        Some(v) => first_of(utils::accepted_list(v), default),
        None => default,
    }
}

/// Why a benchmark count is refused, if it is.
pub open spec fn count_error(value: Option<Seq<char>>, what: Seq<char>) -> Option<FailureView> {
    match value {
        Some(v) => if text::usize_value(v) is None {
            Some(
                failure::because("invalid benchmark "@ + what + " '"@ + v + "'"@, text::usize_cause(v)),
            )
        } else {
            None
        },
        None => None,
    }
}

/// A benchmark count, or the default.
pub open spec fn count_or(value: Option<Seq<char>>, default: usize) -> usize {
    match value {
        Some(v) => first_of(text::usize_value(v), default),
        None => default,
    }
}

/// The first thing wrong with the server settings, the backend and the log format.
pub open spec fn server_error(cli: CliArgs, env: RuntimeEnv, facts: ConfigFacts) -> Option<
    FailureView,
> {
    let format = given(cli.log_format, env.log_format);
    if cli.load_checkpoint && cli.load_latest_checkpoint {
        Some(
            failure::said(
                "--load-checkpoint and --load-latest-checkpoint are mutually exclusive"@,
            ),
        )
    } else if facts.server_addr_error is Some {
        Some(
            failure::because(
                "invalid server address '"@ + asked_server_addr(cli, env) + "'"@,
                facts.server_addr_error->Some_0@,
            ),
        )
    } else if limit_error(
        cli.max_prompt_bytes,
        env.max_prompt_bytes,
        "RUSTY_GPT_MAX_PROMPT_BYTES"@,
    ) is Some {
        limit_error(cli.max_prompt_bytes, env.max_prompt_bytes, "RUSTY_GPT_MAX_PROMPT_BYTES"@)
    } else if limit_error(
        cli.max_output_tokens,
        env.max_output_tokens,
        "RUSTY_GPT_MAX_OUTPUT_TOKENS"@,
    ) is Some {
        limit_error(cli.max_output_tokens, env.max_output_tokens, "RUSTY_GPT_MAX_OUTPUT_TOKENS"@)
    } else if limit_error(cli.rate_limit_rps, env.rate_limit_rps, "RUSTY_GPT_RATE_LIMIT_RPS"@) is Some {
        limit_error(cli.rate_limit_rps, env.rate_limit_rps, "RUSTY_GPT_RATE_LIMIT_RPS"@)
    } else if limit_error(
        cli.rate_limit_burst,
        env.rate_limit_burst,
        "RUSTY_GPT_RATE_LIMIT_BURST"@,
    ) is Some {
        limit_error(cli.rate_limit_burst, env.rate_limit_burst, "RUSTY_GPT_RATE_LIMIT_BURST"@)
    } else if asked_limits_error(cli, env) is Some {
        failure::plainly(asked_limits_error(cli, env))
    } else if backend_error(asked_backend(cli, env)) is Some {
        failure::plainly(backend_error(asked_backend(cli, env)))
    } else if format matches Some(f) && observability::log_format_of(f) is None {
        Some(failure::said(observability::unsupported_log_format_text(format->Some_0)))
    } else {
        None
    }
}

/// The rule that the server limits asked for break, if they break one.
pub open spec fn asked_limits_error(cli: CliArgs, env: RuntimeEnv) -> Option<Seq<char>> {
    server_limits_error(
        limit_or(cli.max_prompt_bytes, env.max_prompt_bytes, DEFAULT_MAX_PROMPT_BYTES),
        limit_or(cli.max_output_tokens, env.max_output_tokens, DEFAULT_MAX_OUTPUT_TOKENS),
        limit_or(cli.rate_limit_rps, env.rate_limit_rps, DEFAULT_RATE_LIMIT_RPS),
        limit_or(cli.rate_limit_burst, env.rate_limit_burst, DEFAULT_RATE_LIMIT_BURST),
    )
}

/// The prompt lengths, generation lengths, warmups and iterations of the benchmark asked for.
pub open spec fn asked_benchmark(cli: CliArgs, env: RuntimeEnv) -> (
    Seq<usize>,
    Seq<usize>,
    usize,
    usize,
) {
    (
        lens_or(
            given(cli.benchmark_prompt_lens, env.benchmark_prompt_lens),
            utils::default_prompt_lens(),
        ),
        lens_or(given(cli.benchmark_gen_lens, env.benchmark_gen_lens), utils::default_gen_lens()),
        count_or(
            given(cli.benchmark_warmups, env.benchmark_warmups),
            utils::DEFAULT_BENCHMARK_WARMUPS,
        ),
        count_or(
            given(cli.benchmark_iterations, env.benchmark_iterations),
            utils::DEFAULT_BENCHMARK_ITERATIONS,
        ),
    )
}

/// The first thing wrong with the benchmark settings.
pub open spec fn benchmark_error(cli: CliArgs, env: RuntimeEnv) -> Option<FailureView> {
    let prompts = given(cli.benchmark_prompt_lens, env.benchmark_prompt_lens);
    let gens = given(cli.benchmark_gen_lens, env.benchmark_gen_lens);
    let warmups = given(cli.benchmark_warmups, env.benchmark_warmups);
    let iterations = given(cli.benchmark_iterations, env.benchmark_iterations);
    if lens_error(prompts, "prompt lengths"@, "benchmark prompt lengths"@) is Some {
        lens_error(prompts, "prompt lengths"@, "benchmark prompt lengths"@)
    } else if lens_error(gens, "generation lengths"@, "benchmark generation lengths"@) is Some {
        lens_error(gens, "generation lengths"@, "benchmark generation lengths"@)
    } else if count_error(warmups, "warmups"@) is Some {
        count_error(warmups, "warmups"@)
    } else if count_error(iterations, "iterations"@) is Some {
        count_error(iterations, "iterations"@)
    } else {
        let asked = asked_benchmark(cli, env);
        match utils::benchmark_problem(asked.0, asked.1, asked.3) {
            Some(e) => Some(failure::said(utils::benchmark_config_error_text(e))),
            None => None,
        }
    }
}

/// What the command line sets of the hyperparameters.
pub open spec fn asked_overrides(cli: CliArgs) -> HyperparameterOverrides {
    HyperparameterOverrides {
        block_size: cli.block_size,
        batch_size: cli.batch_size,
        embed_dim: cli.embed_dim,
        num_heads: cli.num_heads,
        num_layers: cli.num_layers,
        dropout: cli.dropout,
        learning_rate: cli.learning_rate,
        learning_rate_schedule: named_schedule(cli.lr_schedule),
        lr_warmup_steps: cli.lr_warmup_steps,
        sampling_policy: named_policy(cli.sampling_policy),
        train_steps: cli.train_steps,
        eval_interval: cli.eval_interval,
        generate_tokens: cli.generate_tokens,
        minigpt_grad_clip_norm: cli.grad_clip_norm,
        moe_experts: cli.moe_experts,
        moe_top_k: cli.moe_top_k,
        moe_aux_loss_weight: cli.moe_aux_loss_weight,
        prefetch_batches: cli.prefetch_batches,
        checkpoint_interval: cli.checkpoint_interval,
        checkpoint_keep: cli.checkpoint_keep,
    }
}

/// The hyperparameters asked for, before the head size is set.
pub open spec fn asked_hyperparameters(cli: CliArgs, env: RuntimeEnv) -> Hyperparameters {
    overridden(env_hyperparameters(env), asked_overrides(cli))
}

/// What the checkpoint path asked for comes to.
pub open spec fn checkpoint_outcome(cli: CliArgs, env: RuntimeEnv, facts: ConfigFacts) -> Result<
    Seq<char>,
    FailureView,
> {
    match given(cli.checkpoint, env.checkpoint) {
        Some(p) => resolved_checkpoint(p, DEFAULT_CHECKPOINT_DIR@, facts.checkpoint),
        None => Ok(DEFAULT_MINIGPT_CHECKPOINT_PATH@),
    }
}

/// The first thing wrong with the paths and the model.
pub open spec fn source_error(cli: CliArgs, env: RuntimeEnv, facts: ConfigFacts) -> Option<
    FailureView,
> {
    if input_source::parsed(asked_input(cli, env)) is Err {
        Some(
            failure::because(
                "invalid --input value '"@ + asked_input(cli, env) + "'"@,
                input_source::error_text(input_source::parsed(asked_input(cli, env))->Err_0),
            ),
        )
    } else if checkpoint_outcome(cli, env, facts) is Err {
        Some(checkpoint_outcome(cli, env, facts)->Err_0)
    } else if model_of(asked_model(cli, env)) is None {
        Some(failure::said(unsupported_model_text(asked_model(cli, env))))
    } else {
        match given(cli.resume_from, env.resume_from) {
            None => None,
            Some(p) => if !checkpoint_backed(model_of(asked_model(cli, env))->Some_0) {
                Some(
                    failure::said(
                        "--resume-from requires --model minigpt or moe-gpt; got --model "@
                            + model_label(model_of(asked_model(cli, env))->Some_0),
                    ),
                )
            } else {
                match resolved_checkpoint(p, DEFAULT_CHECKPOINT_DIR@, facts.resume_from) {
                    Err(f) => Some(f),
                    Ok(_) => None,
                }
            },
        }
    }
}

/// The first thing wrong with the settings, in the order in which they are checked.
pub open spec fn config_error(cli: CliArgs, env: RuntimeEnv, facts: ConfigFacts) -> Option<
    FailureView,
> {
    if schedule_error(cli.lr_schedule) is Some {
        schedule_error(cli.lr_schedule)
    } else if policy_error(cli.sampling_policy) is Some {
        policy_error(cli.sampling_policy)
    } else if server_error(cli, env, facts) is Some {
        server_error(cli, env, facts)
    } else if benchmark_error(cli, env) is Some {
        benchmark_error(cli, env)
    } else if env_error(env) is Some {
        env_error(env)
    } else if violation(asked_hyperparameters(cli, env)) is Some {
        failure::plainly(violation(asked_hyperparameters(cli, env)))
    } else {
        source_error(cli, env, facts)
    }
}

/// Whether `config` says what was asked for.
pub open spec fn config_is(
    config: RuntimeConfig,
    cli: CliArgs,
    env: RuntimeEnv,
    facts: ConfigFacts,
) -> bool {
    let format = given(cli.log_format, env.log_format);
    let resume = given(cli.resume_from, env.resume_from);
    let benchmark = asked_benchmark(cli, env);
    &&& config.backend == BackendChoice::Cpu
    &&& Some(config.model) == model_of(asked_model(cli, env))
    &&& config.input_path@ == asked_input(cli, env)
    &&& Ok::<_, input_source::InputSourceErrorView>(config.input_source@) == input_source::parsed(
        asked_input(cli, env),
    )
    &&& Ok::<_, FailureView>(config.checkpoint_path@) == checkpoint_outcome(cli, env, facts)
    &&& match resume {
        Some(p) => config.resume_from matches Some(q) && Ok::<_, FailureView>(q@)
            == resolved_checkpoint(p, DEFAULT_CHECKPOINT_DIR@, facts.resume_from),
        None => config.resume_from is None,
    }
    &&& config.hyperparameters == with_head_dim(asked_hyperparameters(cli, env))
    &&& config.interactive == cli.interactive_generate
    &&& config.benchmark_generation == cli.benchmark_generation
    &&& config.load_checkpoint == cli.load_checkpoint
    &&& config.load_latest_checkpoint == cli.load_latest_checkpoint
    &&& config.serve == cli.serve
    &&& config.server_addr@ == asked_server_addr(cli, env)
    &&& config.max_prompt_bytes == limit_or(
        cli.max_prompt_bytes,
        env.max_prompt_bytes,
        DEFAULT_MAX_PROMPT_BYTES,
    )
    &&& config.max_output_tokens == limit_or(
        cli.max_output_tokens,
        env.max_output_tokens,
        DEFAULT_MAX_OUTPUT_TOKENS,
    )
    &&& config.rate_limit_rps == limit_or(
        cli.rate_limit_rps,
        env.rate_limit_rps,
        DEFAULT_RATE_LIMIT_RPS,
    )
    &&& config.rate_limit_burst == limit_or(
        cli.rate_limit_burst,
        env.rate_limit_burst,
        DEFAULT_RATE_LIMIT_BURST,
    )
    &&& match format {
        Some(f) => observability::log_format_of(f) == Some(config.log_format),
        None => config.log_format == LogFormat::Plain,
    }
    &&& config.benchmark_config.prompt_lens@ == benchmark.0
    &&& config.benchmark_config.gen_lens@ == benchmark.1
    &&& config.benchmark_config.warmups == benchmark.2
    &&& config.benchmark_config.iterations == benchmark.3
}

fn pick<'a>(arg: &'a Option<String>, env: &'a Option<String>) -> (r: Option<&'a str>)
    ensures
        match r {
            Some(s) => given(*arg, *env) == Some(s@),
            None => given(*arg, *env) is None,
        },
{
    match arg {
        Some(a) => Some(a.as_str()),
        None => match env {
            Some(e) => Some(e.as_str()),
            None => None,
        },
    }
}

fn pick_or<'a>(arg: &'a Option<String>, env: &'a Option<String>, default: &'a str) -> (r: &'a str)
    ensures
        r@ == first_of(given(*arg, *env), default@),
{
    match pick(arg, env) {
        Some(s) => s,
        None => default,
    }
}

/// The server address that the caller has to try to parse.
pub fn server_addr_text<'a>(cli: &'a CliArgs, env: &'a RuntimeEnv) -> (s: &'a str)
    ensures
        s@ == asked_server_addr(*cli, *env),
{
    pick_or(&cli.server_addr, &env.server_addr, DEFAULT_SERVER_ADDR)
}

/// The checkpoint path that the caller has to resolve, where one is asked for.
pub fn checkpoint_text<'a>(cli: &'a CliArgs, env: &'a RuntimeEnv) -> (s: Option<&'a str>)
    ensures
        match s {
            Some(p) => given(cli.checkpoint, env.checkpoint) == Some(p@),
            None => given(cli.checkpoint, env.checkpoint) is None,
        },
{
    pick(&cli.checkpoint, &env.checkpoint)
}

/// The path to resume from that the caller has to resolve, where one is asked for.
pub fn resume_text<'a>(cli: &'a CliArgs, env: &'a RuntimeEnv) -> (s: Option<&'a str>)
    ensures
        match s {
            Some(p) => given(cli.resume_from, env.resume_from) == Some(p@),
            None => given(cli.resume_from, env.resume_from) is None,
        },
{
    pick(&cli.resume_from, &env.resume_from)
}

/// A limit: the command line's, else the environment's, else the default.
pub fn parse_config_usize(
    arg_value: Option<usize>,
    env_value: &Option<String>,
    default: usize,
    env_name: &str,
) -> (r: Result<usize, Failure>)
    ensures
        match r {
            Ok(n) => limit_error(arg_value, *env_value, env_name@) is None && n == limit_or(
                arg_value,
                *env_value,
                default,
            ),
            Err(e) => limit_error(arg_value, *env_value, env_name@) == Some(e@),
        },
{
    match arg_value {
        Some(value) => Ok(value),
        None => read_usize(env_name, env_value, default),
    }
}

/// Holds server limits to their rules: see [`server_limits_error`].
pub fn validate_server_limits(
    max_prompt_bytes: usize,
    max_output_tokens: usize,
    rate_limit_rps: usize,
    rate_limit_burst: usize,
) -> (r: Result<(), Failure>)
    ensures
        match r {
            Ok(_) => server_limits_error(
                max_prompt_bytes,
                max_output_tokens,
                rate_limit_rps,
                rate_limit_burst,
            ) is None,
            Err(e) => failure::plainly(
                server_limits_error(
                    max_prompt_bytes,
                    max_output_tokens,
                    rate_limit_rps,
                    rate_limit_burst,
                ),
            ) == Some(e@),
        },
{
    if max_prompt_bytes == 0 {
        return Err(Failure::new("max_prompt_bytes must be greater than zero"));
    }
    if max_output_tokens == 0 {
        return Err(Failure::new("max_output_tokens must be greater than zero"));
    }
    if rate_limit_rps != 0 && rate_limit_burst == 0 {
        return Err(
            Failure::new(
                "rate_limit_burst must be greater than zero when rate_limit_rps is non-zero",
            ),
        );
    }
    Ok(())
}

/// The server side of the settings.
struct ServerSettings {
    max_prompt_bytes: usize,
    max_output_tokens: usize,
    rate_limit_rps: usize,
    rate_limit_burst: usize,
    backend: BackendChoice,
    log_format: LogFormat,
}

fn server_settings(cli: &CliArgs, env: &RuntimeEnv, facts: &ConfigFacts) -> (r: Result<
    ServerSettings,
    Failure,
>)
    ensures
        match r {
            Ok(s) => {
                &&& server_error(*cli, *env, *facts) is None
                &&& s.max_prompt_bytes == limit_or(
                    cli.max_prompt_bytes,
                    env.max_prompt_bytes,
                    DEFAULT_MAX_PROMPT_BYTES,
                )
                &&& s.max_output_tokens == limit_or(
                    cli.max_output_tokens,
                    env.max_output_tokens,
                    DEFAULT_MAX_OUTPUT_TOKENS,
                )
                &&& s.rate_limit_rps == limit_or(
                    cli.rate_limit_rps,
                    env.rate_limit_rps,
                    DEFAULT_RATE_LIMIT_RPS,
                )
                &&& s.rate_limit_burst == limit_or(
                    cli.rate_limit_burst,
                    env.rate_limit_burst,
                    DEFAULT_RATE_LIMIT_BURST,
                )
                &&& match given(cli.log_format, env.log_format) {
                    Some(f) => observability::log_format_of(f) == Some(s.log_format),
                    None => s.log_format == LogFormat::Plain,
                }
            },
            Err(e) => server_error(*cli, *env, *facts) == Some(e@),
        },
{
    if cli.load_checkpoint && cli.load_latest_checkpoint {
        return Err(
            Failure::new("--load-checkpoint and --load-latest-checkpoint are mutually exclusive"),
        );
    }
    if let Some(cause) = &facts.server_addr_error {
        let mut message = "invalid server address '".to_owned();
        message.append(server_addr_text(cli, env));
        message.append("'");
        return Err(Failure::caused(message, cause.clone()));
    }
    let max_prompt_bytes = match parse_config_usize(
        cli.max_prompt_bytes,
        &env.max_prompt_bytes,
        DEFAULT_MAX_PROMPT_BYTES,
        "RUSTY_GPT_MAX_PROMPT_BYTES",
    ) {
        Ok(n) => n,
        Err(e) => {
            return Err(e);
        },
    };
    let max_output_tokens = match parse_config_usize(
        cli.max_output_tokens,
        &env.max_output_tokens,
        DEFAULT_MAX_OUTPUT_TOKENS,
        "RUSTY_GPT_MAX_OUTPUT_TOKENS",
    ) {
        Ok(n) => n,
        Err(e) => {
            return Err(e);
        },
    };
    let rate_limit_rps = match parse_config_usize(
        cli.rate_limit_rps,
        &env.rate_limit_rps,
        DEFAULT_RATE_LIMIT_RPS,
        "RUSTY_GPT_RATE_LIMIT_RPS",
    ) {
        Ok(n) => n,
        Err(e) => {
            return Err(e);
        },
    };
    let rate_limit_burst = match parse_config_usize(
        cli.rate_limit_burst,
        &env.rate_limit_burst,
        DEFAULT_RATE_LIMIT_BURST,
        "RUSTY_GPT_RATE_LIMIT_BURST",
    ) {
        Ok(n) => n,
        Err(e) => {
            return Err(e);
        },
    };
    match validate_server_limits(
        max_prompt_bytes,
        max_output_tokens,
        rate_limit_rps,
        rate_limit_burst,
    ) {
        Ok(_) => {},
        Err(e) => {
            return Err(e);
        },
    }
    let backend = match parse_backend_name(pick_or(&cli.backend, &env.backend, "cpu")) {
        Ok(backend) => backend,
        Err(e) => {
            return Err(e);
        },
    };
    let log_format = match pick(&cli.log_format, &env.log_format) {
        Some(value) => match LogFormat::parse(value) {
            Ok(format) => format,
            Err(e) => {
                return Err(Failure::of(e.to_text()));
            },
        },
        None => default_log_format(backend),
    };
    Ok(
        ServerSettings {
            max_prompt_bytes,
            max_output_tokens,
            rate_limit_rps,
            rate_limit_burst,
            backend,
            log_format,
        },
    )
}

fn invalid_benchmark(what: &str, value: &str, cause: String) -> (f: Failure)
    ensures
        f@ == failure::because("invalid benchmark "@ + what@ + " '"@ + value@ + "'"@, cause@),
{
    let mut message = "invalid benchmark ".to_owned();
    message.append(what);
    message.append(" '");
    message.append(value);
    message.append("'");
    Failure::caused(message, cause)
}

fn benchmark_settings(cli: &CliArgs, env: &RuntimeEnv) -> (r: Result<BenchmarkConfig, Failure>)
    ensures
        match r {
            Ok(config) => {
                &&& benchmark_error(*cli, *env) is None
                &&& config.prompt_lens@ == asked_benchmark(*cli, *env).0
                &&& config.gen_lens@ == asked_benchmark(*cli, *env).1
                &&& config.warmups == asked_benchmark(*cli, *env).2
                &&& config.iterations == asked_benchmark(*cli, *env).3
            },
            Err(e) => benchmark_error(*cli, *env) == Some(e@),
        },
{
    let mut config = BenchmarkConfig::default();
    match pick(&cli.benchmark_prompt_lens, &env.benchmark_prompt_lens) {
        Some(value) => match utils::parse_usize_list(value, "benchmark prompt lengths") {
            Ok(lens) => {
                config.prompt_lens = lens;
            },
            Err(e) => {
                return Err(invalid_benchmark("prompt lengths", value, e.to_text()));
            },
        },
        None => {},
    }
    match pick(&cli.benchmark_gen_lens, &env.benchmark_gen_lens) {
        Some(value) => match utils::parse_usize_list(value, "benchmark generation lengths") {
            Ok(lens) => {
                config.gen_lens = lens;
            },
            Err(e) => {
                return Err(invalid_benchmark("generation lengths", value, e.to_text()));
            },
        },
        None => {},
    }
    match pick(&cli.benchmark_warmups, &env.benchmark_warmups) {
        Some(value) => match text::parse_usize(value) {
            Some(n) => {
                config.warmups = n;
            },
            None => {
                return Err(invalid_benchmark("warmups", value, text::usize_cause_text(value)));
            },
        },
        None => {},
    }
    match pick(&cli.benchmark_iterations, &env.benchmark_iterations) {
        Some(value) => match text::parse_usize(value) {
            Some(n) => {
                config.iterations = n;
            },
            None => {
                return Err(invalid_benchmark("iterations", value, text::usize_cause_text(value)));
            },
        },
        None => {},
    }
    match config.validate() {
        Ok(_) => Ok(config),
        Err(e) => Err(Failure::new(e.message())),
    }
}

/// What the paths and the model of the settings come to.
struct SourceSettings {
    input_path: String,
    input_source: InputSource,
    checkpoint_path: String,
    model: ModelChoice,
    resume_from: Option<String>,
}

fn source_settings(cli: &CliArgs, env: &RuntimeEnv, facts: &ConfigFacts) -> (r: Result<
    SourceSettings,
    Failure,
>)
    ensures
        match r {
            Ok(s) => {
                &&& source_error(*cli, *env, *facts) is None
                &&& s.input_path@ == asked_input(*cli, *env)
                &&& Ok::<_, input_source::InputSourceErrorView>(s.input_source@)
                    == input_source::parsed(asked_input(*cli, *env))
                &&& Ok::<_, FailureView>(s.checkpoint_path@) == checkpoint_outcome(*cli, *env, *facts)
                &&& Some(s.model) == model_of(asked_model(*cli, *env))
                &&& match given(cli.resume_from, env.resume_from) {
                    Some(p) => s.resume_from matches Some(q) && Ok::<_, FailureView>(q@)
                        == resolved_checkpoint(p, DEFAULT_CHECKPOINT_DIR@, facts.resume_from),
                    None => s.resume_from is None,
                }
            },
            Err(e) => source_error(*cli, *env, *facts) == Some(e@),
        },
{
    let raw_input = pick_or(&cli.input, &env.input, DEFAULT_INPUT_PATH);
    let input_source = match InputSource::parse(raw_input) {
        Ok(source) => source,
        Err(e) => {
            let mut message = "invalid --input value '".to_owned();
            message.append(raw_input);
            message.append("'");
            return Err(Failure::caused(message, e.to_text()));
        },
    };
    let input_path = input_source.display();
    proof {
        input_source::law_display_gives_back_the_input(raw_input@);
    }
    let checkpoint_path = match pick(&cli.checkpoint, &env.checkpoint) {
        Some(p) => match validate_checkpoint_path(p, DEFAULT_CHECKPOINT_DIR, &facts.checkpoint) {
            Ok(resolved) => resolved,
            Err(e) => {
                return Err(e);
            },
        },
        None => DEFAULT_MINIGPT_CHECKPOINT_PATH.to_owned(),
    };
    let model = match parse_model_name(pick_or(&cli.model, &env.model, "minigpt")) {
        Ok(model) => model,
        Err(e) => {
            return Err(e);
        },
    };
    let resume_from = match pick(&cli.resume_from, &env.resume_from) {
        Some(p) => {
            if !model.is_checkpoint_backed() {
                let mut message =
                    "--resume-from requires --model minigpt or moe-gpt; got --model ".to_owned();
                message.append(model.label());
                return Err(Failure::of(message));
            }
            match validate_checkpoint_path(p, DEFAULT_CHECKPOINT_DIR, &facts.resume_from) {
                Ok(resolved) => Some(resolved),
                Err(e) => {
                    return Err(e);
                },
            }
        },
        None => None,
    };
    Ok(SourceSettings { input_path, input_source, checkpoint_path, model, resume_from })
}

/// Puts the settings of a run together: each from the command line, else from the environment,
/// else the default. The first thing wrong is reported: see [`config_error`].
pub fn parse_runtime_config_with_checkpoint(
    cli: &CliArgs,
    env: &RuntimeEnv,
    facts: &ConfigFacts,
) -> (r: Result<RuntimeConfig, Failure>)
    ensures
        match r {
            Ok(config) => config_error(*cli, *env, *facts) is None && config_is(
                config,
                *cli,
                *env,
                *facts,
            ) && well_formed(config.hyperparameters),
            Err(e) => config_error(*cli, *env, *facts) == Some(e@),
        },
{
    let learning_rate_schedule = match read_schedule(&cli.lr_schedule) {
        Ok(schedule) => schedule,
        Err(e) => {
            return Err(e);
        },
    };
    let sampling_policy = match read_policy(&cli.sampling_policy) {
        Ok(policy) => policy,
        Err(e) => {
            return Err(e);
        },
    };
    let overrides = HyperparameterOverrides {
        block_size: cli.block_size,
        batch_size: cli.batch_size,
        embed_dim: cli.embed_dim,
        num_heads: cli.num_heads,
        num_layers: cli.num_layers,
        dropout: cli.dropout,
        learning_rate: cli.learning_rate,
        learning_rate_schedule,
        lr_warmup_steps: cli.lr_warmup_steps,
        sampling_policy,
        train_steps: cli.train_steps,
        eval_interval: cli.eval_interval,
        generate_tokens: cli.generate_tokens,
        minigpt_grad_clip_norm: cli.grad_clip_norm,
        moe_experts: cli.moe_experts,
        moe_top_k: cli.moe_top_k,
        moe_aux_loss_weight: cli.moe_aux_loss_weight,
        prefetch_batches: cli.prefetch_batches,
        checkpoint_interval: cli.checkpoint_interval,
        checkpoint_keep: cli.checkpoint_keep,
    };
    assert(overrides == asked_overrides(*cli));
    let server = match server_settings(cli, env, facts) {
        Ok(server) => server,
        Err(e) => {
            return Err(e);
        },
    };
    let benchmark_config = match benchmark_settings(cli, env) {
        Ok(config) => config,
        Err(e) => {
            return Err(e);
        },
    };
    let hyperparameters = match Hyperparameters::from_env_and_overrides(env, &overrides) {
        Ok(h) => h,
        Err(e) => {
            return Err(e);
        },
    };
    let source = match source_settings(cli, env, facts) {
        Ok(source) => source,
        Err(e) => {
            return Err(e);
        },
    };
    Ok(
        RuntimeConfig {
            backend: server.backend,
            model: source.model,
            input_path: source.input_path,
            input_source: source.input_source,
            checkpoint_path: source.checkpoint_path,
            resume_from: source.resume_from,
            hyperparameters,
            interactive: cli.interactive_generate,
            benchmark_generation: cli.benchmark_generation,
            load_checkpoint: cli.load_checkpoint,
            load_latest_checkpoint: cli.load_latest_checkpoint,
            serve: cli.serve,
            server_addr: server_addr_text(cli, env).to_owned(),
            max_prompt_bytes: server.max_prompt_bytes,
            max_output_tokens: server.max_output_tokens,
            rate_limit_rps: server.rate_limit_rps,
            rate_limit_burst: server.rate_limit_burst,
            log_format: server.log_format,
            benchmark_config,
        },
    )
}

/// What the command line says has the last word on every setting: no environment changes it.
pub proof fn law_the_command_line_wins(cli: CliArgs, env: RuntimeEnv)
    ensures
        cli.server_addr matches Some(s) ==> asked_server_addr(cli, env) == s@,
        cli.input matches Some(s) ==> asked_input(cli, env) == s@,
        cli.backend matches Some(s) ==> asked_backend(cli, env) == s@,
        cli.model matches Some(s) ==> asked_model(cli, env) == s@,
        cli.checkpoint matches Some(s) ==> given(cli.checkpoint, env.checkpoint) == Some(s@),
        cli.resume_from matches Some(s) ==> given(cli.resume_from, env.resume_from) == Some(s@),
        cli.log_format matches Some(s) ==> given(cli.log_format, env.log_format) == Some(s@),
        cli.benchmark_prompt_lens matches Some(s) ==> given(cli.benchmark_prompt_lens, env.benchmark_prompt_lens) == Some(s@),
        cli.benchmark_gen_lens matches Some(s) ==> given(cli.benchmark_gen_lens, env.benchmark_gen_lens) == Some(s@),
        cli.benchmark_warmups matches Some(s) ==> given(cli.benchmark_warmups, env.benchmark_warmups) == Some(s@),
        cli.benchmark_iterations matches Some(s) ==> given(cli.benchmark_iterations, env.benchmark_iterations) == Some(s@),
        cli.max_prompt_bytes matches Some(n) ==> limit_or(
            cli.max_prompt_bytes,
            env.max_prompt_bytes,
            DEFAULT_MAX_PROMPT_BYTES,
        ) == n,
        cli.max_output_tokens matches Some(n) ==> limit_or(
            cli.max_output_tokens,
            env.max_output_tokens,
            DEFAULT_MAX_OUTPUT_TOKENS,
        ) == n,
        cli.rate_limit_rps matches Some(n) ==> limit_or(
            cli.rate_limit_rps,
            env.rate_limit_rps,
            DEFAULT_RATE_LIMIT_RPS,
        ) == n,
        cli.rate_limit_burst matches Some(n) ==> limit_or(
            cli.rate_limit_burst,
            env.rate_limit_burst,
            DEFAULT_RATE_LIMIT_BURST,
        ) == n,
        cli.block_size matches Some(n) ==> asked_hyperparameters(cli, env).block_size == n,
        cli.batch_size matches Some(n) ==> asked_hyperparameters(cli, env).batch_size == n,
        cli.embed_dim matches Some(n) ==> asked_hyperparameters(cli, env).embed_dim == n,
        cli.num_heads matches Some(n) ==> asked_hyperparameters(cli, env).num_heads == n,
        cli.num_layers matches Some(n) ==> asked_hyperparameters(cli, env).num_layers == n,
        cli.dropout matches Some(n) ==> asked_hyperparameters(cli, env).dropout == n,
        cli.learning_rate matches Some(n) ==> asked_hyperparameters(cli, env).learning_rate == n,
        cli.lr_warmup_steps matches Some(n) ==> asked_hyperparameters(cli, env).lr_warmup_steps == n,
        cli.train_steps matches Some(n) ==> asked_hyperparameters(cli, env).train_steps == n,
        cli.eval_interval matches Some(n) ==> asked_hyperparameters(cli, env).eval_interval == n,
        cli.generate_tokens matches Some(n) ==> asked_hyperparameters(cli, env).generate_tokens == n,
        cli.grad_clip_norm matches Some(n) ==> asked_hyperparameters(cli, env).minigpt_grad_clip_norm == n,
        cli.moe_experts matches Some(n) ==> asked_hyperparameters(cli, env).moe_experts == n,
        cli.moe_top_k matches Some(n) ==> asked_hyperparameters(cli, env).moe_top_k == n,
        cli.moe_aux_loss_weight matches Some(n) ==> asked_hyperparameters(cli, env).moe_aux_loss_weight == n,
        cli.prefetch_batches matches Some(n) ==> asked_hyperparameters(cli, env).prefetch_batches == n,
        cli.checkpoint_interval matches Some(n) ==> asked_hyperparameters(cli, env).checkpoint_interval == n,
        cli.checkpoint_keep matches Some(n) ==> asked_hyperparameters(cli, env).checkpoint_keep == n,
        named_schedule(cli.lr_schedule) matches Some(n) ==> asked_hyperparameters(
            cli,
            env,
        ).learning_rate_schedule == n,
        named_policy(cli.sampling_policy) matches Some(n) ==> asked_hyperparameters(
            cli,
            env,
        ).sampling_policy == n,
{
}

/// Where the command line is silent, the environment has the word; where both are, the usual
/// setting holds.
pub proof fn law_the_environment_comes_next(cli: CliArgs, env: RuntimeEnv)
    ensures
        cli.server_addr is None ==> asked_server_addr(cli, env) == (match env.server_addr {
            Some(s) => s@,
            None => DEFAULT_SERVER_ADDR@,
        }),
        cli.input is None ==> asked_input(cli, env) == (match env.input {
            Some(s) => s@,
            None => DEFAULT_INPUT_PATH@,
        }),
        cli.backend is None ==> asked_backend(cli, env) == (match env.backend {
            Some(s) => s@,
            None => "cpu"@,
        }),
        cli.model is None ==> asked_model(cli, env) == (match env.model {
            Some(s) => s@,
            None => "minigpt"@,
        }),
        cli.checkpoint is None ==> given(cli.checkpoint, env.checkpoint) == (match env.checkpoint {
            Some(s) => Some(s@),
            None => None,
        }),
        cli.resume_from is None ==> given(cli.resume_from, env.resume_from) == (match env.resume_from {
            Some(s) => Some(s@),
            None => None,
        }),
        cli.log_format is None ==> given(cli.log_format, env.log_format) == (match env.log_format {
            Some(s) => Some(s@),
            None => None,
        }),
        cli.benchmark_prompt_lens is None ==> given(cli.benchmark_prompt_lens, env.benchmark_prompt_lens) == (match env.benchmark_prompt_lens {
            Some(s) => Some(s@),
            None => None,
        }),
        cli.benchmark_gen_lens is None ==> given(cli.benchmark_gen_lens, env.benchmark_gen_lens) == (match env.benchmark_gen_lens {
            Some(s) => Some(s@),
            None => None,
        }),
        cli.benchmark_warmups is None ==> given(cli.benchmark_warmups, env.benchmark_warmups) == (match env.benchmark_warmups {
            Some(s) => Some(s@),
            None => None,
        }),
        cli.benchmark_iterations is None ==> given(cli.benchmark_iterations, env.benchmark_iterations) == (match env.benchmark_iterations {
            Some(s) => Some(s@),
            None => None,
        }),
        cli.max_prompt_bytes is None ==> limit_or(
            cli.max_prompt_bytes,
            env.max_prompt_bytes,
            DEFAULT_MAX_PROMPT_BYTES,
        ) == usize_env_or(env.max_prompt_bytes, DEFAULT_MAX_PROMPT_BYTES),
        cli.max_output_tokens is None ==> limit_or(
            cli.max_output_tokens,
            env.max_output_tokens,
            DEFAULT_MAX_OUTPUT_TOKENS,
        ) == usize_env_or(env.max_output_tokens, DEFAULT_MAX_OUTPUT_TOKENS),
        cli.rate_limit_rps is None ==> limit_or(
            cli.rate_limit_rps,
            env.rate_limit_rps,
            DEFAULT_RATE_LIMIT_RPS,
        ) == usize_env_or(env.rate_limit_rps, DEFAULT_RATE_LIMIT_RPS),
        cli.rate_limit_burst is None ==> limit_or(
            cli.rate_limit_burst,
            env.rate_limit_burst,
            DEFAULT_RATE_LIMIT_BURST,
        ) == usize_env_or(env.rate_limit_burst, DEFAULT_RATE_LIMIT_BURST),
        cli.block_size is None ==> asked_hyperparameters(cli, env).block_size == usize_env_or(
            env.block_size,
            BLOCK_SIZE,
        ),
        cli.batch_size is None ==> asked_hyperparameters(cli, env).batch_size == usize_env_or(
            env.batch_size,
            BATCH_SIZE,
        ),
        cli.embed_dim is None ==> asked_hyperparameters(cli, env).embed_dim == usize_env_or(
            env.embed_dim,
            EMBED_DIM,
        ),
        cli.num_heads is None ==> asked_hyperparameters(cli, env).num_heads == usize_env_or(
            env.num_heads,
            NUM_HEADS,
        ),
        cli.num_layers is None ==> asked_hyperparameters(cli, env).num_layers == usize_env_or(
            env.num_layers,
            NUM_LAYERS,
        ),
        cli.dropout is None ==> asked_hyperparameters(cli, env).dropout == real_env_or(
            env.dropout,
            Real { bits: DROPOUT_BITS },
        ),
        cli.learning_rate is None ==> asked_hyperparameters(cli, env).learning_rate == real_env_or(
            env.learning_rate,
            Real { bits: LEARNING_RATE_BITS },
        ),
        cli.lr_warmup_steps is None ==> asked_hyperparameters(cli, env).lr_warmup_steps == usize_env_or(
            env.lr_warmup_steps,
            LR_WARMUP_STEPS,
        ),
        cli.train_steps is None ==> asked_hyperparameters(cli, env).train_steps == usize_env_or(
            env.train_steps,
            TRAIN_STEPS,
        ),
        cli.eval_interval is None ==> asked_hyperparameters(cli, env).eval_interval == usize_env_or(
            env.eval_interval,
            EVAL_INTERVAL,
        ),
        cli.generate_tokens is None ==> asked_hyperparameters(cli, env).generate_tokens == usize_env_or(
            env.generate_tokens,
            GENERATE_TOKENS,
        ),
        cli.grad_clip_norm is None ==> asked_hyperparameters(cli, env).minigpt_grad_clip_norm == short_env_or(
            env.minigpt_grad_clip_norm,
            ShortReal { bits: MINIGPT_GRAD_CLIP_NORM_BITS },
        ),
        cli.moe_experts is None ==> asked_hyperparameters(cli, env).moe_experts == usize_env_or(
            env.moe_experts,
            MOE_EXPERTS,
        ),
        cli.moe_top_k is None ==> asked_hyperparameters(cli, env).moe_top_k == usize_env_or(
            env.moe_top_k,
            MOE_TOP_K,
        ),
        cli.moe_aux_loss_weight is None ==> asked_hyperparameters(cli, env).moe_aux_loss_weight == real_env_or(
            env.moe_aux_loss_weight,
            Real { bits: MOE_AUX_LOSS_WEIGHT_BITS },
        ),
        cli.prefetch_batches is None ==> asked_hyperparameters(cli, env).prefetch_batches == usize_env_or(
            env.prefetch_batches,
            PREFETCH_BATCHES,
        ),
        cli.checkpoint_interval is None ==> asked_hyperparameters(cli, env).checkpoint_interval == usize_env_or(
            env.checkpoint_interval,
            CHECKPOINT_INTERVAL,
        ),
        cli.checkpoint_keep is None ==> asked_hyperparameters(cli, env).checkpoint_keep == usize_env_or(
            env.checkpoint_keep,
            CHECKPOINT_KEEP,
        ),
        cli.lr_schedule is None ==> asked_hyperparameters(cli, env).learning_rate_schedule
            == first_of(named_schedule(env.learning_rate_schedule), LearningRateSchedule::Constant),
        cli.sampling_policy is None ==> asked_hyperparameters(cli, env).sampling_policy
            == first_of(named_policy(env.sampling_policy), SamplingPolicy::RandomWindow),
{
}

/// Settings that are accepted keep the rules of the server, of the hyperparameters and of the
/// checkpoint flags.
pub proof fn law_accepted_settings_keep_the_rules(
    config: RuntimeConfig,
    cli: CliArgs,
    env: RuntimeEnv,
    facts: ConfigFacts,
)
    requires
        config_error(cli, env, facts) is None,
        config_is(config, cli, env, facts),
    ensures
        config.max_prompt_bytes > 0,
        config.max_output_tokens > 0,
        config.rate_limit_rps != 0 ==> config.rate_limit_burst > 0,
        !(config.load_checkpoint && config.load_latest_checkpoint),
        config.resume_from is Some ==> checkpoint_backed(config.model),
        config.hyperparameters.embed_dim % config.hyperparameters.num_heads == 0,
        config.hyperparameters.head_dim == config.hyperparameters.embed_dim
            / config.hyperparameters.num_heads,
        config.hyperparameters.lr_warmup_steps <= config.hyperparameters.train_steps,
        0 < config.hyperparameters.moe_top_k <= config.hyperparameters.moe_experts,
{
}

/// Hyperparameters are accepted exactly where they keep every rule.
pub proof fn law_hyperparameters_that_keep_the_rules_are_accepted(h: Hyperparameters)
    ensures
        violation(h) is None <==> {
            &&& 0 < h.block_size
            &&& 0 < h.batch_size
            &&& 0 < h.embed_dim
            &&& 0 < h.num_heads
            &&& 0 < h.num_layers
            &&& exists|w: int| h.embed_dim == #[trigger] (w * h.num_heads)
            &&& Real { bits: 0 }.at_most(h.dropout)
            &&& h.dropout.less(Real { bits: ONE })
            &&& !h.learning_rate.at_most(Real { bits: 0 })
            &&& 0 < h.train_steps
            &&& h.lr_warmup_steps <= h.train_steps
            &&& 0 < h.generate_tokens
            &&& !h.minigpt_grad_clip_norm.at_most(ShortReal { bits: 0 })
            &&& 0 < h.moe_top_k <= h.moe_experts
            &&& !h.moe_aux_loss_weight.less(Real { bits: 0 })
            &&& h.checkpoint_interval == 0 || 0 < h.checkpoint_keep
        },
{
    if 0 < h.num_heads {
        let w = h.embed_dim as int / h.num_heads as int;
        assert(h.embed_dim == w * h.num_heads + h.embed_dim % h.num_heads) by (nonlinear_arith)
            requires
                w == h.embed_dim as int / h.num_heads as int,
                h.num_heads > 0,
        ;
        if h.embed_dim % h.num_heads == 0 {
            assert(h.embed_dim == w * h.num_heads);
        }
        if exists|v: int| h.embed_dim == #[trigger] (v * h.num_heads) {
            let v = choose|v: int| h.embed_dim == #[trigger] (v * h.num_heads);
            assert(h.embed_dim % h.num_heads == 0) by (nonlinear_arith)
                requires
                    h.embed_dim == v * h.num_heads,
                    h.num_heads > 0,
            ;
        }
    }
}

/// Server limits are accepted exactly where prompts and outputs may hold something, and where a
/// limited rate lets some request through.
pub proof fn law_server_limits_that_let_something_through_are_accepted(
    max_prompt_bytes: usize,
    max_output_tokens: usize,
    rate_limit_rps: usize,
    rate_limit_burst: usize,
)
    ensures
        server_limits_error(max_prompt_bytes, max_output_tokens, rate_limit_rps, rate_limit_burst)
            is None <==> 0 < max_prompt_bytes && 0 < max_output_tokens && (rate_limit_rps == 0 || 0
            < rate_limit_burst),
{
}

/// A number of the environment is read as it is written, and what is no number is refused.
pub proof fn law_environment_numbers_are_read(
    name: Seq<char>,
    value: Option<String>,
    n: usize,
    default: usize,
)
    ensures
        usize_env_error(name, None) is None,
        usize_env_or(None, default) == default,
        value matches Some(s) ==> s@ == text::decimal(n as nat) ==> usize_env_error(name, value)
            is None && usize_env_or(value, default) == n,
        value matches Some(s) ==> (usize_env_error(name, value) is None <==> text::usize_value(s@)
            is Some),
        limit_error(Some(n), value, name) is None,
        limit_or(Some(n), value, default) == n,
        limit_error(None, value, name) == usize_env_error(name, value),
        limit_or(None, value, default) == usize_env_or(value, default),
{
    text::lemma_decimal_reads_back(n as nat, usize::MAX as nat);
}

/// The server settings are accepted exactly where no two of them contradict each other, each number
/// can be read, the address is one, the limits let something through, and the backend and the log
/// format are known.
pub proof fn law_server_settings_are_accepted(cli: CliArgs, env: RuntimeEnv, facts: ConfigFacts)
    ensures
        server_error(cli, env, facts) is None <==> {
            &&& !(cli.load_checkpoint && cli.load_latest_checkpoint)
            &&& facts.server_addr_error is None
            &&& limit_error(
                cli.max_prompt_bytes,
                env.max_prompt_bytes,
                "RUSTY_GPT_MAX_PROMPT_BYTES"@,
            ) is None
            &&& limit_error(
                cli.max_output_tokens,
                env.max_output_tokens,
                "RUSTY_GPT_MAX_OUTPUT_TOKENS"@,
            ) is None
            &&& limit_error(cli.rate_limit_rps, env.rate_limit_rps, "RUSTY_GPT_RATE_LIMIT_RPS"@)
                is None
            &&& limit_error(
                cli.rate_limit_burst,
                env.rate_limit_burst,
                "RUSTY_GPT_RATE_LIMIT_BURST"@,
            ) is None
            &&& 0 < limit_or(cli.max_prompt_bytes, env.max_prompt_bytes, 8192)
            &&& 0 < limit_or(cli.max_output_tokens, env.max_output_tokens, 512)
            &&& limit_or(cli.rate_limit_rps, env.rate_limit_rps, 5) == 0 || 0 < limit_or(
                cli.rate_limit_burst,
                env.rate_limit_burst,
                10,
            )
            &&& asked_backend(cli, env) == "cpu"@
            &&& given(cli.log_format, env.log_format) matches Some(f) ==> f == "plain"@ || f
                == "json"@
        },
{
    reveal_strlit("cpu");
    reveal_strlit("cuda");
}

/// The settings are accepted exactly where every part of them is.
pub proof fn law_settings_are_accepted_part_by_part(
    cli: CliArgs,
    env: RuntimeEnv,
    facts: ConfigFacts,
)
    ensures
        config_error(cli, env, facts) is None <==> {
            &&& schedule_error(cli.lr_schedule) is None
            &&& policy_error(cli.sampling_policy) is None
            &&& server_error(cli, env, facts) is None
            &&& benchmark_error(cli, env) is None
            &&& env_error(env) is None
            &&& violation(asked_hyperparameters(cli, env)) is None
            &&& input_source::parsed(asked_input(cli, env)) is Ok
            &&& checkpoint_outcome(cli, env, facts) is Ok
            &&& model_of(asked_model(cli, env)) is Some
            &&& given(cli.resume_from, env.resume_from) matches Some(p) ==> (model_of(
                asked_model(cli, env),
            ) == Some(ModelChoice::MiniGpt) || model_of(asked_model(cli, env)) == Some(
                ModelChoice::MoeGpt,
            )) && resolved_checkpoint(p, DEFAULT_CHECKPOINT_DIR@, facts.resume_from) is Ok
        },
{
}

/// A checkpoint path is accepted exactly where its directory and the checkpoint directory could be
/// resolved, it names a file, and that file lies inside the checkpoint directory.
pub proof fn law_checkpoints_inside_are_accepted(
    input: Seq<char>,
    root: Seq<char>,
    dirs: ResolvedDirs,
)
    ensures
        resolved_checkpoint(input, root, dirs) is Ok <==> {
            &&& dirs.root matches Reading::Value(real_root)
            &&& dirs.parent matches Reading::Value(real_parent)
            &&& path::file_name(checkpoint_candidate(input, root)) matches Some(name)
            &&& path::starts_with(path::join(real_parent@, name), real_root@)
        },
        path::is_absolute(input) ==> checkpoint_candidate(input, root) == input,
        path::starts_with(input, root) ==> checkpoint_candidate(input, root) == input,
        !path::is_absolute(input) && !path::starts_with(input, root) ==> checkpoint_candidate(
            input,
            root,
        ) == path::join(root, input),
{
}

/// Each model is known by its own name, and no name stands for two models. Those that are compared
/// are all of the others, each once.
pub proof fn law_models_are_known_by_their_names(a: ModelChoice, b: ModelChoice)
    ensures
        model_of(model_label(a)) == Some(a),
        model_label(a) == model_label(b) ==> a == b,
        compared_models(ModelChoice::Compare).no_duplicates(),
        compared_models(ModelChoice::Compare).contains(a) <==> a != ModelChoice::Compare,
        a != ModelChoice::Compare ==> compared_models(a) == seq![a],
        checkpoint_backed(a) <==> a == ModelChoice::MiniGpt || a == ModelChoice::MoeGpt,
        generates(a) <==> exists|i: int|
            0 <= i < compared_models(a).len() && checkpoint_backed(#[trigger] compared_models(a)[i]),
{
    reveal_strlit("trivial");
    reveal_strlit("single-attention");
    reveal_strlit("multi-attention");
    reveal_strlit("minigpt");
    reveal_strlit("mini-gpt");
    reveal_strlit("moe-gpt");
    reveal_strlit("moegpt");
    reveal_strlit("compare");
    assert("trivial"@ != "minigpt"@) by {
        assert("trivial"@[0] != "minigpt"@[0]);
    }
    assert("trivial"@ != "moe-gpt"@) by {
        assert("trivial"@[0] != "moe-gpt"@[0]);
    }
    assert("trivial"@ != "compare"@) by {
        assert("trivial"@[0] != "compare"@[0]);
    }
    assert("minigpt"@ != "moe-gpt"@) by {
        assert("minigpt"@[1] != "moe-gpt"@[1]);
    }
    assert("minigpt"@ != "compare"@) by {
        assert("minigpt"@[0] != "compare"@[0]);
    }
    assert("moe-gpt"@ != "compare"@) by {
        assert("moe-gpt"@[0] != "compare"@[0]);
    }
    assert("single-attention"@.len() == 16);
    assert("multi-attention"@.len() == 15);
    assert("mini-gpt"@.len() == 8);
    assert("moegpt"@.len() == 6);
    assert("trivial"@.len() == 7);
    assert("minigpt"@.len() == 7);
    assert("moe-gpt"@.len() == 7);
    assert("compare"@.len() == 7);
    assert(model_of(model_label(b)) == Some(b));
    let all = compared_models(ModelChoice::Compare);
    assert(all[0] == ModelChoice::Trivial);
    assert(all[1] == ModelChoice::SingleAttention);
    assert(all[2] == ModelChoice::MultiAttention);
    assert(all[3] == ModelChoice::MiniGpt);
    assert(all[4] == ModelChoice::MoeGpt);
    if a is MiniGpt || a is MoeGpt {
        assert(compared_models(a)[0] == a);
    }
}

/// The environment's hyperparameters are accepted exactly where each of them can be read.
pub proof fn law_readable_environments_are_accepted(env: RuntimeEnv)
    ensures
        env_error(env) is None <==> {
            let readable = |value: Option<String>|
                value matches Some(s) ==> text::usize_value(s@) is Some;
            &&& readable(env.block_size)
            &&& readable(env.batch_size)
            &&& readable(env.embed_dim)
            &&& readable(env.num_heads)
            &&& readable(env.num_layers)
            &&& readable(env.lr_warmup_steps)
            &&& readable(env.train_steps)
            &&& readable(env.eval_interval)
            &&& readable(env.generate_tokens)
            &&& readable(env.moe_experts)
            &&& readable(env.moe_top_k)
            &&& readable(env.prefetch_batches)
            &&& readable(env.checkpoint_interval)
            &&& readable(env.checkpoint_keep)
            &&& env.dropout matches Some(r) ==> r.value is Value
            &&& env.learning_rate matches Some(r) ==> r.value is Value
            &&& env.moe_aux_loss_weight matches Some(r) ==> r.value is Value
            &&& env.minigpt_grad_clip_norm matches Some(r) ==> r.value is Value
            &&& schedule_error(env.learning_rate_schedule) is None
            &&& policy_error(env.sampling_policy) is None
        },
{
}

/// The usual settings keep every rule, and they are what an empty environment comes to.
pub proof fn law_the_usual_settings_are_accepted(env: RuntimeEnv)
    requires
        env.block_size is None && env.batch_size is None && env.embed_dim is None,
        env.num_heads is None && env.num_layers is None && env.dropout is None,
        env.learning_rate is None && env.learning_rate_schedule is None,
        env.lr_warmup_steps is None && env.sampling_policy is None && env.train_steps is None,
        env.eval_interval is None && env.generate_tokens is None,
        env.minigpt_grad_clip_norm is None && env.moe_experts is None && env.moe_top_k is None,
        env.moe_aux_loss_weight is None && env.prefetch_batches is None,
        env.checkpoint_interval is None && env.checkpoint_keep is None,
    ensures
        env_error(env) is None,
        env_hyperparameters(env) == default_hyperparameters(),
        well_formed(default_hyperparameters()),
        with_head_dim(default_hyperparameters()) == default_hyperparameters(),
{
}

/// Schedules and sampling policies are known by these names and by no others, each by its own.
pub proof fn law_schedules_and_policies_are_known_by_their_names(name: Seq<char>)
    ensures
        lr_schedule_of(name) == Some(LearningRateSchedule::Constant) <==> name == "constant"@,
        lr_schedule_of(name) == Some(LearningRateSchedule::WarmupCosine) <==> name
            == "warmup-cosine"@,
        lr_schedule_of(name) == Some(LearningRateSchedule::WarmupLinear) <==> name
            == "warmup-linear"@,
        sampling_policy_of(name) == Some(SamplingPolicy::RandomWindow) <==> name
            == "random-window"@,
        sampling_policy_of(name) == Some(SamplingPolicy::Sequential) <==> name == "sequential"@,
        sampling_policy_of(name) == Some(SamplingPolicy::ShuffledChunks) <==> name
            == "shuffled-chunks"@,
{
    reveal_strlit("constant");
    reveal_strlit("warmup-cosine");
    reveal_strlit("warmup-linear");
    reveal_strlit("random-window");
    reveal_strlit("sequential");
    reveal_strlit("shuffled-chunks");
    assert("constant"@.len() == 8);
    assert("warmup-cosine"@.len() == 13 && "warmup-cosine"@[7] == 'c');
    assert("warmup-linear"@.len() == 13 && "warmup-linear"@[7] == 'l');
    assert("random-window"@.len() == 13);
    assert("sequential"@.len() == 10);
    assert("shuffled-chunks"@.len() == 15);
}

/// Two models go by two names each, and no other name stands for a model. Models that are compared
/// run from the simplest to the largest.
pub proof fn law_no_other_names_stand_for_models(name: Seq<char>)
    ensures
        model_of(name) == Some(ModelChoice::MiniGpt) <==> name == "minigpt"@ || name
            == "mini-gpt"@,
        model_of(name) == Some(ModelChoice::MoeGpt) <==> name == "moe-gpt"@ || name == "moegpt"@,
        model_of(name) is Some <==> name == "trivial"@ || name == "single-attention"@ || name
            == "multi-attention"@ || name == "minigpt"@ || name == "mini-gpt"@ || name
            == "moe-gpt"@ || name == "moegpt"@ || name == "compare"@,
        compared_models(ModelChoice::Compare).len() == 5,
        compared_models(ModelChoice::Compare).first() == ModelChoice::Trivial,
        compared_models(ModelChoice::Compare).last() == ModelChoice::MoeGpt,
        compared_models(ModelChoice::Compare).index_of(ModelChoice::SingleAttention)
            < compared_models(ModelChoice::Compare).index_of(ModelChoice::MultiAttention)
            < compared_models(ModelChoice::Compare).index_of(ModelChoice::MiniGpt),
{
    law_models_are_known_by_their_names(ModelChoice::Trivial, ModelChoice::Compare);
    law_models_are_known_by_their_names(ModelChoice::SingleAttention, ModelChoice::Compare);
    law_models_are_known_by_their_names(ModelChoice::MultiAttention, ModelChoice::Compare);
    law_models_are_known_by_their_names(ModelChoice::MiniGpt, ModelChoice::Compare);
    law_models_are_known_by_their_names(ModelChoice::MoeGpt, ModelChoice::Compare);
    reveal_strlit("trivial");
    reveal_strlit("single-attention");
    reveal_strlit("multi-attention");
    reveal_strlit("minigpt");
    reveal_strlit("mini-gpt");
    reveal_strlit("moe-gpt");
    reveal_strlit("moegpt");
    reveal_strlit("compare");
    assert("mini-gpt"@.len() == 8);
    assert("moegpt"@.len() == 6);
    assert("single-attention"@.len() == 16);
    assert("multi-attention"@.len() == 15);
    assert("trivial"@.len() == 7);
    assert("minigpt"@.len() == 7);
    assert("moe-gpt"@.len() == 7);
    assert("compare"@.len() == 7);
    let all = compared_models(ModelChoice::Compare);
    assert(all[1] == ModelChoice::SingleAttention);
    assert(all[2] == ModelChoice::MultiAttention);
    assert(all[3] == ModelChoice::MiniGpt);
    let i = all.index_of(ModelChoice::SingleAttention);
    let j = all.index_of(ModelChoice::MultiAttention);
    let k = all.index_of(ModelChoice::MiniGpt);
    assert(all.contains(all[1]) && all.contains(all[2]) && all.contains(all[3]));
    assert(i == 1 && j == 2 && k == 3);
}

/// The lengths and counts of a benchmark are read as they are written, and the usual ones stand
/// where nothing is said.
pub proof fn law_benchmark_settings_are_read(
    numbers: Seq<usize>,
    n: usize,
    usual: Seq<usize>,
    other: usize,
    what: Seq<char>,
    label: Seq<char>,
)
    requires
        numbers.len() > 0,
        forall|i: int| 0 <= i < numbers.len() ==> #[trigger] numbers[i] > 0,
    ensures
        ({
            let list = text::join(utils::written(numbers), ',');
            &&& lens_or(Some(list), usual) == numbers
            &&& lens_error(Some(list), what, label) is None
        }),
        lens_or(None, usual) == usual,
        lens_error(None, what, label) is None,
        count_or(Some(text::decimal(n as nat)), other) == n,
        count_error(Some(text::decimal(n as nat)), what) is None,
        count_or(None, other) == other,
        count_error(None, what) is None,
{
    utils::law_lists_read_back(numbers);
    text::lemma_decimal_reads_back(n as nat, usize::MAX as nat);
    assert(text::usize_value(text::decimal(n as nat)) == Some(n));
}

/// The benchmark that is asked for: each setting from the command line, else from the environment,
/// else the usual one.
pub proof fn law_benchmarks_are_as_asked_for(cli: CliArgs, env: RuntimeEnv)
    ensures
        ({
            let asked = asked_benchmark(cli, env);
            let text_of = |arg: Option<String>, other: Option<String>|
                match arg {
                    Some(s) => Some(s@),
                    None => match other {
                        Some(s) => Some(s@),
                        None => None,
                    },
                };
            &&& asked.0 == lens_or(
                text_of(cli.benchmark_prompt_lens, env.benchmark_prompt_lens),
                seq![10, 50, 100],
            )
            &&& asked.1 == lens_or(
                text_of(cli.benchmark_gen_lens, env.benchmark_gen_lens),
                seq![50, 100, 200],
            )
            &&& asked.2 == count_or(text_of(cli.benchmark_warmups, env.benchmark_warmups), 1)
            &&& asked.3 == count_or(text_of(cli.benchmark_iterations, env.benchmark_iterations), 5)
        }),
        benchmark_error(cli, env) is None ==> {
            let asked = asked_benchmark(cli, env);
            asked.0.len() > 0 && asked.1.len() > 0 && asked.3 > 0
        },
{
}

/// Accepted settings say what was asked for, one by one.
pub proof fn law_settings_say_what_was_asked_for(
    config: RuntimeConfig,
    cli: CliArgs,
    env: RuntimeEnv,
    facts: ConfigFacts,
)
    requires
        config_is(config, cli, env, facts),
    ensures
        config.interactive == cli.interactive_generate,
        config.benchmark_generation == cli.benchmark_generation,
        config.load_checkpoint == cli.load_checkpoint,
        config.load_latest_checkpoint == cli.load_latest_checkpoint,
        config.serve == cli.serve,
        cli.input matches Some(s) ==> config.input_path@ == s@,
        cli.server_addr matches Some(s) ==> config.server_addr@ == s@,
        cli.model matches Some(s) ==> model_of(s@) == Some(config.model),
        cli.log_format matches Some(s) ==> observability::log_format_of(s@) == Some(
            config.log_format,
        ),
        cli.log_format is None && env.log_format is None ==> config.log_format == LogFormat::Plain,
        cli.max_prompt_bytes matches Some(n) ==> config.max_prompt_bytes == n,
        cli.max_output_tokens matches Some(n) ==> config.max_output_tokens == n,
        cli.rate_limit_rps matches Some(n) ==> config.rate_limit_rps == n,
        cli.rate_limit_burst matches Some(n) ==> config.rate_limit_burst == n,
        cli.max_prompt_bytes is None && env.max_prompt_bytes is None ==> config.max_prompt_bytes
            == 8192,
        cli.max_output_tokens is None && env.max_output_tokens is None ==> config.max_output_tokens
            == 512,
        cli.rate_limit_rps is None && env.rate_limit_rps is None ==> config.rate_limit_rps == 5,
        cli.rate_limit_burst is None && env.rate_limit_burst is None ==> config.rate_limit_burst
            == 10,
        cli.checkpoint is None && env.checkpoint is None ==> config.checkpoint_path@
            == "checkpoints/mini_gpt"@,
        config.resume_from is Some <==> cli.resume_from is Some || env.resume_from is Some,
        cli.train_steps matches Some(n) ==> config.hyperparameters.train_steps == n,
        cli.block_size matches Some(n) ==> config.hyperparameters.block_size == n,
        cli.batch_size matches Some(n) ==> config.hyperparameters.batch_size == n,
        cli.checkpoint_interval matches Some(n) ==> config.hyperparameters.checkpoint_interval == n,
        cli.checkpoint_keep matches Some(n) ==> config.hyperparameters.checkpoint_keep == n,
        config.benchmark_config.prompt_lens@ == asked_benchmark(cli, env).0,
        config.benchmark_config.gen_lens@ == asked_benchmark(cli, env).1,
        config.benchmark_config.warmups == asked_benchmark(cli, env).2,
        config.benchmark_config.iterations == asked_benchmark(cli, env).3,
{
}

} // verus!

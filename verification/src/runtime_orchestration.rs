//! What a run does with its settings: train, serve, or talk.
use vstd::prelude::*;

use crate::failure::Failure;
use crate::loader::input_source;
use crate::model::definitions::{MiniGptConfig, MoeGptConfig};
use crate::observability::RuntimeEvent;
use crate::reals::{Real, ONE};
use crate::runtime_config;
use crate::runtime_config::{Hyperparameters, ModelChoice, RuntimeConfig};
use crate::server::{CheckpointSource, ServerLimits};
use crate::text;
use crate::tokenizer::RuntimeTokenizer;

verus! {

/// What follows the forward pass of every run.
#[derive(Debug, Clone, Copy, PartialEq, Eq, Structural)]
pub enum CpuMode {
    Interactive,
    Training,
}

/// Why the settings of a run do not go together, if they do not.
pub open spec fn mode_problem(
    interactive: bool,
    benchmark_generation: bool,
    model: ModelChoice,
) -> Option<Seq<char>> {
    if interactive && benchmark_generation {
        Some("generation benchmarks cannot run with --interactive-generate"@)
    } else if interactive && model !is MiniGpt {
        Some("interactive generation requires --model minigpt"@)
    } else {
        None
    }
}

/// What a run does: it talks where it is asked to, and else it trains.
pub fn cpu_mode(interactive: bool, benchmark_generation: bool, model: ModelChoice) -> (r: Result<
    CpuMode,
    Failure,
>)
    ensures
        match r {
            Ok(mode) => mode_problem(interactive, benchmark_generation, model) is None && mode == (
            if interactive {
                CpuMode::Interactive
            } else {
                CpuMode::Training
            }),
            Err(e) => mode_problem(interactive, benchmark_generation, model) == Some(e.message@) && e.cause is None,
        },
{
    if interactive {
        if benchmark_generation {
            return Err(
                Failure::new("generation benchmarks cannot run with --interactive-generate"),
            );
        }
        if model != ModelChoice::MiniGpt {
            return Err(Failure::new("interactive generation requires --model minigpt"));
        }
        Ok(CpuMode::Interactive)
    } else {
        Ok(CpuMode::Training)
    }
}

/// Which checkpoint a server loads: the newest where that is asked for, else the named one where
/// that is asked for.
pub fn server_checkpoint(load_latest: bool, load_named: bool) -> (source: CheckpointSource)
    ensures
        source == (if load_latest {
            CheckpointSource::Latest
        } else if load_named {
            CheckpointSource::Explicit
        } else {
            CheckpointSource::Fresh
        }),
{
    if load_latest {
        CheckpointSource::Latest
    } else if load_named {
        CheckpointSource::Explicit
    } else {
        CheckpointSource::Fresh
    }
}

/// The limits of a server: those of the settings, and the usual ones for training.
pub fn server_limits(config: &RuntimeConfig) -> (limits: ServerLimits)
    ensures
        limits == (ServerLimits {
            max_prompt_bytes: config.max_prompt_bytes,
            max_output_tokens: config.max_output_tokens,
            rate_limit_rps: config.rate_limit_rps,
            rate_limit_burst: config.rate_limit_burst,
            max_train_steps: 100_000,
            max_train_learning_rate: Real { bits: ONE },
        }),
{
    ServerLimits {
        max_prompt_bytes: config.max_prompt_bytes,
        max_output_tokens: config.max_output_tokens,
        rate_limit_rps: config.rate_limit_rps,
        rate_limit_burst: config.rate_limit_burst,
        ..ServerLimits::default()
    }
}

/// The shape of a MiniGPT.
pub fn minigpt_config(vocab_size: usize, hyperparameters: &Hyperparameters) -> (c: MiniGptConfig)
    ensures
        c == (MiniGptConfig {
            vocab_size,
            d_model: hyperparameters.embed_dim,
            num_blocks: hyperparameters.num_layers,
            max_position_embeddings: hyperparameters.block_size,
            num_heads: hyperparameters.num_heads,
        }),
{
    MiniGptConfig {
        vocab_size,
        d_model: hyperparameters.embed_dim,
        num_blocks: hyperparameters.num_layers,
        max_position_embeddings: hyperparameters.block_size,
        num_heads: hyperparameters.num_heads,
    }
}

/// The shape of a model whose blocks choose among experts.
pub fn moegpt_config(vocab_size: usize, hyperparameters: &Hyperparameters) -> (c: MoeGptConfig)
    ensures
        c == (MoeGptConfig {
            base: MiniGptConfig {
                vocab_size,
                d_model: hyperparameters.embed_dim,
                num_blocks: hyperparameters.num_layers,
                max_position_embeddings: hyperparameters.block_size,
                num_heads: hyperparameters.num_heads,
            },
            num_experts: hyperparameters.moe_experts,
            top_k: hyperparameters.moe_top_k,
            aux_loss_weight: hyperparameters.moe_aux_loss_weight,
        }),
{
    MoeGptConfig {
        base: minigpt_config(vocab_size, hyperparameters),
        num_experts: hyperparameters.moe_experts,
        top_k: hyperparameters.moe_top_k,
        aux_loss_weight: hyperparameters.moe_aux_loss_weight,
    }
}

/// What is logged once the settings are known.
pub fn configured_event(config: &RuntimeConfig, tokenizer_path: &str) -> (event: RuntimeEvent)
    ensures
        match event {
            RuntimeEvent::AppConfigured {
                backend,
                model,
                input_path,
                tokenizer_path: t,
                checkpoint_path,
                log_format,
                serve,
                benchmark_generation,
            } => {
                &&& backend@ == runtime_config::backend_label(config.backend)
                &&& model@ == runtime_config::model_label(config.model)
                &&& input_path@ == input_source::displayed(config.input_source@)
                &&& t@ == tokenizer_path@
                &&& checkpoint_path@ == config.checkpoint_path@
                &&& log_format == config.log_format
                &&& serve == config.serve
                &&& benchmark_generation == config.benchmark_generation
            },
            _ => false,
        },
{
    RuntimeEvent::AppConfigured {
        backend: config.backend.label().to_owned(),
        model: config.model.label().to_owned(),
        input_path: config.input_source.display(),
        tokenizer_path: tokenizer_path.to_owned(),
        checkpoint_path: config.checkpoint_path.clone(),
        log_format: config.log_format,
        serve: config.serve,
        benchmark_generation: config.benchmark_generation,
    }
}

/// What is logged once a batch is ready.
pub fn batch_event(
    hyperparameters: &Hyperparameters,
    vocab_size: usize,
    text: &str,
    encoded_tokens: usize,
    dropout: String,
) -> (event: RuntimeEvent)
    ensures
        event == (RuntimeEvent::RuntimeBatchPrepared {
            vocab_size,
            input_chars: text@.len() as usize,
            encoded_tokens,
            batch_size: hyperparameters.batch_size,
            block_size: hyperparameters.block_size,
            dropout,
        }),
{
    RuntimeEvent::RuntimeBatchPrepared {
        vocab_size,
        input_chars: text.unicode_len(),
        encoded_tokens,
        batch_size: hyperparameters.batch_size,
        block_size: hyperparameters.block_size,
        dropout,
    }
}

/// A line without the line breaks at its end.
pub open spec fn without_line_breaks(line: Seq<char>) -> Seq<char>
    decreases line.len(),
{
    if line.len() > 0 && (line.last() == '\r' || line.last() == '\n') {
        without_line_breaks(line.drop_last())
    } else {
        line
    }
}

fn strip_line_breaks(line: &str) -> (s: String)
    ensures
        s@ == without_line_breaks(line@),
{
    let chars = text::to_chars(line);
    let mut end: usize = chars.len();
    assert(chars@.take(end as int) =~= line@);
    while end > 0 && (chars[end - 1] == '\r' || chars[end - 1] == '\n')
        invariant
            end <= chars@.len(),
            chars@ == line@,
            without_line_breaks(line@) == without_line_breaks(line@.take(end as int)),
        decreases end,
    {
        proof {
            assert(line@.take(end as int).last() == chars@[end - 1]);
            assert(line@.take(end as int).drop_last() =~= line@.take(end - 1));
        }
        end -= 1;
    }
    proof {
        if end > 0 {
            assert(line@.take(end as int).last() == chars@[end - 1]);
        }
    }
    let part = text::slice_chars(chars.as_slice(), 0, end);
    assert(part@ =~= line@.take(end as int));
    text::from_chars(part.as_slice())
}

/// What to do about a line that was typed.
#[derive(Debug, PartialEq, Eq)]
pub enum PromptAction {
    /// Stop asking.
    Quit,
    /// Tell the user why the line cannot be continued.
    Tell(String),
    /// Continue these tokens.
    Generate(Vec<usize>),
}

/// Whether a line ends the talk: the end of the input, an empty line, or `:quit`.
pub open spec fn quits(line: Option<Seq<char>>) -> bool {
    match line {
        None => true,
        Some(l) => without_line_breaks(l).len() == 0 || without_line_breaks(l) == ":quit"@,
    }
}

/// What to do about a line that was typed. Without a line the input has come to its end.
pub fn prompt_action(line: Option<&str>, tokenizer: &RuntimeTokenizer) -> (action: PromptAction)
    ensures
        ({
            let l = match line {
                Some(x) => Some(x@),
                None => None,
            };
            match action {
                PromptAction::Quit => quits(l),
                PromptAction::Tell(message) => {
                    let prompt = without_line_breaks(l->Some_0);
                    !quits(l) && !tokenizer.can_encode(prompt) && tokenizer.names_first_unknown(
                        prompt,
                        message@,
                    )
                },
                PromptAction::Generate(tokens) => {
                    let prompt = without_line_breaks(l->Some_0);
                    !quits(l) && tokenizer.can_encode(prompt) && tokenizer.encodes(prompt, tokens@)
                },
            }
        }),
{
    let line = match line {
        Some(l) => l,
        None => {
            return PromptAction::Quit;
        },
    };
    let prompt = strip_line_breaks(line);
    if prompt.as_str().is_empty() || text::same_text(prompt.as_str(), ":quit") {
        return PromptAction::Quit;
    }
    match tokenizer.try_encode(prompt.as_str()) {
        Ok(tokens) => PromptAction::Generate(tokens),
        Err(message) => PromptAction::Tell(message),
    }
}

/// A run talks exactly where that is asked for of a model that can and nothing is to be measured,
/// and every run that is not asked to talk trains.
pub proof fn law_modes_go_together(
    interactive: bool,
    benchmark_generation: bool,
    model: ModelChoice,
)
    ensures
        mode_problem(interactive, benchmark_generation, model) is None <==> !interactive || (
        !benchmark_generation && model == ModelChoice::MiniGpt),
{
}

/// The line breaks at the end of a line are taken away, all of them and nothing else.
pub proof fn law_line_breaks_are_taken_away(line: Seq<char>, breaks: Seq<char>)
    requires
        line.len() > 0 ==> line.last() != '\r' && line.last() != '\n',
        forall|i: int| 0 <= i < breaks.len() ==> #[trigger] breaks[i] == '\r' || breaks[i] == '\n',
    ensures
        without_line_breaks(line + breaks) == line,
        quits(Some(line + breaks)) <==> line.len() == 0 || line == ":quit"@,
        quits(None),
    decreases breaks.len(),
{
    if breaks.len() == 0 {
        assert(line + breaks == line);
    } else {
        assert(breaks.last() == '\r' || breaks.last() == '\n');
        assert((line + breaks).last() == breaks.last());
        assert((line + breaks).drop_last() == line + breaks.drop_last());
        law_line_breaks_are_taken_away(line, breaks.drop_last());
    }
}

} // verus!

//! What a run needs besides its settings: the text, the tokenizer and the checkpoint to load.
//!
//! Reading files and directories is left to the caller. What is read, from where, and what is made
//! of it is decided here.
use vstd::prelude::*;

use crate::failure;
use crate::failure::Failure;
use crate::loader::input_source;
use crate::loader::input_source::{InputSource, InputSourceView, LocalMetadata};
use crate::model::persistence;
use crate::model::persistence::{CheckpointMetadata, CheckpointModelShape};
use crate::observability::RuntimeEvent;
use crate::path;
use crate::runtime_config;
use crate::runtime_config::ModelChoice;
use crate::server;
use crate::server::ServedShape;
use crate::text;
use crate::tokenizer;
use crate::tokenizer::bpe;
use crate::tokenizer::bpe::Merge;
use crate::tokenizer::RuntimeTokenizer;

verus! {

pub const DEFAULT_BPE_TOKENIZER_PATH: &'static str = "checkpoints/tokenizer.json";

pub const BPE_TOKENIZER_ENV: &'static str = "RUSTY_GPT_BPE_TOKENIZER";

// ---------------------------------------------------------------------------------------
// Tokenizer
// ---------------------------------------------------------------------------------------

/// Where the byte pair tokenizer lies: where the environment says, or at the usual place.
pub open spec fn tokenizer_path(env: Option<Seq<char>>) -> Seq<char> {
    match env {
        Some(p) => p,
        None => DEFAULT_BPE_TOKENIZER_PATH@,
    }
}

/// Where the byte pair tokenizer lies: see [`tokenizer_path`].
pub fn minigpt_tokenizer_path(env: Option<&str>) -> (p: String)
    ensures
        p@ == tokenizer_path(
            match env {
                Some(e) => Some(e@),
                None => None,
            },
        ),
{
    match env {
        Some(e) => e.to_owned(),
        None => DEFAULT_BPE_TOKENIZER_PATH.to_owned(),
    }
}

/// What the failure to load a byte pair tokenizer is introduced with.
pub open spec fn tokenizer_context(tokenizer_path: Seq<char>) -> Seq<char> {
    "failed to load MiniGPT BPE tokenizer from "@ + tokenizer_path
        + "; train one with `cargo run --bin train-tokenizer -- --corpus data/fafolang.txt --vocab-size 2048 --output checkpoints/tokenizer.json`"@
}

/// What a tokenizer file holds.
#[derive(Debug)]
pub struct TokenizerFile {
    pub merges: Vec<Merge>,
    pub vocab: Vec<Vec<u8>>,
}

/// The byte pair tokenizer of a file that could be read.
pub fn load_minigpt_tokenizer(tokenizer_path: &str, file: Result<TokenizerFile, String>) -> (r: Result<
    RuntimeTokenizer,
    Failure,
>)
    requires
        file matches Ok(f) ==> f.merges@.len() <= 0x1_0000_0000,
    ensures
        match (r, file) {
            (Ok(tokenizer), Ok(f)) => tokenizer matches RuntimeTokenizer::Bpe(t)
                && t.merge_list() == f.merges@ && t.pieces() == bpe::byte_views(f.vocab@),
            (Err(e), Err(cause)) => e@ == failure::because(
                tokenizer_context(tokenizer_path@),
                cause@,
            ),
            _ => false,
        },
{
    match file {
        Ok(f) => Ok(RuntimeTokenizer::load_bpe(f.merges, f.vocab)),
        Err(cause) => {
            let mut message = "failed to load MiniGPT BPE tokenizer from ".to_owned();
            message.append(tokenizer_path);
            message.append(
                "; train one with `cargo run --bin train-tokenizer -- --corpus data/fafolang.txt --vocab-size 2048 --output checkpoints/tokenizer.json`",
            );
            Err(Failure::caused(message, cause))
        },
    }
}

/// The tokenizer of a model: byte pairs for the models that generate, and else the characters of
/// the text.
pub fn tokenizer_for_model(
    text: &str,
    model: ModelChoice,
    tokenizer_path: &str,
    file: Result<TokenizerFile, String>,
) -> (r: Result<RuntimeTokenizer, Failure>)
    requires
        file matches Ok(f) ==> f.merges@.len() <= 0x1_0000_0000,
    ensures
        if runtime_config::generates(model) {
            match (r, file) {
                (Ok(tokenizer), Ok(f)) => tokenizer matches RuntimeTokenizer::Bpe(t)
                    && t.merge_list() == f.merges@ && t.pieces() == bpe::byte_views(f.vocab@),
                (Err(e), Err(cause)) => e@ == failure::because(
                tokenizer_context(tokenizer_path@),
                cause@,
            ),
                _ => false,
            }
        } else {
            r matches Ok(RuntimeTokenizer::Char(t)) && tokenizer::char::increasing(t.chars()) && forall|
                c: char,
            | #[trigger] t.chars().contains(c) <==> text@.contains(c)
        },
{
    if model.uses_bpe_tokenizer() {
        load_minigpt_tokenizer(tokenizer_path, file)
    } else {
        Ok(RuntimeTokenizer::char_from_text(text))
    }
}

// ---------------------------------------------------------------------------------------
// Latest checkpoint
// ---------------------------------------------------------------------------------------

/// An entry of a checkpoint directory.
#[derive(Debug, Clone, PartialEq, Eq)]
pub struct CheckpointEntry {
    pub path: String,
    /// When the file was last written, in nanoseconds around the epoch.
    pub modified: i128,
}

/// Whether a path is that of saved weights.
pub open spec fn is_weights(p: Seq<char>) -> bool {
    path::extension(p) == Some("mpk"@)
}

/// Whether a path is that of saved weights.
pub fn is_weights_file(p: &str) -> (yes: bool)
    ensures
        yes == is_weights(p@),
{
    match path::path_extension(p) {
        Some(ext) => text::same_text(ext.as_str(), "mpk"),
        None => false,
    }
}

/// Whether entry `i` is the first of those weights that no other weights are newer than.
pub open spec fn is_latest(entries: Seq<CheckpointEntry>, i: int) -> bool {
    &&& 0 <= i < entries.len()
    &&& is_weights(entries[i].path@)
    &&& forall|j: int|
        0 <= j < i && is_weights((#[trigger] entries[j]).path@) ==> entries[j].modified
            < entries[i].modified
    &&& forall|j: int|
        i < j < entries.len() && is_weights((#[trigger] entries[j]).path@) ==> entries[j].modified
            <= entries[i].modified
}

/// The newest checkpoint of a directory, without its extension.
pub fn latest_checkpoint_path(checkpoint_dir: &str, entries: &Vec<CheckpointEntry>) -> (r: Result<
    String,
    Failure,
>)
    ensures
        match r {
            Ok(p) => exists|i: int| #[trigger]
                is_latest(entries@, i) && p@ == path::with_extension(entries@[i].path@, ""@),
            Err(e) => {
                &&& forall|i: int|
                    0 <= i < entries@.len() ==> !is_weights((#[trigger] entries@[i]).path@)
                &&& e.cause is None && e.message@ == "no .mpk checkpoints found in "@ + path::path_debug_text(
                    checkpoint_dir@,
                )
            },
        },
{
    let mut latest: Option<usize> = None;
    let mut i: usize = 0;
    while i < entries.len()
        invariant
            i <= entries@.len(),
            match latest {
                Some(k) => k < i && is_latest(entries@.take(i as int), k as int),
                None => forall|j: int|
                    0 <= j < i ==> !is_weights((#[trigger] entries@[j]).path@),
            },
        decreases entries.len() - i,
    {
        let ghost before = entries@.take(i as int);
        let ghost after = entries@.take(i as int + 1);
        proof {
            assert forall|j: int| 0 <= j < i implies before[j] == after[j] by {}
        }
        if is_weights_file(entries[i].path.as_str()) {
            let newer = match latest {
                Some(k) => entries[i].modified > entries[k].modified,
                None => true,
            };
            if newer {
                proof {
                    assert forall|j: int|
                        0 <= j < i && is_weights((#[trigger] after[j]).path@) implies after[j].modified
                        < after[i as int].modified by {
                        match latest {
                            Some(k) => {
                                assert(before[j] == after[j]);
                                assert(before[j].modified <= before[k as int].modified);
                            },
                            None => {
                                assert(!is_weights(entries@[j].path@));
                            },
                        }
                    }
                }
                latest = Some(i);
            }
        }
        i += 1;
    }
    assert(entries@.take(entries@.len() as int) =~= entries@);
    match latest {
        Some(k) => {
            assert(is_latest(entries@, k as int));
            Ok(path::path_with_extension(entries[k].path.as_str(), ""))
        },
        None => {
            let mut message = "no .mpk checkpoints found in ".to_owned();
            message.append(path::path_debug(checkpoint_dir).as_str());
            Err(Failure::of(message))
        },
    }
}

/// There is at most one latest checkpoint.
pub proof fn law_one_latest_checkpoint(entries: Seq<CheckpointEntry>, i: int, j: int)
    requires
        is_latest(entries, i),
        is_latest(entries, j),
    ensures
        i == j,
{
    if i < j {
        assert(entries[i].modified < entries[j].modified);
        assert(entries[j].modified <= entries[i].modified);
    } else if j < i {
        assert(entries[j].modified < entries[i].modified);
        assert(entries[i].modified <= entries[j].modified);
    }
}

/// What the sidecar of a checkpoint has to say for a model of the given shape.
pub fn expected_shape(model: &ServedShape) -> (shape: CheckpointModelShape)
    ensures
        shape == (CheckpointModelShape {
            vocab_size: model.vocab_size,
            block_size: model.block_size,
            embed_dim: model.d_model,
            num_heads: model.num_heads,
            num_layers: model.num_layers,
        }),
{
    CheckpointModelShape {
        vocab_size: model.vocab_size,
        block_size: model.block_size,
        embed_dim: model.d_model,
        num_heads: model.num_heads,
        num_layers: model.num_layers,
    }
}

/// What the failure to load a checkpoint is introduced with.
pub fn load_failure_context(model: &ServedShape, checkpoint_path: &str) -> (s: String)
    ensures
        s@ == "failed to load "@ + server::kind_label(model.kind) + " checkpoint from "@
            + path::path_debug_text(path::with_extension(checkpoint_path@, "mpk"@)),
{
    let mut s = "failed to load ".to_owned();
    s.append(model.kind());
    s.append(" checkpoint from ");
    s.append(path::path_debug(path::path_with_extension(checkpoint_path, "mpk").as_str()).as_str());
    s
}

/// Whether the weights of a checkpoint may be read into a model: only where its sidecar fits the
/// model and the tokenizer.
pub fn admit_model_checkpoint(
    model: &ServedShape,
    checkpoint_path: &str,
    sidecar: &Option<CheckpointMetadata>,
    tokenizer_path: &str,
    tokenizer_file: &Option<Vec<u8>>,
) -> (r: Result<(), Failure>)
    ensures
        ({
            let shape = CheckpointModelShape {
                vocab_size: model.vocab_size,
                block_size: model.block_size,
                embed_dim: model.d_model,
                num_heads: model.num_heads,
                num_layers: model.num_layers,
            };
            match *sidecar {
                None => r matches Err(e) && e.cause is None && e.message@ == persistence::missing_sidecar_text(
                    checkpoint_path@,
                ),
                Some(m) => {
                    let issues = persistence::strict_issues(
                        m,
                        shape,
                        tokenizer_path@,
                        persistence::tokenizer_mark(*tokenizer_file),
                    );
                    match r {
                        Ok(_) => issues.len() == 0,
                        Err(e) => issues.len() > 0 && e.cause is None && e.message@
                            == persistence::strict_failure_text(
                            checkpoint_path@,
                            tokenizer_path@,
                            issues,
                        ),
                    }
                },
            }
        }),
{
    persistence::admit_checkpoint(
        checkpoint_path,
        sidecar,
        &expected_shape(model),
        tokenizer_path,
        tokenizer_file,
    )
}

/// What is logged when a checkpoint has been loaded: the file that its weights lie in.
pub fn loaded_event(checkpoint_path: &str, elapsed_ms: u128) -> (event: RuntimeEvent)
    ensures
        event matches RuntimeEvent::CheckpointLoaded { path: p, elapsed_ms: e } && p@
            == path::with_extension(checkpoint_path@, "mpk"@) && e == elapsed_ms,
{
    RuntimeEvent::CheckpointLoaded {
        path: path::path_with_extension(checkpoint_path, "mpk"),
        elapsed_ms,
    }
}

// ---------------------------------------------------------------------------------------
// Text
// ---------------------------------------------------------------------------------------

/// Where the text of a run is to be read from.
#[derive(Debug, Clone, PartialEq, Eq)]
pub enum InputPlan {
    /// A file, whose size has been found to be within the limit.
    ReadFile { path: String },
    /// A dataset, under the text that its loader reads.
    LoadDataset { uri: String },
}

/// Where the text of a run is to be read from. A local file is held to the limit before it is
/// opened.
pub fn plan_input(source: &InputSource, max_local_bytes: u64, metadata: &LocalMetadata) -> (r:
    Result<InputPlan, Failure>)
    ensures
        match source@ {
            InputSourceView::Local(p) => match input_source::local_size_check(
                source@,
                max_local_bytes,
                *metadata,
            ) {
                Ok(_) => r matches Ok(InputPlan::ReadFile { path }) && path@ == p,
                Err(e) => r matches Err(f) && f.cause is None && f.message@ == input_source::error_text(e),
            },
            InputSourceView::HuggingFace { .. } => r matches Ok(InputPlan::LoadDataset { uri })
                && uri@ == input_source::displayed(source@),
        },
{
    match source.local_path() {
        Some(p) => match source.validate_local_size(max_local_bytes, metadata) {
            Ok(_) => Ok(InputPlan::ReadFile { path: p.to_owned() }),
            Err(e) => Err(Failure::of(e.to_text())),
        },
        None => Ok(InputPlan::LoadDataset { uri: source.display() }),
    }
}

/// The text that a dataset gave, if it gave one.
pub fn dataset_text(uri: &str, loaded: Option<String>) -> (r: Result<String, Failure>)
    ensures
        match (r, loaded) {
            (Ok(s), Some(t)) => s@ == t@,
            (Err(e), None) => e@ == failure::said(
                "Hugging Face loader returned no text for "@ + uri@,
            ),
            _ => false,
        },
{
    match loaded {
        Some(t) => Ok(t),
        None => {
            let mut message = "Hugging Face loader returned no text for ".to_owned();
            message.append(uri);
            Err(Failure::of(message))
        },
    }
}

/// The latest checkpoint is one that no saved weights are newer than, and the first of those.
pub proof fn law_no_weights_are_newer_than_the_latest(
    entries: Seq<CheckpointEntry>,
    i: int,
    j: int,
)
    requires
        is_latest(entries, i),
        0 <= j < entries.len(),
        path::extension(entries[j].path@) == Some("mpk"@),
    ensures
        path::extension(entries[i].path@) == Some("mpk"@),
        entries[j].modified <= entries[i].modified,
        entries[j].modified == entries[i].modified ==> i <= j,
{
}

} // verus!

use rusty_gpt::observability::RuntimeEvent;
use rusty_gpt::runtime_config::{Hyperparameters, ModelChoice};
use rusty_gpt::runtime_orchestration::{
    batch_event, cpu_mode, minigpt_config, moegpt_config, prompt_action, server_checkpoint, CpuMode,
    PromptAction,
};
use rusty_gpt::server::CheckpointSource;
use rusty_gpt::tokenizer::RuntimeTokenizer;

#[test]
fn interactive_generation_needs_minigpt_and_no_benchmark() {
    assert_eq!(
        CpuMode::Interactive,
        cpu_mode(true, false, ModelChoice::MiniGpt).unwrap()
    );
    assert_eq!(
        CpuMode::Training,
        cpu_mode(false, true, ModelChoice::Trivial).unwrap()
    );
    assert_eq!(
        "generation benchmarks cannot run with --interactive-generate",
        cpu_mode(true, true, ModelChoice::MiniGpt).unwrap_err().to_text()
    );
    assert_eq!(
        "interactive generation requires --model minigpt",
        cpu_mode(true, false, ModelChoice::Trivial).unwrap_err().to_text()
    );
}

#[test]
fn the_server_loads_what_it_was_told_to() {
    assert_eq!(CheckpointSource::Latest, server_checkpoint(true, false));
    assert_eq!(CheckpointSource::Explicit, server_checkpoint(false, true));
    assert_eq!(CheckpointSource::Fresh, server_checkpoint(false, false));
}

#[test]
fn models_are_built_to_the_settings() {
    let settings = Hyperparameters::default();
    let dense = minigpt_config(99, &settings);
    let routed = moegpt_config(99, &settings);

    assert_eq!(99, dense.vocab_size);
    assert_eq!(settings.embed_dim, dense.d_model);
    assert_eq!(settings.num_layers, dense.num_blocks);
    assert_eq!(settings.block_size, dense.max_position_embeddings);
    assert_eq!(settings.num_heads, dense.num_heads);
    assert_eq!(settings.moe_experts, routed.num_experts);
    assert_eq!(settings.moe_top_k, routed.top_k);
}

#[test]
fn the_batch_event_counts_characters() {
    let settings = Hyperparameters::default();
    match batch_event(&settings, 5, "h\u{e9}llo", 6, "0.1".to_string()) {
        RuntimeEvent::RuntimeBatchPrepared {
            vocab_size,
            input_chars,
            encoded_tokens,
            batch_size,
            block_size,
            dropout,
        } => {
            assert_eq!((5, 5, 6), (vocab_size, input_chars, encoded_tokens));
            assert_eq!((settings.batch_size, settings.block_size), (batch_size, block_size));
            assert_eq!("0.1", dropout);
        }
        other => panic!("unexpected event {other:?}"),
    }
}

#[test]
fn prompts_are_trimmed_of_their_line_break() {
    let tokenizer = RuntimeTokenizer::char_from_text("abc");

    assert_eq!(
        PromptAction::Generate(vec![0, 1]),
        prompt_action(Some("ab\n"), &tokenizer)
    );
    assert_eq!(
        PromptAction::Generate(vec![2]),
        prompt_action(Some("c\r\n"), &tokenizer)
    );
    assert_eq!(PromptAction::Quit, prompt_action(Some("\n"), &tokenizer));
    assert_eq!(PromptAction::Quit, prompt_action(Some(":quit\n"), &tokenizer));
    assert_eq!(PromptAction::Quit, prompt_action(None, &tokenizer));
    assert_eq!(
        PromptAction::Tell("unknown character: 'z'".to_string()),
        prompt_action(Some("az\n"), &tokenizer)
    );
}

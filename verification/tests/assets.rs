use rusty_gpt::loader::input_source::{InputSource, LocalMetadata};
use rusty_gpt::model::persistence::CheckpointModelShape;
use rusty_gpt::observability::RuntimeEvent;
use rusty_gpt::runtime_assets::{
    admit_model_checkpoint, dataset_text, expected_shape, is_weights_file, latest_checkpoint_path,
    load_failure_context, load_minigpt_tokenizer, loaded_event, minigpt_tokenizer_path, plan_input,
    tokenizer_for_model, CheckpointEntry, InputPlan, TokenizerFile, BPE_TOKENIZER_ENV,
};
use rusty_gpt::runtime_config::ModelChoice;
use rusty_gpt::server::{ServedKind, ServedShape};

fn entry(path: &str, modified: i128) -> CheckpointEntry {
    CheckpointEntry {
        path: path.to_string(),
        modified,
    }
}

fn minigpt() -> ServedShape {
    ServedShape {
        kind: ServedKind::MiniGpt,
        vocab_size: 7,
        block_size: 4,
        num_layers: 1,
        num_heads: 2,
        d_model: 8,
    }
}

#[test]
fn latest_checkpoint_path_uses_newest_mpk_file_without_extension() {
    let dir = "/tmp/rusty-gpt-latest-checkpoint";
    let old = entry("/tmp/rusty-gpt-latest-checkpoint/old.mpk", 0);
    let new = entry("/tmp/rusty-gpt-latest-checkpoint/new.mpk", 10_000_000);

    let latest = latest_checkpoint_path(dir, &vec![old, new]).unwrap();

    assert_eq!("/tmp/rusty-gpt-latest-checkpoint/new", latest);
}

#[test]
fn only_weights_can_be_the_latest_checkpoint() {
    let entries = vec![
        entry("c/a.mpk", 1),
        entry("c/a.metadata.json", 3),
        entry("c/notes.txt", 4),
        entry("c/b.mpk", 2),
    ];

    assert_eq!("c/b", latest_checkpoint_path("c", &entries).unwrap());
    assert!(is_weights_file("c/b.mpk"));
    assert!(!is_weights_file("c/mpk"));
    assert_eq!(
        "no .mpk checkpoints found in \"c\"",
        latest_checkpoint_path("c", &vec![entry("c/notes.txt", 4)])
            .unwrap_err()
            .to_text()
    );
}

#[test]
fn the_tokenizer_path_comes_from_the_environment() {
    assert_eq!("RUSTY_GPT_BPE_TOKENIZER", BPE_TOKENIZER_ENV);
    assert_eq!("checkpoints/tokenizer.json", minigpt_tokenizer_path(None));
    assert_eq!("a/b.json", minigpt_tokenizer_path(Some("a/b.json")));
}

#[test]
fn each_model_has_its_own_tokenizer() {
    let chars = tokenizer_for_model("banana", ModelChoice::Trivial, "t.json", Err(String::new())).unwrap();
    assert_eq!(3, chars.vocab_size());
    assert_eq!("char", chars.kind());

    let file = TokenizerFile {
        merges: Vec::new(),
        vocab: (0..=255u8).map(|byte| vec![byte]).collect(),
    };
    let bytes = tokenizer_for_model("banana", ModelChoice::MiniGpt, "t.json", Ok(file)).unwrap();
    assert_eq!(256, bytes.vocab_size());
    assert_eq!("bpe", bytes.kind());

    let missing = load_minigpt_tokenizer("t.json", Err("no such file".to_string()))
        .err()
        .unwrap();
    assert_eq!(Some("no such file".to_string()), missing.cause);
    assert_eq!(
        "failed to load MiniGPT BPE tokenizer from t.json; train one with `cargo run --bin \
         train-tokenizer -- --corpus data/fafolang.txt --vocab-size 2048 --output \
         checkpoints/tokenizer.json`",
        missing.to_text()
    );
}

#[test]
fn the_expected_shape_is_that_of_the_served_model() {
    assert_eq!(
        CheckpointModelShape {
            vocab_size: 7,
            block_size: 4,
            embed_dim: 8,
            num_heads: 2,
            num_layers: 1,
        },
        expected_shape(&minigpt())
    );
    assert_eq!(
        "failed to load minigpt checkpoint from \"c/m.mpk\"",
        load_failure_context(&minigpt(), "c/m")
    );
    assert!(admit_model_checkpoint(&minigpt(), "c/m", &None, "t.json", &None)
        .unwrap_err()
        .to_text()
        .contains("missing metadata sidecar"));
    match loaded_event("c/m", 3) {
        RuntimeEvent::CheckpointLoaded { path, elapsed_ms } => {
            assert_eq!("c/m.mpk", path);
            assert_eq!(3, elapsed_ms);
        }
        other => panic!("unexpected event {other:?}"),
    }
}

#[test]
fn inputs_are_read_or_loaded() {
    let local = InputSource::parse("data/input.txt").unwrap();
    match plan_input(&local, 100, &LocalMetadata::File { size_bytes: 100 }).unwrap() {
        InputPlan::ReadFile { path } => assert_eq!("data/input.txt", path),
        other => panic!("unexpected plan {other:?}"),
    }
    assert!(plan_input(&local, 100, &LocalMetadata::File { size_bytes: 101 }).is_err());
    assert!(plan_input(&local, 100, &LocalMetadata::NotAFile).is_err());

    assert_eq!("text", dataset_text("hf://x", Some("text".to_string())).unwrap());
    assert_eq!(
        "Hugging Face loader returned no text for hf://x",
        dataset_text("hf://x", None).unwrap_err().to_text()
    );
}

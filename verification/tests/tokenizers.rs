use rusty_gpt::tokenizer::bpe::{
    BpeTokenizer, BpeTrainer, BpeTraining, BpeTrainingEvent, BpeTrainingStopReason,
};
use rusty_gpt::tokenizer::char::CharTokenizer;
use rusty_gpt::tokenizer::{RuntimeTokenizer, Tokenizer};

#[test]
fn trained_bpe_implements_tokenizer_contract() {
    let tokenizer = BpeTrainer::new(260).train("banana bandana banana");

    let ids = tokenizer.encode("banana");

    assert!(!ids.is_empty());
    assert_eq!("banana", tokenizer.decode(&ids));
    assert!(tokenizer.vocab_size() >= 256);
}

#[test]
fn training_stops_at_requested_vocab_size() {
    let tokenizer = BpeTrainer::new(258).train("banana banana banana");

    assert_eq!(258, tokenizer.vocab_size());
    assert_eq!(2, tokenizer.merges().len());
}

#[test]
fn training_stops_when_no_repeated_pair_exists() {
    let tokenizer = BpeTrainer::new(300).train("ab cd");

    assert_eq!(256, tokenizer.vocab_size());
    assert!(tokenizer.merges().is_empty());
}

#[test]
fn train_with_observer_emits_structured_events() {
    let mut events = Vec::new();
    let tokenizer = BpeTrainer::new(258)
        .train_with_observer("banana banana banana", |event| events.push(event));

    assert_eq!(258, tokenizer.vocab_size());
    assert_eq!(
        Some(&BpeTrainingEvent::Started {
            target_vocab_size: 258,
            initial_vocab_size: 256,
            word_count: 3,
        }),
        events.first()
    );
    assert!(matches!(
        events.get(1),
        Some(BpeTrainingEvent::Merge {
            merge_index: 0,
            vocab_size: 257,
            new_token_id: 256,
            count,
            ..
        }) if *count >= 2
    ));
    assert_eq!(
        Some(&BpeTrainingEvent::Completed {
            target_vocab_size: 258,
            final_vocab_size: 258,
            merge_count: 2,
            reason: BpeTrainingStopReason::TargetVocabSizeReached,
        }),
        events.last()
    );
}

fn abc_tokenizer() -> BpeTokenizer {
    let mut vocab: Vec<Vec<u8>> = (0..256u32).map(|i| vec![i as u8]).collect();
    vocab.push(b"ab".to_vec());
    vocab.push(b"abc".to_vec());
    BpeTokenizer::from_parts(
        vec![((b'a' as u32, b'b' as u32), 256), ((256, b'c' as u32), 257)],
        vocab,
    )
}

#[test]
fn encode_applies_lowest_rank_merge_first() {
    let tokenizer = abc_tokenizer();

    let ids = tokenizer.encode("abc");

    assert_eq!(vec![257], ids);
    assert_eq!("abc", tokenizer.decode(&ids));
}

#[test]
fn save_and_load_preserves_encoding() {
    let tokenizer = BpeTrainer::new(260).train("banana bandana banana");
    let ids = tokenizer.encode("banana");

    let merges = serde_json::to_string(tokenizer.merges()).unwrap();
    let vocab = serde_json::to_string(tokenizer.vocab()).unwrap();
    let loaded = BpeTokenizer::from_parts(
        serde_json::from_str(&merges).unwrap(),
        serde_json::from_str(&vocab).unwrap(),
    );

    assert_eq!(ids, loaded.encode("banana"));
    assert_eq!("banana", loaded.decode(&ids));
    assert_eq!(tokenizer.vocab_size(), loaded.vocab_size());
}

#[test]
fn runtime_tokenizer_kind_returns_char_or_bpe() {
    let char_tokenizer = RuntimeTokenizer::char_from_text("abc");
    assert_eq!("char", char_tokenizer.kind());

    let bpe = BpeTrainer::new(258).train("banana banana banana");
    let bpe_tokenizer = RuntimeTokenizer::load_bpe(bpe.merges().clone(), bpe.vocab().clone());
    assert_eq!("bpe", bpe_tokenizer.kind());
}

#[test]
fn runtime_tokenizer_loads_bpe_from_json() {
    let tokenizer = BpeTrainer::new(258).train("banana banana banana");
    let merges = serde_json::to_string(tokenizer.merges()).unwrap();
    let vocab = serde_json::to_string(tokenizer.vocab()).unwrap();

    let runtime_tokenizer = RuntimeTokenizer::load_bpe(
        serde_json::from_str(&merges).unwrap(),
        serde_json::from_str(&vocab).unwrap(),
    );
    let ids = runtime_tokenizer.encode("banana");

    assert_eq!(258, runtime_tokenizer.vocab_size());
    assert_eq!("banana", runtime_tokenizer.decode(&ids));
}

#[test]
fn from_text_counts_unique_characters() {
    let tokenizer = CharTokenizer::from_text("banana");

    assert_eq!(3, tokenizer.vocab_size());
}

#[test]
fn encode_decode_round_trips_known_text() {
    let tokenizer = CharTokenizer::from_text("hello world");
    let encoded = tokenizer.encode("world");

    assert_eq!("world", tokenizer.decode(&encoded));
}

#[test]
fn try_encode_returns_error_for_unknown_characters() {
    let tokenizer = CharTokenizer::from_text("abc");

    let err = tokenizer
        .try_encode("az")
        .expect_err("unknown character should fail");

    assert!(err.contains("unknown character"));
    assert_eq!("unknown character: 'z'", err);
}

#[test]
fn ids_are_assigned_in_sorted_character_order() {
    let tokenizer = CharTokenizer::from_text("cba");

    assert_eq!(vec![0, 1, 2], tokenizer.encode("abc"));
    assert_eq!("abc", tokenizer.decode(&[0, 1, 2]));
}

#[test]
fn unknown_characters_are_escaped_in_messages() {
    let tokenizer = CharTokenizer::from_text("abc");

    assert_eq!(
        "unknown character: '\\n'",
        tokenizer.try_encode("a\nb").unwrap_err()
    );
}

#[test]
fn the_most_frequent_pair_is_merged_first() {
    let mut run = BpeTraining::start(258, "aab aab");

    let first = run.step().unwrap();
    assert_eq!(
        BpeTrainingEvent::Merge {
            merge_index: 0,
            vocab_size: 257,
            pair: (97, 97),
            new_token_id: 256,
            count: 2,
        },
        first
    );
}

#[test]
fn a_run_without_pairs_says_so() {
    let mut run = BpeTraining::start(300, "a b");
    assert_eq!(Err(BpeTrainingStopReason::NoPairs), run.step());
    let mut run = BpeTraining::start(300, "ab cd");
    assert_eq!(Err(BpeTrainingStopReason::NoRepeatedPairs), run.step());
    let mut run = BpeTraining::start(256, "aa aa");
    assert_eq!(Err(BpeTrainingStopReason::TargetVocabSizeReached), run.step());
}

#[test]
fn training_is_the_same_with_and_without_an_observer() {
    let corpus = "the quick brown fox jumps over the lazy dog the quick the";
    let quiet = BpeTrainer::new(270).train(corpus);
    let watched = BpeTrainer::new(270).train_with_observer(corpus, |_| {});

    assert_eq!(quiet.merges(), watched.merges());
    assert_eq!(quiet.vocab(), watched.vocab());
}

#[test]
fn decoding_an_encoding_gives_the_words_back() {
    let tokenizer = BpeTrainer::new(280).train("low lower lowest new newer newest");

    for text in ["lower", "newest", "unseen", "größer"] {
        assert_eq!(text, tokenizer.decode(&tokenizer.encode(text)));
    }
}

#[test]
fn byte_pairs_keep_the_bytes_of_the_words() {
    let tokenizer = abc_tokenizer();
    let ids = tokenizer.encode("abcab c");
    let bytes: Vec<u8> = ids
        .iter()
        .flat_map(|&id| tokenizer.vocab()[id as usize].clone())
        .collect();

    assert_eq!(b"abcabc".to_vec(), bytes.iter().copied().filter(|&b| b != b' ').collect::<Vec<u8>>());
}

#[test]
fn bytes_that_are_no_text_are_marked() {
    let tokenizer = abc_tokenizer();

    assert_eq!("\u{fffd}", tokenizer.decode(&[0xff]));
}

#[test]
fn unknown_byte_pair_ids_are_passed_over() {
    let tokenizer = abc_tokenizer();

    assert_eq!("ab", tokenizer.decode(&[256, 9999]));
}

#[test]
fn a_text_has_one_encoding() {
    let tokenizer = CharTokenizer::from_text("hello");
    let copy = tokenizer.clone();

    assert_eq!(tokenizer.encode("hole"), copy.encode("hole"));
    assert_ne!(tokenizer.encode("hole"), tokenizer.encode("helo"));
}

#[test]
fn runtime_tokenizers_agree_with_what_they_wrap() {
    let tokenizer = RuntimeTokenizer::char_from_text("abcdefg");

    assert_eq!(7, tokenizer.vocab_size());
    assert_eq!(Ok(vec![0, 1]), tokenizer.try_encode("ab"));
    assert_eq!(
        Err("unknown character: 'z'".to_string()),
        tokenizer.try_encode("az")
    );
    assert_eq!("cab", tokenizer.clone().decode(&[2, 0, 1]));
}

fn merge_counts(events: &[BpeTrainingEvent]) -> Vec<usize> {
    events
        .iter()
        .filter_map(|event| match event {
            BpeTrainingEvent::Merge { count, .. } => Some(*count),
            _ => None,
        })
        .collect()
}

#[test]
fn the_events_of_a_run_are_listed_in_order() {
    let (tokenizer, events) = BpeTrainer::new(258).train_with_events("banana banana banana");
    let merges = tokenizer.merges();

    assert_eq!(
        vec![
            BpeTrainingEvent::Started {
                target_vocab_size: 258,
                initial_vocab_size: 256,
                word_count: 3,
            },
            BpeTrainingEvent::Merge {
                merge_index: 0,
                vocab_size: 257,
                pair: merges[0].0,
                new_token_id: 256,
                count: 6,
            },
            BpeTrainingEvent::Merge {
                merge_index: 1,
                vocab_size: 258,
                pair: merges[1].0,
                new_token_id: 257,
                count: 3,
            },
            BpeTrainingEvent::Completed {
                target_vocab_size: 258,
                final_vocab_size: 258,
                merge_count: 2,
                reason: BpeTrainingStopReason::TargetVocabSizeReached,
            },
        ],
        events
    );
}

#[test]
fn an_observer_is_handed_the_list_of_events() {
    for (target, corpus) in [
        (270, "the quick brown fox jumps over the lazy dog the quick the"),
        (300, "a b"),
        (300, "ab cd"),
        (100, "aa aa"),
        (400, "low lower lowest new newer newest"),
    ] {
        let trainer = BpeTrainer::new(target);
        let mut told = Vec::new();
        let watched = trainer.train_with_observer(corpus, |event| told.push(event));
        let (listed, events) = trainer.train_with_events(corpus);

        assert_eq!(events, told);
        assert_eq!(listed.merges(), watched.merges());
    }
}

#[test]
fn merge_counts_never_rise() {
    let (_, events) = BpeTrainer::new(300).train_with_events(
        "she sells sea shells by the sea shore the shells she sells are sea shells",
    );
    let counts = merge_counts(&events);

    assert!(counts.len() > 3);
    assert!(counts.windows(2).all(|pair| pair[1] <= pair[0]));
    assert!(counts.iter().all(|&count| count >= 2));
}

#[test]
fn no_vocabulary_size_is_too_large_for_a_short_text() {
    let tokenizer = BpeTrainer::new(usize::MAX).train("banana bandana banana");

    assert_eq!("banana", tokenizer.decode(&tokenizer.encode("banana")));
    assert!(tokenizer.vocab_size() < 256 + "bananabandanabanana".len());
}

#[test]
fn words_are_encoded_one_by_one() {
    let tokenizer = BpeTrainer::new(290).train("low lower lowest new newer newest");
    let mut parts = tokenizer.encode("lowest  new");
    parts.extend(tokenizer.encode("er \n low"));

    assert_eq!(parts, tokenizer.encode("lowest  new\t \u{a0}er \n low"));
}

#[test]
fn encodings_stay_in_the_vocabulary_and_leave_no_merge() {
    let tokenizer = BpeTrainer::new(290).train("low lower lowest new newer newest");

    for word in ["lowest", "newer", "unseen", "größer"] {
        let ids = tokenizer.encode(word);
        assert!(ids.iter().all(|&id| (id as usize) < tokenizer.vocab_size()));
        for pair in ids.windows(2) {
            assert!(tokenizer.merges().iter().all(|merge| merge.0 != (pair[0], pair[1])));
        }
    }
}

#[test]
fn both_ways_to_encode_characters_agree() {
    let tokenizer = CharTokenizer::from_text("hello world");
    let wrapped = RuntimeTokenizer::char_from_text("hello world");

    assert_eq!(Ok(tokenizer.encode("low")), tokenizer.try_encode("low"));
    assert_eq!(Ok(wrapped.encode("low")), wrapped.try_encode("low"));
}

#[test]
fn a_repeated_word_carries_training() {
    for target in 256..260 {
        let tokenizer = BpeTrainer::new(target).train("banana banana");
        assert_eq!(target, tokenizer.vocab_size());
    }
}

#[test]
fn what_is_loaded_is_what_was_saved() {
    let saved = BpeTrainer::new(258).train("banana banana banana");
    let loaded = RuntimeTokenizer::load_bpe(saved.merges().clone(), saved.vocab().clone());

    assert_eq!("bpe", loaded.kind());
    assert_eq!(258, loaded.vocab_size());
    for text in ["banana", "bandana  ban", "", "größer"] {
        let ids: Vec<usize> = saved.encode(text).iter().map(|&id| id as usize).collect();
        assert_eq!(ids, loaded.encode(text));
        assert_eq!(saved.decode(&saved.encode(text)), loaded.decode(&ids));
    }
    assert_eq!("banana", loaded.decode(&loaded.encode("banana")));
}

use rusty_gpt::loader::data::{DataLoader, SamplingPolicy};

#[test]
fn next_batch_returns_requested_shape_when_enough_tokens_exist() {
    let loader = DataLoader {
        tokens: vec![0, 1, 2, 3, 4, 5],
        block_size: 2,
        batch_size: 3,
    };

    let batch = loader.next_raw_batch().unwrap();

    assert_eq!([3, 2], batch.shape);
    assert_eq!(6, batch.inputs.len());
    assert_eq!(6, batch.targets.len());
}

#[test]
fn next_batch_targets_are_inputs_shifted_by_one_token() {
    let loader = DataLoader {
        tokens: vec![10, 20, 30],
        block_size: 2,
        batch_size: 1,
    };

    let batch = loader.next_raw_batch().unwrap();

    assert_eq!(vec![10, 20], batch.inputs);
    assert_eq!(vec![20, 30], batch.targets);
}

#[test]
fn next_batch_returns_error_when_tokens_are_too_short() {
    let loader = DataLoader {
        tokens: vec![0, 1],
        block_size: 2,
        batch_size: 1,
    };

    let err = loader
        .next_raw_batch()
        .expect_err("short token stream should fail");

    assert!(err.contains("not enough tokens"));
    assert_eq!(
        "not enough tokens to build a batch: got 2, need at least 3",
        err
    );
}

#[test]
fn sequential_policy_advances_by_step() {
    let loader = DataLoader {
        tokens: (0..20).collect(),
        block_size: 2,
        batch_size: 2,
    };

    let first = loader
        .next_raw_batch_with_policy(SamplingPolicy::Sequential, 0)
        .unwrap();
    let second = loader
        .next_raw_batch_with_policy(SamplingPolicy::Sequential, 1)
        .unwrap();

    assert_eq!(vec![0, 1, 2, 3], first.inputs);
    assert_eq!(vec![4, 5, 6, 7], second.inputs);
}

#[test]
fn shuffled_chunks_policy_is_deterministic_for_step() {
    let loader = DataLoader {
        tokens: (0..20).collect(),
        block_size: 2,
        batch_size: 2,
    };

    let first = loader
        .next_raw_batch_with_policy(SamplingPolicy::ShuffledChunks, 3)
        .unwrap();
    let second = loader
        .next_raw_batch_with_policy(SamplingPolicy::ShuffledChunks, 3)
        .unwrap();

    assert_eq!(first.inputs, second.inputs);
}

#[test]
fn sequential_windows_start_over_at_the_end() {
    let loader = DataLoader {
        tokens: (0..5).collect(),
        block_size: 2,
        batch_size: 1,
    };

    let batch = loader
        .next_raw_batch_with_policy(SamplingPolicy::Sequential, 2)
        .unwrap();

    // Three places for a window, and the third step would begin at token 4.
    assert_eq!(vec![1, 2], batch.inputs);
    assert_eq!(vec![2, 3], batch.targets);
}

#[test]
fn random_windows_lie_anywhere_in_the_stream() {
    let loader = DataLoader {
        tokens: (0..50).collect(),
        block_size: 3,
        batch_size: 200,
    };

    let starts = loader.starts(SamplingPolicy::RandomWindow, 0);

    assert_eq!(200, starts.len());
    assert!(starts.iter().all(|&start| start < 47));
    // Two hundred draws out of 47 places are not all the same one.
    assert!(starts.iter().any(|&start| start != starts[0]));
}

#[test]
fn every_target_is_the_token_after_its_input() {
    let loader = DataLoader {
        tokens: (0..30).map(|n| n * n).collect(),
        block_size: 4,
        batch_size: 5,
    };

    let batch = loader.next_raw_batch().unwrap();

    for row in 0..5 {
        for i in 0..3 {
            assert_eq!(batch.targets[row * 4 + i], batch.inputs[row * 4 + i + 1]);
        }
    }
}

#[test]
fn a_short_stream_is_refused_at_any_step() {
    let loader = DataLoader {
        tokens: vec![1, 2, 3],
        block_size: 3,
        batch_size: 4,
    };

    assert_eq!(
        Err("not enough tokens to build a batch: got 3, need at least 4".to_string()),
        loader
            .next_raw_batch_with_policy(SamplingPolicy::Sequential, usize::MAX)
            .map(|batch| batch.shape)
    );
}

use rusty_gpt::model::attention::{causal_cache_mask, head_dim, needs_mask, CacheLengths};
use rusty_gpt::model::definitions::{
    last_logits, validate_generation_prompt, CachedGeneration, CachedTurn, Generation,
};
use rusty_gpt::model::generation::{
    candidates, choose_tokens, greedy_token, GenerationOptions, TokenChoice,
};
use rusty_gpt::model::moe::router_problem;
use rusty_gpt::ranking::rank_highest_first;
use rusty_gpt::reals::ShortReal;

fn narrow(value: f32) -> ShortReal {
    ShortReal {
        bits: value.to_bits(),
    }
}

fn scores(values: &[f32]) -> Vec<ShortReal> {
    values.iter().map(|&value| narrow(value)).collect()
}

/// A model whose next token is the number of tokens that it was shown.
fn generate(
    prompt: &[usize],
    max_new_tokens: usize,
    vocab_size: usize,
    block_size: usize,
) -> Result<(Vec<usize>, Vec<usize>), String> {
    let mut run = Generation::begin(prompt, max_new_tokens, vocab_size, block_size)?;
    let mut shown = Vec::new();
    while let Some(input) = run.next_input() {
        shown.push(input.len());
        run.push(input.len() % vocab_size);
    }
    Ok((run.output, shown))
}

/// The same model, asked for as many tokens at a time as its positions allow.
fn generate_in_chunks(
    prompt: &[usize],
    max_new_tokens: usize,
    vocab_size: usize,
    block_size: usize,
) -> Result<Vec<usize>, String> {
    let mut run = Generation::begin(prompt, max_new_tokens, vocab_size, block_size)?;
    while let Some(chunk) = run.next_chunk() {
        assert!(chunk.len >= 1);
        let tokens: Vec<usize> = (0..chunk.len)
            .map(|at| (chunk.input.len() + at) % vocab_size)
            .collect();
        run.extend(&tokens);
    }
    Ok(run.output)
}

#[test]
fn minigpt_generate_appends_requested_number_of_tokens() {
    let (generated, _) = generate(&[0, 1, 2], 3, 7, 4).unwrap();

    assert_eq!(6, generated.len());
    assert_eq!(&[0, 1, 2], &generated[..3]);
    assert!(generated.iter().all(|&token| token < 7));
}

#[test]
fn minigpt_generate_crops_context_to_position_window() {
    let (generated, shown) = generate(&[0, 1, 2, 3], 1, 7, 2).unwrap();

    assert_eq!(5, generated.len());
    assert_eq!(&[0, 1, 2, 3], &generated[..4]);
    assert_eq!(vec![2], shown);
}

#[test]
fn minigpt_generate_rejects_empty_prompt() {
    let err = generate(&[], 1, 7, 4).expect_err("empty prompt should fail");

    assert!(err.contains("prompt must contain at least one token"));
}

#[test]
fn minigpt_option_bearing_generation_preserves_prompt_validation() {
    let uncached_err = generate(&[0, 7], 1, 7, 4).expect_err("out-of-vocab prompt should fail");
    let cached_err =
        generate_in_chunks(&[0, 7], 1, 7, 4).expect_err("out-of-vocab prompt should fail");

    assert_eq!(uncached_err, cached_err);
    assert!(uncached_err.contains("outside the model vocab size 7"));
}

#[test]
fn minigpt_generate_cached_zero_tokens_returns_empty_output() {
    assert!(generate_cached(&[0, 1, 2], 0, 7).0.is_empty());
    assert_eq!(vec![0, 1, 2], generate_in_chunks(&[0, 1, 2], 0, 7, 4).unwrap());
    assert_eq!(vec![0, 1, 2], generate(&[0, 1, 2], 0, 7, 4).unwrap().0);
}

/// A model with a cache, whose next token is the number of tokens that it has taken in.
fn generate_cached(prompt: &[i64], max_new: usize, vocab_size: usize) -> (Vec<usize>, Vec<i64>) {
    let mut cache = CacheLengths::empty(2);
    let mut run = CachedGeneration::begin(max_new);
    let mut positions = Vec::new();
    while let Some(turn) = run.next_turn() {
        let taken = match turn {
            CachedTurn::Prompt => prompt.len(),
            CachedTurn::Token(_) => 1,
        };
        cache.check(2).unwrap();
        positions.extend(cache.positions(taken));
        cache.extend(taken);
        run.push(cache.len() % vocab_size);
    }
    (run.generated, positions)
}

#[test]
fn minigpt_generate_cached_returns_requested_number_of_tokens() {
    let (generated, positions) = generate_cached(&[0, 1, 2], 3, 7);

    assert_eq!(3, generated.len());
    assert!(generated.iter().all(|&token| token < 7));
    assert_eq!(vec![0, 1, 2, 3, 4], positions);
}

#[test]
fn minigpt_generate_cached_matches_uncached_greedy_generation() {
    let prompt = [0, 1, 2];

    let (generated, _) = generate_cached(&[0, 1, 2], 3, 7);
    let (uncached, _) = generate(&prompt, 3, 7, 6).unwrap();

    assert_eq!(uncached[prompt.len()..], generated);
}

#[test]
fn caches_have_one_entry_per_block() {
    assert_eq!(
        Err("KV cache must have one entry per transformer block"),
        CacheLengths::empty(2).check(3)
    );
    let mut none = CacheLengths::empty(0);
    none.extend(4);
    assert_eq!(0, none.len());
    assert_eq!(vec![0, 1], none.positions(2));
}

#[test]
fn minigpt_generate_with_cache_preserves_prompt_and_appends_tokens() {
    let generated = generate_in_chunks(&[0, 1, 2], 3, 7, 6).unwrap();

    assert_eq!(6, generated.len());
    assert_eq!(&[0, 1, 2], &generated[..3]);
    assert!(generated.iter().all(|&token| token < 7));
}

#[test]
fn minigpt_generate_with_cache_handles_full_context_windows() {
    let generated = generate_in_chunks(&[0, 1, 2, 3], 2, 7, 4).unwrap();

    assert_eq!(6, generated.len());
    assert_eq!(&[0, 1, 2, 3], &generated[..4]);
    assert!(generated.iter().all(|&token| token < 7));
}

#[test]
fn prompts_are_held_to_the_vocabulary() {
    assert!(validate_generation_prompt(&[0, 6], 7).is_ok());
    assert!(validate_generation_prompt(&[7], 7).is_err());
}

#[test]
fn only_the_last_position_is_sampled() {
    assert_eq!(&[4, 5], last_logits(&[0, 1, 2, 3, 4, 5], 3, 2));
}

#[test]
fn the_highest_score_wins() {
    assert_eq!(1, greedy_token(&scores(&[0.5, 2.0, -1.0])));
    assert_eq!(2, greedy_token(&scores(&[-3.0, -2.0, -1.0])));
    // Of equal scores the last is taken.
    assert_eq!(2, greedy_token(&scores(&[1.0, 0.0, 1.0])));
}

#[test]
fn candidates_come_highest_first() {
    let list = scores(&[0.5, 2.0, -1.0, 2.0]);

    assert_eq!(vec![1, 3, 0, 2], candidates(&list, None));
    assert_eq!(vec![1, 3], candidates(&list, Some(2)));
    assert_eq!(vec![1], candidates(&list, Some(0)));
    assert_eq!(vec![1, 3, 0, 2], candidates(&list, Some(99)));
}

#[test]
fn a_temperature_of_zero_is_greedy() {
    let list = scores(&[0.5, 2.0, -1.0]);
    assert_eq!(
        TokenChoice::Fixed(1),
        choose_tokens(&list, &GenerationOptions::greedy())
    );
    let warm = GenerationOptions::sampling(narrow(0.8), Some(2)).unwrap();
    assert_eq!(TokenChoice::Among(vec![1, 0]), choose_tokens(&list, &warm));
}

#[test]
fn sampling_options_are_checked() {
    assert_eq!(
        "temperature must be greater than zero",
        GenerationOptions::sampling(narrow(0.0), None).unwrap_err()
    );
    assert_eq!(
        "top_k must be greater than zero",
        GenerationOptions::sampling(narrow(1.0), Some(0)).unwrap_err()
    );
}

#[test]
fn rankings_leave_out_what_has_no_key() {
    assert_eq!(
        vec![2, 0],
        rank_highest_first(&vec![Some(1), None, Some(5)])
    );
}

#[test]
fn multi_head_attention_causal_cache_mask_allows_cached_tokens_and_blocks_future_new_tokens() {
    let mask = causal_cache_mask(1, 1, 2, 5);

    assert_eq!(
        vec![false, false, false, false, true, false, false, false, false, false],
        mask
    );
}

#[test]
fn masks_repeat_for_every_head() {
    let one = causal_cache_mask(1, 1, 2, 3);
    let four = causal_cache_mask(2, 2, 2, 3);

    assert_eq!(24, four.len());
    for part in four.chunks(6) {
        assert_eq!(one, part);
    }
    assert!(needs_mask(2, 2));
    assert!(!needs_mask(1, 5));
}

#[test]
#[should_panic(expected = "d_model must be divisible by num_heads")]
fn multi_head_attention_requires_even_head_split() {
    if let Err(problem) = head_dim(7, 2) {
        panic!("{problem}");
    }
}

#[test]
fn heads_share_the_model_evenly() {
    assert_eq!(Ok(4), head_dim(8, 2));
}

#[test]
#[should_panic(expected = "num_experts must be greater than zero")]
fn router_rejects_zero_experts() {
    if let Some(problem) = router_problem(0, 1) {
        panic!("{problem}");
    }
}

#[test]
#[should_panic(expected = "top_k must be greater than zero")]
fn router_rejects_zero_top_k() {
    if let Some(problem) = router_problem(4, 0) {
        panic!("{problem}");
    }
}

#[test]
#[should_panic(expected = "top_k must not exceed num_experts")]
fn router_rejects_top_k_larger_than_num_experts() {
    if let Some(problem) = router_problem(2, 3) {
        panic!("{problem}");
    }
}

#[test]
fn routers_take_as_many_experts_as_there_are() {
    assert_eq!(None, router_problem(4, 4));
}

//! Model shapes, and the loop that grows a text: which tokens the model sees at each turn, and how
//! many it is asked for.
use vstd::prelude::*;

use crate::reals::Real;
use crate::text;

verus! {

/// The shape of a MiniGPT.
#[derive(Debug, Clone, Copy, PartialEq, Eq, Structural)]
pub struct MiniGptConfig {
    pub vocab_size: usize,
    pub d_model: usize,
    pub num_blocks: usize,
    pub max_position_embeddings: usize,
    pub num_heads: usize,
}

/// The shape of a model whose blocks choose among experts.
#[derive(Debug, Clone, Copy, PartialEq, Eq, Structural)]
pub struct MoeGptConfig {
    pub base: MiniGptConfig,
    pub num_experts: usize,
    pub top_k: usize,
    pub aux_loss_weight: Real,
}

/// The place of the first token outside the vocabulary, or the length of the prompt.
pub open spec fn first_unknown(prompt: Seq<usize>, vocab_size: usize) -> int
    decreases prompt.len(),
{
    if prompt.len() == 0 || prompt[0] >= vocab_size {
        0
    } else {
        1 + first_unknown(prompt.skip(1), vocab_size)
    }
}

/// Why a prompt is refused, if it is.
pub open spec fn prompt_problem(prompt: Seq<usize>, vocab_size: usize) -> Option<Seq<char>> {
    let k = first_unknown(prompt, vocab_size);
    if prompt.len() == 0 {
        Some("prompt must contain at least one token"@)
    } else if k < prompt.len() {
        Some(
            "prompt token "@ + text::decimal(prompt[k] as nat)
                + " is outside the model vocab size "@ + text::decimal(vocab_size as nat),
        )
    } else {
        None
    }
}

proof fn lemma_first_unknown_is(prompt: Seq<usize>, vocab_size: usize, k: int)
    requires
        0 <= k <= prompt.len(),
        forall|i: int| 0 <= i < k ==> #[trigger] prompt[i] < vocab_size,
        k < prompt.len() ==> prompt[k] >= vocab_size,
    ensures
        first_unknown(prompt, vocab_size) == k,
    decreases k,
{
    if k > 0 {
        let rest = prompt.skip(1);
        assert forall|i: int| 0 <= i < k - 1 implies #[trigger] rest[i] < vocab_size by {
            assert(rest[i] == prompt[i + 1]);
        }
        assert(k < prompt.len() ==> rest[k - 1] == prompt[k]);
        lemma_first_unknown_is(rest, vocab_size, k - 1);
    }
}

/// Refuses an empty prompt and one with a token outside the vocabulary.
pub fn validate_generation_prompt(prompt: &[usize], vocab_size: usize) -> (r: Result<(), String>)
    ensures
        match r {
            Ok(_) => prompt_problem(prompt@, vocab_size) is None,
            Err(message) => prompt_problem(prompt@, vocab_size) == Some(message@),
        },
{
    if prompt.len() == 0 {
        return Err("prompt must contain at least one token".to_owned());
    }
    let mut i: usize = 0;
    while i < prompt.len()
        invariant
            i <= prompt@.len(),
            prompt@.len() > 0,
            forall|j: int| 0 <= j < i ==> #[trigger] prompt@[j] < vocab_size,
        decreases prompt.len() - i,
    {
        if prompt[i] >= vocab_size {
            proof {
                lemma_first_unknown_is(prompt@, vocab_size, i as int);
            }
            let mut message = "prompt token ".to_owned();
            message.append(text::usize_text(prompt[i]).as_str());
            message.append(" is outside the model vocab size ");
            message.append(text::usize_text(vocab_size).as_str());
            return Err(message);
        }
        i += 1;
    }
    proof {
        lemma_first_unknown_is(prompt@, vocab_size, i as int);
    }
    Ok(())
}

/// A prompt is accepted exactly where it holds a token and every token is in the vocabulary.
pub proof fn law_accepted_prompts(prompt: Seq<usize>, vocab_size: usize)
    ensures
        prompt_problem(prompt, vocab_size) is None <==> prompt.len() > 0 && forall|i: int|
            0 <= i < prompt.len() ==> #[trigger] prompt[i] < vocab_size,
{
    lemma_first_unknown(prompt, vocab_size);
    if forall|i: int| 0 <= i < prompt.len() ==> #[trigger] prompt[i] < vocab_size {
        lemma_first_unknown_is(prompt, vocab_size, prompt.len() as int);
    }
}

proof fn lemma_first_unknown(prompt: Seq<usize>, vocab_size: usize)
    ensures
        0 <= first_unknown(prompt, vocab_size) <= prompt.len(),
        first_unknown(prompt, vocab_size) < prompt.len() ==> prompt[first_unknown(
            prompt,
            vocab_size,
        )] >= vocab_size,
        forall|i: int|
            0 <= i < first_unknown(prompt, vocab_size) ==> #[trigger] prompt[i] < vocab_size,
    decreases prompt.len(),
{
    if prompt.len() > 0 && prompt[0] < vocab_size {
        let rest = prompt.skip(1);
        lemma_first_unknown(rest, vocab_size);
        assert forall|i: int| 0 <= i < first_unknown(prompt, vocab_size) implies #[trigger] prompt[i]
            < vocab_size by {
            if i > 0 {
                assert(prompt[i] == rest[i - 1]);
            }
        }
    }
}

// ---------------------------------------------------------------------------------------
// Growing a text
// ---------------------------------------------------------------------------------------

/// The last `block_size` tokens, or all where there are fewer.
pub open spec fn window(tokens: Seq<usize>, block_size: usize) -> Seq<usize> {
    if tokens.len() > block_size {
        tokens.skip(tokens.len() - block_size)
    } else {
        tokens
    }
}

/// Tokens as the model takes them.
pub open spec fn model_input(tokens: Seq<usize>) -> Seq<i64> {
    Seq::new(tokens.len(), |i: int| tokens[i] as i64)
}

/// How many tokens the model is asked for at once: as many as are wanted and as its positions have
/// room for behind the window, and at least one.
pub open spec fn chunk_len(window_len: int, remaining: int, block_size: int) -> int {
    let room = if block_size > window_len + 1 {
        block_size - window_len
    } else {
        1
    };
    if remaining < room {
        remaining
    } else {
        room
    }
}

/// What the model is to continue, and by how many tokens.
#[derive(Debug, PartialEq, Eq)]
pub struct Chunk {
    pub input: Vec<i64>,
    pub len: usize,
}

/// A text that is being grown.
#[derive(Debug, PartialEq, Eq)]
pub struct Generation {
    /// The prompt and what was generated so far.
    pub output: Vec<usize>,
    /// How many tokens are still wanted.
    pub remaining: usize,
    /// How many tokens the model can see.
    pub block_size: usize,
}

impl Generation {
    /// A text that starts with a prompt.
    pub fn begin(
        prompt: &[usize],
        max_new_tokens: usize,
        vocab_size: usize,
        block_size: usize,
    ) -> (r: Result<Generation, String>)
        ensures
            match r {
                Ok(g) => {
                    &&& prompt_problem(prompt@, vocab_size) is None
                    &&& g.output@ == prompt@
                    &&& g.remaining == max_new_tokens
                    &&& g.block_size == block_size
                },
                Err(message) => prompt_problem(prompt@, vocab_size) == Some(message@),
            },
    {
        match validate_generation_prompt(prompt, vocab_size) {
            Ok(_) => {},
            Err(message) => {
                return Err(message);
            },
        }
        let mut output: Vec<usize> = Vec::new();
        let mut i: usize = 0;
        while i < prompt.len()
            invariant
                i <= prompt@.len(),
                output@ =~= prompt@.take(i as int),
            decreases prompt.len() - i,
        {
            output.push(prompt[i]);
            i += 1;
        }
        Ok(Generation { output, remaining: max_new_tokens, block_size })
    }

    fn window_input(&self) -> (input: Vec<i64>)
        ensures
            input@ == model_input(window(self.output@, self.block_size)),
    {
        let start: usize = if self.output.len() > self.block_size {
            self.output.len() - self.block_size
        } else {
            0
        };
        let ghost seen = window(self.output@, self.block_size);
        let mut input: Vec<i64> = Vec::new();
        let mut i: usize = start;
        while i < self.output.len()
            invariant
                start <= i <= self.output@.len(),
                seen =~= self.output@.skip(start as int),
                input@ =~= model_input(seen).take(i - start),
            decreases self.output.len() - i,
        {
            assert(seen[i - start] == self.output@[i as int]);
            input.push(self.output[i] as i64);
            i += 1;
        }
        input
    }

    /// What the model sees for the next token, while one is wanted.
    pub fn next_input(&self) -> (input: Option<Vec<i64>>)
        ensures
            match input {
                Some(v) => self.remaining > 0 && v@ == model_input(
                    window(self.output@, self.block_size),
                ),
                None => self.remaining == 0,
            },
    {
        if self.remaining == 0 {
            None
        } else {
            Some(self.window_input())
        }
    }

    /// What the model sees for the next tokens, and how many it is asked for, while any are wanted.
    pub fn next_chunk(&self) -> (chunk: Option<Chunk>)
        ensures
            match chunk {
                Some(c) => {
                    &&& self.remaining > 0
                    &&& c.input@ == model_input(window(self.output@, self.block_size))
                    &&& c.len == chunk_len(
                        window(self.output@, self.block_size).len() as int,
                        self.remaining as int,
                        self.block_size as int,
                    )
                },
                None => self.remaining == 0,
            },
    {
        if self.remaining == 0 {
            return None;
        }
        let input = self.window_input();
        let available: usize = self.block_size.saturating_sub(input.len());
        let room: usize = if available > 1 {
            available
        } else {
            1
        };
        let len: usize = if self.remaining < room {
            self.remaining
        } else {
            room
        };
        Some(Chunk { input, len })
    }

    /// Takes a generated token in.
    pub fn push(&mut self, token: usize)
        requires
            old(self).remaining > 0,
        ensures
            final(self).output@ == old(self).output@.push(token),
            final(self).remaining == old(self).remaining - 1,
            final(self).block_size == old(self).block_size,
    {
        self.output.push(token);
        self.remaining = self.remaining - 1;
    }

    /// Takes generated tokens in.
    pub fn extend(&mut self, tokens: &[usize])
        requires
            tokens@.len() <= old(self).remaining,
        ensures
            final(self).output@ == old(self).output@ + tokens@,
            final(self).remaining == old(self).remaining - tokens@.len(),
            final(self).block_size == old(self).block_size,
    {
        let ghost before = self.output@;
        let mut i: usize = 0;
        while i < tokens.len()
            invariant
                i <= tokens@.len(),
                self.output@ =~= before + tokens@.take(i as int),
                self.remaining == old(self).remaining,
                self.block_size == old(self).block_size,
            decreases tokens.len() - i,
        {
            self.output.push(tokens[i]);
            i += 1;
        }
        assert(tokens@.take(i as int) =~= tokens@);
        self.remaining = self.remaining - tokens.len();
    }
}

/// Every turn asks for at least one token and for no more than are wanted, so that the text comes
/// to its full length; and no token that the model takes in lies behind its last position.
pub proof fn law_chunks_fit_the_positions(tokens: Seq<usize>, remaining: int, block_size: usize)
    requires
        remaining > 0,
        tokens.len() > 0,
        block_size > 0,
    ensures
        ({
            let seen = window(tokens, block_size).len() as int;
            let len = chunk_len(seen, remaining, block_size as int);
            &&& 0 < seen <= block_size
            &&& 0 < len <= remaining
            &&& seen + len - 1 <= block_size
            &&& len == remaining || len == 1 || seen + len == block_size
            &&& seen + 1 < block_size && remaining > 1 ==> len > 1
        }),
{
}

/// What the model sees is always the end of the text.
pub proof fn law_window_is_the_end(tokens: Seq<usize>, block_size: usize)
    ensures
        window(tokens, block_size).is_suffix_of(tokens),
        window(tokens, block_size).len() == (if tokens.len() < block_size {
            tokens.len() as int
        } else {
            block_size as int
        }),
{
    if tokens.len() > block_size {
        assert(tokens.subrange(tokens.len() - block_size, tokens.len() as int) =~= window(
            tokens,
            block_size,
        ));
    } else {
        assert(tokens.subrange(0, tokens.len() as int) =~= tokens);
    }
}

/// What the model takes in next while it keeps what it has taken in before.
#[derive(Debug, Clone, Copy, PartialEq, Eq, Structural)]
pub enum CachedTurn {
    /// The whole prompt.
    Prompt,
    /// The token that it has just chosen.
    Token(i64),
}

/// Tokens that are being generated behind a prompt which the model takes in only once.
#[derive(Debug, PartialEq, Eq)]
pub struct CachedGeneration {
    pub generated: Vec<usize>,
    pub wanted: usize,
}

/// What the model takes in at a turn, counted from zero: the prompt first, and then each token
/// that it chose.
pub open spec fn turn_input(prompt: Seq<usize>, generated: Seq<usize>, turn: int) -> Seq<usize> {
    if turn == 0 {
        prompt
    } else {
        seq![generated[turn - 1]]
    }
}

/// All that the model has taken in after some turns.
pub open spec fn taken_in(prompt: Seq<usize>, generated: Seq<usize>, turns: nat) -> Seq<usize>
    decreases turns,
{
    if turns == 0 {
        Seq::empty()
    } else {
        taken_in(prompt, generated, (turns - 1) as nat) + turn_input(prompt, generated, turns - 1)
    }
}

impl CachedGeneration {
    /// Nothing generated yet.
    pub fn begin(max_new: usize) -> (run: CachedGeneration)
        ensures
            run.generated@ == Seq::<usize>::empty(),
            run.wanted == max_new,
    {
        CachedGeneration { generated: Vec::new(), wanted: max_new }
    }

    /// What the model takes in for the next token, while one is wanted: see [`turn_input`].
    pub fn next_turn(&self) -> (turn: Option<CachedTurn>)
        ensures
            match turn {
                None => self.generated@.len() >= self.wanted,
                Some(CachedTurn::Prompt) => self.generated@.len() == 0 && self.wanted > 0,
                Some(CachedTurn::Token(t)) => 0 < self.generated@.len() < self.wanted
                    && model_input(
                    turn_input(Seq::empty(), self.generated@, self.generated@.len() as int),
                ) == seq![t],
            },
    {
        let n: usize = self.generated.len();
        if n >= self.wanted {
            return None;
        }
        if n == 0 {
            return Some(CachedTurn::Prompt);
        }
        let token = self.generated[n - 1] as i64;
        assert(model_input(turn_input(Seq::empty(), self.generated@, n as int)) =~= seq![token]);
        Some(CachedTurn::Token(token))
    }

    /// Takes the token in that was chosen.
    pub fn push(&mut self, token: usize)
        requires
            old(self).generated@.len() < old(self).wanted,
        ensures
            final(self).generated@ == old(self).generated@.push(token),
            final(self).wanted == old(self).wanted,
    {
        self.generated.push(token);
    }
}

/// When a token is chosen, the model has taken in the whole text before it, turn by turn: the same
/// tokens that it would be shown at once without a cache, as long as they fit into what it can
/// see.
pub proof fn law_cached_turns_show_the_whole_text(
    prompt: Seq<usize>,
    generated: Seq<usize>,
    k: nat,
    block_size: usize,
)
    requires
        k <= generated.len(),
    ensures
        taken_in(prompt, generated, k + 1) == prompt + generated.take(k as int),
        prompt.len() + k <= block_size ==> taken_in(prompt, generated, k + 1) == window(
            prompt + generated.take(k as int),
            block_size,
        ),
    decreases k,
{
    let whole = prompt + generated.take(k as int);
    if k == 0 {
        assert(taken_in(prompt, generated, 0) =~= Seq::<usize>::empty());
        assert(taken_in(prompt, generated, 1) =~= whole);
    } else {
        law_cached_turns_show_the_whole_text(prompt, generated, (k - 1) as nat, block_size);
        assert(taken_in(prompt, generated, k + 1) =~= whole);
    }
}

/// The scores of the last position: the last row of a table with one row for each position.
pub fn last_logits<T>(logits: &[T], seq_len: usize, vocab_size: usize) -> (row: &[T])
    requires
        seq_len > 0,
        seq_len * vocab_size <= logits@.len(),
    ensures
        row@ == logits@.subrange((seq_len - 1) * vocab_size, seq_len * vocab_size),
{
    assert((seq_len - 1) * vocab_size + vocab_size == seq_len * vocab_size) by (nonlinear_arith)
        requires
            seq_len > 0,
    ;
    assert((seq_len - 1) * vocab_size >= 0) by (nonlinear_arith)
        requires
            seq_len > 0,
    ;
    let len: usize = logits.len();
    let start: usize = (seq_len - 1) * vocab_size;
    vstd::slice::slice_subrange(logits, start, start + vocab_size)
}

/// A refused prompt is named by its first token outside the vocabulary: all tokens before it are in
/// the vocabulary.
pub proof fn law_the_first_unknown_token_is_named(prompt: Seq<usize>, vocab_size: usize)
    ensures
        ({
            let k = first_unknown(prompt, vocab_size);
            &&& 0 <= k <= prompt.len()
            &&& k < prompt.len() ==> prompt[k] >= vocab_size
            &&& forall|i: int| 0 <= i < k ==> #[trigger] prompt[i] < vocab_size
        }),
    decreases prompt.len(),
{
    if prompt.len() > 0 && prompt[0] < vocab_size {
        let rest = prompt.skip(1);
        law_the_first_unknown_token_is_named(rest, vocab_size);
        let k = first_unknown(prompt, vocab_size);
        assert forall|i: int| 0 <= i < k implies #[trigger] prompt[i] < vocab_size by {
            if i > 0 {
                assert(rest[i - 1] == prompt[i]);
            }
        }
        if k < prompt.len() {
            assert(rest[k - 1] == prompt[k]);
        }
    }
}

/// The model is shown the tokens themselves, in their order.
pub proof fn law_the_model_is_shown_the_tokens(tokens: Seq<usize>, i: int)
    requires
        0 <= i < tokens.len(),
        tokens[i] <= i64::MAX,
    ensures
        model_input(tokens).len() == tokens.len(),
        model_input(tokens)[i] == tokens[i],
{
}

/// The refusal of a prompt tells the token that is not known and the size of the vocabulary.
pub proof fn law_refused_prompts_are_explained(prompt: Seq<usize>, vocab_size: usize)
    requires
        prompt_problem(prompt, vocab_size) is Some,
        prompt.len() > 0,
    ensures
        ({
            let message = prompt_problem(prompt, vocab_size)->Some_0;
            exists|k: int|
                0 <= k < prompt.len() && #[trigger] prompt[k] >= vocab_size && (
                "prompt token "@ + text::decimal(prompt[k] as nat)).is_prefix_of(message)
                    && text::decimal(vocab_size as nat).is_suffix_of(message)
        }),
{
    law_the_first_unknown_token_is_named(prompt, vocab_size);
    let k = first_unknown(prompt, vocab_size);
    assert(prompt[k] >= vocab_size);
}

} // verus!

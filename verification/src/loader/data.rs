//! Training batches: windows of a token stream, with each target one token after its input.
use vstd::prelude::*;

use crate::chance;
use crate::text;

verus! {

/// Token windows and their targets, row by row.
#[derive(Debug)]
pub struct RawTokenBatch {
    pub inputs: Vec<i64>,
    pub targets: Vec<i64>,
    pub shape: [usize; 2],
}

/// How the windows of a batch are placed.
#[derive(Debug, Clone, Copy, PartialEq, Eq, Structural)]
pub enum SamplingPolicy {
    /// Anywhere, by chance.
    RandomWindow,
    /// One after the other, starting over at the end.
    Sequential,
    /// Scattered, and the same for the same step.
    ShuffledChunks,
}

/// A token stream and the shape of the batches that are cut from it.
#[derive(Clone)]
pub struct DataLoader {
    pub tokens: Vec<usize>,
    /// Context length.
    pub block_size: usize,
    pub batch_size: usize,
}

/// The tokens of one window.
pub open spec fn window(tokens: Seq<usize>, start: int, block_size: int) -> Seq<i64> {
    Seq::new(block_size as nat, |j: int| tokens[start + j] as i64)
}

/// The windows at `starts`, each moved on by `shift`, one after the other.
pub open spec fn windows(
    tokens: Seq<usize>,
    starts: Seq<usize>,
    block_size: int,
    shift: int,
) -> Seq<i64>
    decreases starts.len(),
{
    if starts.len() == 0 {
        Seq::empty()
    } else {
        windows(tokens, starts.drop_last(), block_size, shift) + window(
            tokens,
            starts.last() + shift,
            block_size,
        )
    }
}

/// Whether `batch` holds the windows of `tokens` at `starts`, with targets one token later.
pub open spec fn is_batch(
    batch: RawTokenBatch,
    tokens: Seq<usize>,
    starts: Seq<usize>,
    block_size: usize,
) -> bool {
    &&& batch.inputs@ == windows(tokens, starts, block_size as int, 0)
    &&& batch.targets@ == windows(tokens, starts, block_size as int, 1)
    &&& batch.shape[0] == starts.len()
    &&& batch.shape[1] == block_size
}

/// The message about a stream that holds no whole window with its target.
pub open spec fn too_few_tokens_text(have: nat, block_size: nat) -> Seq<char> {
    "not enough tokens to build a batch: got "@ + text::decimal(have) + ", need at least "@
        + text::decimal(block_size + 1)
}

impl DataLoader {
    /// How many window positions there are.
    pub open spec fn positions(self) -> int {
        self.tokens@.len() - self.block_size
    }

    /// Whether the number of the last window of a step can be computed.
    pub open spec fn step_fits(self, policy: SamplingPolicy, step: usize) -> bool {
        let last = step * self.batch_size + self.batch_size - 1;
        match policy {
            SamplingPolicy::RandomWindow => true,
            SamplingPolicy::Sequential => self.batch_size == 0 || (last <= usize::MAX && last
                * self.block_size <= usize::MAX),
            SamplingPolicy::ShuffledChunks => self.batch_size == 0 || last <= usize::MAX,
        }
    }

    /// Where window `item` of a step starts, for the policies that do not leave it to chance.
    pub open spec fn fixed_start(self, policy: SamplingPolicy, step: usize, item: int) -> int {
        let number = step * self.batch_size + item;
        match policy {
            SamplingPolicy::ShuffledChunks => ((number as usize).wrapping_mul(
                1_103_515_245,
            ).wrapping_add(12_345) as int) % self.positions(),
            _ => (number * self.block_size) % self.positions(),
        }
    }

    /// Whether `starts` place the windows of a step as the policy says.
    pub open spec fn starts_follow(
        self,
        policy: SamplingPolicy,
        step: usize,
        starts: Seq<usize>,
    ) -> bool {
        &&& starts.len() == self.batch_size
        &&& forall|i: int| 0 <= i < starts.len() ==> #[trigger] starts[i] < self.positions()
        &&& policy != SamplingPolicy::RandomWindow ==> forall|i: int|
            0 <= i < starts.len() ==> #[trigger] starts[i] == self.fixed_start(policy, step, i)
    }

    /// The window positions of a step.
    pub fn starts(&self, policy: SamplingPolicy, step: usize) -> (starts: Vec<usize>)
        requires
            self.tokens@.len() > self.block_size,
            self.step_fits(policy, step),
        ensures
            self.starts_follow(policy, step, starts@),
    {
        let max_start: usize = self.tokens.len() - self.block_size;
        let mut starts: Vec<usize> = Vec::new();
        let mut item: usize = 0;
        while item < self.batch_size
            invariant
                item <= self.batch_size,
                max_start == self.positions(),
                max_start > 0,
                self.step_fits(policy, step),
                starts@.len() == item,
                forall|i: int| 0 <= i < item ==> #[trigger] starts@[i] < max_start,
                policy != SamplingPolicy::RandomWindow ==> forall|i: int|
                    0 <= i < item ==> #[trigger] starts@[i] == self.fixed_start(policy, step, i),
            decreases self.batch_size - item,
        {
            let start: usize = match policy {
                SamplingPolicy::RandomWindow => chance::random_below(max_start),
                SamplingPolicy::Sequential => {
                    assert(0 <= step * self.batch_size) by (nonlinear_arith)
                        requires
                            0 <= step,
                            0 <= self.batch_size,
                    ;
                    let number: usize = step * self.batch_size + item;
                    assert(number * self.block_size <= (step * self.batch_size + self.batch_size
                        - 1) * self.block_size) by (nonlinear_arith)
                        requires
                            number <= step * self.batch_size + self.batch_size - 1,
                            0 <= self.block_size,
                    ;
                    assert(0 <= number * self.block_size) by (nonlinear_arith)
                        requires
                            0 <= number,
                            0 <= self.block_size,
                    ;
                    (number * self.block_size) % max_start
                },
                SamplingPolicy::ShuffledChunks => {
                    assert(0 <= step * self.batch_size) by (nonlinear_arith)
                        requires
                            0 <= step,
                            0 <= self.batch_size,
                    ;
                    let number: usize = step * self.batch_size + item;
                    number.wrapping_mul(1_103_515_245).wrapping_add(12_345) % max_start
                },
            };
            starts.push(start);
            item += 1;
        }
        starts
    }

    /// The batch of the windows at the given positions.
    pub fn batch_at(&self, starts: &Vec<usize>) -> (batch: RawTokenBatch)
        requires
            self.tokens@.len() > self.block_size,
            forall|i: int| 0 <= i < starts@.len() ==> #[trigger] starts@[i] < self.positions(),
        ensures
            is_batch(batch, self.tokens@, starts@, self.block_size),
    {
        let ghost tokens = self.tokens@;
        let block_size: usize = self.block_size;
        let total: usize = self.tokens.len();
        let mut inputs: Vec<i64> = Vec::new();
        let mut targets: Vec<i64> = Vec::new();
        let mut i: usize = 0;
        while i < starts.len()
            invariant
                i <= starts@.len(),
                tokens == self.tokens@,
                block_size == self.block_size,
                tokens.len() == total,
                total > block_size,
                forall|k: int| 0 <= k < starts@.len() ==> #[trigger] starts@[k] < self.positions(),
                inputs@ == windows(tokens, starts@.take(i as int), block_size as int, 0),
                targets@ == windows(tokens, starts@.take(i as int), block_size as int, 1),
            decreases starts.len() - i,
        {
            let start: usize = starts[i];
            let ghost before_inputs = inputs@;
            let ghost before_targets = targets@;
            let mut j: usize = 0;
            while j < block_size
                invariant
                    j <= block_size,
                    tokens == self.tokens@,
                    tokens.len() == total,
                    start + block_size < total,
                    inputs@ == before_inputs + window(tokens, start as int, j as int),
                    targets@ == before_targets + window(tokens, start + 1, j as int),
                decreases block_size - j,
            {
                inputs.push(self.tokens[start + j] as i64);
                targets.push(self.tokens[start + j + 1] as i64);
                proof {
                    assert(inputs@ == before_inputs + window(tokens, start as int, j + 1));
                    assert(targets@ == before_targets + window(tokens, start + 1, j + 1));
                }
                j += 1;
            }
            proof {
                assert(starts@.take(i as int + 1).drop_last() == starts@.take(i as int));
                assert(starts@.take(i as int + 1).last() == start);
            }
            i += 1;
        }
        assert(starts@.take(starts@.len() as int) == starts@);
        RawTokenBatch { inputs, targets, shape: [starts.len(), block_size] }
    }

    /// A batch of windows placed by chance.
    pub fn next_raw_batch(&self) -> (r: Result<RawTokenBatch, String>)
        requires
            self.block_size < usize::MAX,
        ensures
            match r {
                Ok(batch) => self.tokens@.len() > self.block_size && exists|starts: Seq<usize>|
                    #[trigger] self.starts_follow(SamplingPolicy::RandomWindow, 0, starts)
                        && is_batch(batch, self.tokens@, starts, self.block_size),
                Err(message) => self.tokens@.len() <= self.block_size && message@
                    == too_few_tokens_text(self.tokens@.len(), self.block_size as nat),
            },
    {
        self.next_raw_batch_with_policy(SamplingPolicy::RandomWindow, 0)
    }

    /// The batch of a step: windows placed as the policy says, with each target one token after
    /// its input. A stream that holds no window with its target is refused.
    pub fn next_raw_batch_with_policy(&self, policy: SamplingPolicy, step: usize) -> (r: Result<
        RawTokenBatch,
        String,
    >)
        requires
            self.block_size < usize::MAX,
            self.tokens@.len() > self.block_size ==> self.step_fits(policy, step),
        ensures
            match r {
                Ok(batch) => self.tokens@.len() > self.block_size && exists|starts: Seq<usize>|
                    #[trigger] self.starts_follow(policy, step, starts) && is_batch(
                        batch,
                        self.tokens@,
                        starts,
                        self.block_size,
                    ),
                Err(message) => self.tokens@.len() <= self.block_size && message@
                    == too_few_tokens_text(self.tokens@.len(), self.block_size as nat),
            },
    {
        if self.tokens.len() <= self.block_size {
            let mut message = "not enough tokens to build a batch: got ".to_owned();
            message.append(text::usize_text(self.tokens.len()).as_str());
            message.append(", need at least ");
            message.append(text::usize_text(self.block_size + 1).as_str());
            return Err(message);
        }
        let starts = self.starts(policy, step);
        let batch = self.batch_at(&starts);
        assert(self.starts_follow(policy, step, starts@));
        Ok(batch)
    }
}

proof fn lemma_windows_index(
    tokens: Seq<usize>,
    starts: Seq<usize>,
    block_size: int,
    shift: int,
    i: int,
    j: int,
)
    requires
        0 <= i < starts.len(),
        0 <= j < block_size,
    ensures
        windows(tokens, starts, block_size, shift).len() == starts.len() * block_size,
        0 <= i * block_size + j < starts.len() * block_size,
        windows(tokens, starts, block_size, shift)[i * block_size + j] == tokens[starts[i] + shift
            + j] as i64,
    decreases starts.len(),
{
    let n = starts.len() - 1;
    lemma_windows_len(tokens, starts, block_size, shift);
    lemma_windows_len(tokens, starts.drop_last(), block_size, shift);
    assert(0 <= i * block_size + j < starts.len() * block_size) by (nonlinear_arith)
        requires
            0 <= i,
            i + 1 <= starts.len(),
            0 <= j < block_size,
    ;
    if i < n {
        lemma_windows_index(tokens, starts.drop_last(), block_size, shift, i, j);
    } else {
        assert(i * block_size + j == starts.drop_last().len() * block_size + j);
    }
}

proof fn lemma_windows_len(tokens: Seq<usize>, starts: Seq<usize>, block_size: int, shift: int)
    requires
        0 <= block_size,
    ensures
        windows(tokens, starts, block_size, shift).len() == starts.len() * block_size,
    decreases starts.len(),
{
    if starts.len() > 0 {
        lemma_windows_len(tokens, starts.drop_last(), block_size, shift);
        assert((starts.len() - 1) * block_size + block_size == starts.len() * block_size)
            by (nonlinear_arith);
    }
}

/// In every row of a batch, the target at a place is the input at the next place: the targets
/// are the inputs shifted by one token.
pub proof fn law_targets_are_inputs_shifted(
    batch: RawTokenBatch,
    tokens: Seq<usize>,
    starts: Seq<usize>,
    block_size: usize,
    row: int,
    place: int,
)
    requires
        is_batch(batch, tokens, starts, block_size),
        0 <= row < starts.len(),
        0 <= place,
        place + 1 < block_size,
    ensures
        batch.inputs@.len() == starts.len() * block_size,
        batch.targets@.len() == starts.len() * block_size,
        batch.targets@[row * block_size + place] == batch.inputs@[row * block_size + place + 1],
{
    lemma_windows_index(tokens, starts, block_size as int, 1, row, place);
    lemma_windows_index(tokens, starts, block_size as int, 0, row, place + 1);
}

/// The last target of a row is the token that follows its window.
pub proof fn law_last_target_follows_the_window(
    batch: RawTokenBatch,
    tokens: Seq<usize>,
    starts: Seq<usize>,
    block_size: usize,
    row: int,
)
    requires
        is_batch(batch, tokens, starts, block_size),
        0 <= row < starts.len(),
        block_size > 0,
    ensures
        batch.targets@[row * block_size + block_size - 1] == tokens[starts[row] + block_size] as i64,
{
    lemma_windows_index(tokens, starts, block_size as int, 1, row, block_size - 1);
}

/// A batch holds the stream as it is: every input of a row is the token as far behind the start of
/// its window as the input stands in the row, and its target is the token right behind that.
pub proof fn law_batches_hold_the_stream(
    batch: RawTokenBatch,
    tokens: Seq<usize>,
    starts: Seq<usize>,
    block_size: usize,
    row: int,
    place: int,
)
    requires
        is_batch(batch, tokens, starts, block_size),
        0 <= row < starts.len(),
        0 <= place < block_size,
    ensures
        batch.shape[0] == starts.len(),
        batch.shape[1] == block_size,
        batch.inputs@.len() == starts.len() * block_size,
        batch.targets@.len() == starts.len() * block_size,
        batch.inputs@[row * block_size + place] == tokens[starts[row] + place] as i64,
        batch.targets@[row * block_size + place] == tokens[starts[row] + place + 1] as i64,
{
    lemma_windows_index(tokens, starts, block_size as int, 0, row, place);
    lemma_windows_index(tokens, starts, block_size as int, 1, row, place);
}

proof fn lemma_next_window(n: int, block: int, m: int)
    requires
        m > 0,
    ensures
        ((n + 1) * block) % m == ((n * block) % m + block) % m,
{
    vstd::arithmetic::div_mod::lemma_add_mod_noop_right(block, n * block, m);
    assert((n + 1) * block == block + n * block) by (nonlinear_arith);
}

/// A step makes as many windows as the batch has rows, and each of them fits into the stream with
/// its targets, however the windows are placed.
pub proof fn law_windows_fit_into_the_stream(
    loader: DataLoader,
    policy: SamplingPolicy,
    step: usize,
    starts: Seq<usize>,
    i: int,
)
    requires
        loader.starts_follow(policy, step, starts),
    ensures
        starts.len() == loader.batch_size,
        0 <= i < starts.len() ==> starts[i] + loader.block_size < loader.tokens@.len(),
{
}

/// Windows that are placed one after the other start at the beginning of the stream, and each
/// begins where the one before it ends; only at the end of the stream do they start over.
pub proof fn law_windows_follow_one_another(
    loader: DataLoader,
    step: usize,
    starts: Seq<usize>,
    i: int,
)
    requires
        loader.tokens@.len() > loader.block_size,
        loader.starts_follow(SamplingPolicy::Sequential, step, starts),
        0 <= i < starts.len() - 1,
    ensures
        step == 0 ==> starts[0] == 0,
        starts[i + 1] == (starts[i] + loader.block_size) % (loader.tokens@.len()
            - loader.block_size),
{
    let room = loader.tokens@.len() - loader.block_size;
    let number = step * loader.batch_size + i;
    assert(starts[0] == loader.fixed_start(SamplingPolicy::Sequential, step, 0));
    assert(starts[i] == loader.fixed_start(SamplingPolicy::Sequential, step, i));
    assert(starts[i + 1] == loader.fixed_start(SamplingPolicy::Sequential, step, i + 1));
    lemma_next_window(number, loader.block_size as int, room);
    if step == 0 {
        assert(step * loader.batch_size == 0) by (nonlinear_arith)
            requires
                step == 0,
        ;
        assert((0 * loader.block_size) % room == 0) by {
            vstd::arithmetic::div_mod::lemma_small_mod(0, room as nat);
        }
    }
}

/// The first window of a step begins where the last of the step before it ends.
pub proof fn law_steps_follow_one_another(
    loader: DataLoader,
    step: usize,
    starts: Seq<usize>,
    later: Seq<usize>,
)
    requires
        loader.tokens@.len() > loader.block_size,
        loader.batch_size > 0,
        step < usize::MAX,
        loader.starts_follow(SamplingPolicy::Sequential, step, starts),
        loader.starts_follow(SamplingPolicy::Sequential, (step + 1) as usize, later),
    ensures
        later[0] == (starts.last() + loader.block_size) % (loader.tokens@.len()
            - loader.block_size),
{
    let room = loader.tokens@.len() - loader.block_size;
    let batch = loader.batch_size as int;
    let last = batch - 1;
    let next = (step + 1) as usize;
    assert(starts[last] == loader.fixed_start(SamplingPolicy::Sequential, step, last));
    assert(later[0] == loader.fixed_start(SamplingPolicy::Sequential, next, 0));
    assert((step + 1) * batch == step * batch + last + 1) by (nonlinear_arith)
        requires
            last == batch - 1,
    ;
    lemma_next_window(step * batch + last, loader.block_size as int, room);
}

/// Scattered windows are placed by their number over the whole run alone, by a fixed formula that
/// is worked out in the range of an index.
pub proof fn law_scattered_windows_depend_on_their_number(
    loader: DataLoader,
    step: usize,
    starts: Seq<usize>,
    i: int,
)
    requires
        loader.tokens@.len() > loader.block_size,
        loader.starts_follow(SamplingPolicy::ShuffledChunks, step, starts),
        0 <= i < starts.len(),
        step * loader.batch_size + i <= usize::MAX,
    ensures
        ({
            let number = step * loader.batch_size + i;
            let range = usize::MAX + 1;
            starts[i] == (((number * 1_103_515_245) % range + 12_345) % range) % (
            loader.tokens@.len() - loader.block_size)
        }),
{
    assert(starts[i] == loader.fixed_start(SamplingPolicy::ShuffledChunks, step, i));
    assert(0 <= step * loader.batch_size) by (nonlinear_arith)
        requires
            0 <= step,
            0 <= loader.batch_size,
    ;
    lemma_scattered((step * loader.batch_size + i) as usize);
}

proof fn lemma_scattered(number: usize)
    ensures
        number.wrapping_mul(1_103_515_245).wrapping_add(12_345) == ((number * 1_103_515_245) % (
        usize::MAX + 1) + 12_345) % (usize::MAX + 1),
{
    let range = usize::MAX + 1;
    let product = number.wrapping_mul(1_103_515_245);
    let exact = number as nat * 1_103_515_245;
    assert(exact as int == number * 1_103_515_245);
    assert(product == exact as int % range);
    let sum = product + 12_345;
    if sum > usize::MAX {
        vstd::arithmetic::div_mod::lemma_fundamental_div_mod_converse(sum, range, 1, sum - range);
    } else {
        vstd::arithmetic::div_mod::lemma_small_mod(sum as nat, range as nat);
    }
}

/// The refusal of a short stream tells how many tokens there are, and how many there have to be:
/// one more than a window holds.
pub proof fn law_short_streams_are_explained(have: nat, block_size: nat)
    ensures
        ("not enough tokens to build a batch: got "@ + text::decimal(have)).is_prefix_of(
            too_few_tokens_text(have, block_size),
        ),
        text::decimal(block_size + 1).is_suffix_of(too_few_tokens_text(have, block_size)),
{
}

} // verus!

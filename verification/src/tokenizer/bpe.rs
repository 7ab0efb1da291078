//! Byte pair encoding. Training merges the most frequent pair of neighbouring tokens, again and
//! again. Encoding replays the merges on the bytes of each word, the earliest merge first.
use std::collections::HashMap;

use vstd::prelude::*;
use vstd::utf8;

use crate::text;
use crate::tokenizer::Tokenizer;

verus! {

broadcast use vstd::std_specs::hash::group_hash_axioms;

/// A pair of neighbouring tokens.
pub type Pair = (u32, u32);

/// A pair and the token that stands for it.
pub type Merge = (Pair, u32);

/// What happens during training.
#[derive(Debug, Clone, Copy, PartialEq, Eq)]
pub enum BpeTrainingEvent {
    Started { target_vocab_size: usize, initial_vocab_size: usize, word_count: usize },
    Merge {
        merge_index: usize,
        vocab_size: usize,
        pair: (u32, u32),
        new_token_id: u32,
        count: usize,
    },
    Completed {
        target_vocab_size: usize,
        final_vocab_size: usize,
        merge_count: usize,
        reason: BpeTrainingStopReason,
    },
}

/// Why training stopped.
#[derive(Debug, Clone, Copy, PartialEq, Eq, Structural)]
pub enum BpeTrainingStopReason {
    TargetVocabSizeReached,
    NoPairs,
    NoRepeatedPairs,
}

// ---------------------------------------------------------------------------------------
// Words and pairs
// ---------------------------------------------------------------------------------------

/// Bytes as tokens: a byte is its own token.
pub open spec fn byte_tokens(bytes: Seq<u8>) -> Seq<u32> {
    Seq::new(bytes.len(), |i: int| bytes[i] as u32)
}

/// The words of a text, as tokens.
pub open spec fn text_words(s: Seq<char>) -> Seq<Seq<u32>> {
    let words = text::words(s);
    Seq::new(words.len(), |i: int| byte_tokens(utf8::encode_utf8(words[i])))
}

/// How often a pair occurs in a word. Occurrences may overlap.
pub open spec fn pairs_in(word: Seq<u32>, pair: Pair) -> nat
    decreases word.len(),
{
    if word.len() < 2 {
        0
    } else {
        pairs_in(word.drop_last(), pair) + (if word[word.len() - 2] == pair.0 && word.last()
            == pair.1 {
            1nat
        } else {
            0nat
        })
    }
}

/// How often a pair occurs in all words.
pub open spec fn pair_count(words: Seq<Seq<u32>>, pair: Pair) -> nat
    decreases words.len(),
{
    if words.len() == 0 {
        0
    } else {
        pair_count(words.drop_last(), pair) + pairs_in(words.last(), pair)
    }
}

/// Whether no pair occurs more often.
pub open spec fn most_frequent(words: Seq<Seq<u32>>, pair: Pair) -> bool {
    forall|other: Pair| #[trigger] pair_count(words, other) <= pair_count(words, pair)
}

/// A word with every occurrence of a pair replaced, from left to right.
pub open spec fn merged(word: Seq<u32>, pair: Pair, id: u32) -> Seq<u32>
    decreases word.len(),
{
    if word.len() == 0 {
        word
    } else if word.len() >= 2 && word[0] == pair.0 && word[1] == pair.1 {
        seq![id] + merged(word.skip(2), pair, id)
    } else {
        seq![word[0]] + merged(word.skip(1), pair, id)
    }
}

/// All words with every occurrence of a pair replaced.
pub open spec fn merged_words(words: Seq<Seq<u32>>, merge: Merge) -> Seq<Seq<u32>> {
    Seq::new(words.len(), |i: int| merged(words[i], merge.0, merge.1))
}

/// All words after a list of merges.
pub open spec fn replayed(words: Seq<Seq<u32>>, merges: Seq<Merge>) -> Seq<Seq<u32>>
    decreases merges.len(),
{
    if merges.len() == 0 {
        words
    } else {
        merged_words(replayed(words, merges.drop_last()), merges.last())
    }
}

/// The bytes of each token, after a list of merges: a merged token is written as its pair.
pub open spec fn vocab_after(merges: Seq<Merge>) -> Seq<Seq<u8>>
    decreases merges.len(),
{
    if merges.len() == 0 {
        Seq::new(256, |i: int| seq![i as u8])
    } else {
        let before = vocab_after(merges.drop_last());
        let pair = merges.last().0;
        before.push(before[pair.0 as int] + before[pair.1 as int])
    }
}

/// Whether each merge takes a most frequent pair of what the merges before it leave, one that
/// occurs at least twice, and gives it the next free token.
pub open spec fn greedy(words: Seq<Seq<u32>>, merges: Seq<Merge>) -> bool {
    forall|k: int|
        0 <= k < merges.len() ==> {
            let left = replayed(words, merges.take(k));
            &&& (#[trigger] merges[k]).1 == 256 + k
            &&& most_frequent(left, merges[k].0)
            &&& pair_count(left, merges[k].0) >= 2
        }
}

/// Whether training stops on these words, with a vocabulary of the given size, and why.
pub open spec fn stops(words: Seq<Seq<u32>>, size: int, target: int) -> Option<
    BpeTrainingStopReason,
> {
    if size >= target {
        Some(BpeTrainingStopReason::TargetVocabSizeReached)
    } else if forall|pair: Pair| #[trigger] pair_count(words, pair) == 0 {
        Some(BpeTrainingStopReason::NoPairs)
    } else if forall|pair: Pair| #[trigger] pair_count(words, pair) < 2 {
        Some(BpeTrainingStopReason::NoRepeatedPairs)
    } else {
        None
    }
}

/// Whether `merges` are the beginning of a training run on `words`: each is greedy, and before
/// none of them does training stop.
pub open spec fn goes_on(words: Seq<Seq<u32>>, target: int, merges: Seq<Merge>) -> bool {
    &&& greedy(words, merges)
    &&& forall|k: int|
        0 <= k < merges.len() ==> #[trigger] stops(replayed(words, merges.take(k)), 256 + k, target)
            is None
}

/// Whether `merges` are a training run on `words`, up to where it stops for `reason`.
pub open spec fn is_training_run(
    words: Seq<Seq<u32>>,
    target: int,
    merges: Seq<Merge>,
    reason: BpeTrainingStopReason,
) -> bool {
    &&& goes_on(words, target, merges)
    &&& stops(replayed(words, merges), 256 + merges.len() as int, target) == Some(reason)
}

/// The views of a list of token lists.
pub open spec fn token_views(words: Seq<Vec<u32>>) -> Seq<Seq<u32>> {
    Seq::new(words.len(), |i: int| words[i]@)
}

/// The views of a list of byte lists.
pub open spec fn byte_views(vocab: Seq<Vec<u8>>) -> Seq<Seq<u8>> {
    Seq::new(vocab.len(), |i: int| vocab[i]@)
}

/// The number of tokens in all words.
pub open spec fn total_len(words: Seq<Seq<u32>>) -> nat
    decreases words.len(),
{
    if words.len() == 0 {
        0
    } else {
        total_len(words.drop_last()) + words.last().len()
    }
}

/// Whether the tokens of a training run fit in 32 bits. A run makes no more tokens than its target
/// allows, and every merge leaves at least one token less in the words.
pub open spec fn ids_fit(words: Seq<Seq<u32>>, target: int) -> bool {
    target <= 0x1_0000_0000 || 256 + total_len(words) <= 0x1_0000_0000
}

/// Whether every token is below `bound`.
pub open spec fn tokens_below(words: Seq<Seq<u32>>, bound: int) -> bool {
    forall|i: int, j: int|
        0 <= i < words.len() && 0 <= j < words[i].len() ==> #[trigger] words[i][j] < bound
}

// ---------------------------------------------------------------------------------------
// Facts about counting and merging
// ---------------------------------------------------------------------------------------

proof fn lemma_pairs_in_bounded(word: Seq<u32>, pair: Pair)
    ensures
        pairs_in(word, pair) <= word.len(),
    decreases word.len(),
{
    if word.len() >= 2 {
        lemma_pairs_in_bounded(word.drop_last(), pair);
    }
}

proof fn lemma_pair_count_bounded(words: Seq<Seq<u32>>, pair: Pair)
    ensures
        pair_count(words, pair) <= total_len(words),
    decreases words.len(),
{
    if words.len() > 0 {
        lemma_pair_count_bounded(words.drop_last(), pair);
        lemma_pairs_in_bounded(words.last(), pair);
    }
}

proof fn lemma_counted_pair_occurs(word: Seq<u32>, pair: Pair)
    requires
        pairs_in(word, pair) > 0,
    ensures
        exists|i: int| 0 <= i < word.len() - 1 && #[trigger] word[i] == pair.0 && word[i + 1] == pair.1,
    decreases word.len(),
{
    if word[word.len() - 2] == pair.0 && word.last() == pair.1 {
        assert(word[word.len() - 2] == pair.0);
    } else {
        lemma_counted_pair_occurs(word.drop_last(), pair);
        let i = choose|i: int|
            0 <= i < word.drop_last().len() - 1 && #[trigger] word.drop_last()[i] == pair.0
                && word.drop_last()[i + 1] == pair.1;
        assert(word[i] == pair.0);
        assert(word[i + 1] == pair.1);
    }
}

proof fn lemma_counted_pair_below(words: Seq<Seq<u32>>, pair: Pair, bound: int)
    requires
        pair_count(words, pair) > 0,
        tokens_below(words, bound),
    ensures
        pair.0 < bound,
        pair.1 < bound,
    decreases words.len(),
{
    if pairs_in(words.last(), pair) > 0 {
        lemma_counted_pair_occurs(words.last(), pair);
        let w = words[words.len() - 1];
        let i = choose|i: int|
            0 <= i < w.len() - 1 && #[trigger] w[i] == pair.0 && w[i + 1] == pair.1;
        assert(words[words.len() - 1][i] < bound);
        assert(words[words.len() - 1][i + 1] < bound);
    } else {
        let less = words.drop_last();
        assert forall|i: int, j: int|
            0 <= i < less.len() && 0 <= j < less[i].len() implies #[trigger] less[i][j] < bound by {
            assert(words[i][j] < bound);
        }
        lemma_counted_pair_below(less, pair, bound);
    }
}

proof fn lemma_merged_len(word: Seq<u32>, pair: Pair, id: u32)
    ensures
        merged(word, pair, id).len() <= word.len(),
    decreases word.len(),
{
    if word.len() == 0 {
    } else if word.len() >= 2 && word[0] == pair.0 && word[1] == pair.1 {
        lemma_merged_len(word.skip(2), pair, id);
    } else {
        lemma_merged_len(word.skip(1), pair, id);
    }
}

proof fn lemma_merged_shortens(word: Seq<u32>, pair: Pair, id: u32, i: int)
    requires
        0 <= i < word.len() - 1,
        word[i] == pair.0,
        word[i + 1] == pair.1,
    ensures
        merged(word, pair, id).len() < word.len(),
    decreases word.len(),
{
    if word[0] == pair.0 && word[1] == pair.1 {
        lemma_merged_len(word.skip(2), pair, id);
    } else {
        lemma_merged_shortens(word.skip(1), pair, id, i - 1);
    }
}

proof fn lemma_merged_words_len(words: Seq<Seq<u32>>, merge: Merge)
    ensures
        total_len(merged_words(words, merge)) <= total_len(words),
        pair_count(words, merge.0) > 0 ==> total_len(merged_words(words, merge)) < total_len(words),
    decreases words.len(),
{
    if words.len() > 0 {
        let word = words.last();
        lemma_merged_words_len(words.drop_last(), merge);
        assert(merged_words(words, merge).drop_last() == merged_words(words.drop_last(), merge));
        lemma_merged_len(word, merge.0, merge.1);
        if pairs_in(word, merge.0) > 0 {
            lemma_counted_pair_occurs(word, merge.0);
            let i = choose|i: int|
                0 <= i < word.len() - 1 && #[trigger] word[i] == merge.0.0 && word[i + 1]
                    == merge.0.1;
            lemma_merged_shortens(word, merge.0, merge.1, i);
        }
    }
}

proof fn lemma_merged_below(word: Seq<u32>, pair: Pair, id: u32, bound: int)
    requires
        forall|j: int| 0 <= j < word.len() ==> #[trigger] word[j] < bound,
        id < bound,
    ensures
        forall|j: int| 0 <= j < merged(word, pair, id).len() ==> #[trigger] merged(word, pair, id)[j] < bound,
    decreases word.len(),
{
    if word.len() == 0 {
    } else if word.len() >= 2 && word[0] == pair.0 && word[1] == pair.1 {
        let rest = word.skip(2);
        assert forall|j: int| 0 <= j < rest.len() implies #[trigger] rest[j] < bound by {
            assert(rest[j] == word[j + 2]);
        }
        lemma_merged_below(rest, pair, id, bound);
        let whole = merged(word, pair, id);
        assert forall|j: int| 0 <= j < whole.len() implies #[trigger] whole[j] < bound by {
            if j > 0 {
                assert(whole[j] == merged(rest, pair, id)[j - 1]);
            }
        }
    } else {
        let rest = word.skip(1);
        assert forall|j: int| 0 <= j < rest.len() implies #[trigger] rest[j] < bound by {
            assert(rest[j] == word[j + 1]);
        }
        lemma_merged_below(rest, pair, id, bound);
        let whole = merged(word, pair, id);
        assert forall|j: int| 0 <= j < whole.len() implies #[trigger] whole[j] < bound by {
            if j > 0 {
                assert(whole[j] == merged(rest, pair, id)[j - 1]);
            }
        }
    }
}

proof fn lemma_merged_words_below(words: Seq<Seq<u32>>, merge: Merge, bound: int)
    requires
        tokens_below(words, bound),
        merge.1 < bound,
    ensures
        tokens_below(merged_words(words, merge), bound),
{
    assert forall|i: int, j: int|
        0 <= i < words.len() && 0 <= j < merged_words(words, merge)[i].len()
            implies #[trigger] merged_words(words, merge)[i][j] < bound by {
        let word = words[i];
        assert forall|k: int| 0 <= k < word.len() implies #[trigger] word[k] < bound by {
            assert(words[i][k] < bound);
        }
        lemma_merged_below(word, merge.0, merge.1, bound);
        assert(merged_words(words, merge)[i] == merged(word, merge.0, merge.1));
    }
}

proof fn lemma_vocab_after_len(merges: Seq<Merge>)
    ensures
        vocab_after(merges).len() == 256 + merges.len(),
    decreases merges.len(),
{
    if merges.len() > 0 {
        lemma_vocab_after_len(merges.drop_last());
    }
}

proof fn lemma_encode_concat(a: Seq<char>, b: Seq<char>)
    ensures
        utf8::encode_utf8(a + b) == utf8::encode_utf8(a) + utf8::encode_utf8(b),
    decreases a.len(),
{
    if a.len() == 0 {
        assert(a + b == b);
        assert(utf8::encode_utf8(a) + utf8::encode_utf8(b) == utf8::encode_utf8(b));
    } else {
        lemma_encode_concat(a.drop_first(), b);
        assert((a + b).drop_first() == a.drop_first() + b);
        assert((a + b)[0] == a[0]);
        let first = utf8::encode_scalar(a[0] as u32);
        assert(first + (utf8::encode_utf8(a.drop_first()) + utf8::encode_utf8(b)) == (first
            + utf8::encode_utf8(a.drop_first())) + utf8::encode_utf8(b));
    }
}

proof fn lemma_total_len_push_front(first: Seq<u32>, rest: Seq<Seq<u32>>)
    ensures
        total_len(seq![first] + rest) == first.len() + total_len(rest),
    decreases rest.len(),
{
    let all = seq![first] + rest;
    if rest.len() == 0 {
        assert(all.drop_last() == rest);
        assert(total_len(rest) == 0);
        assert(all.last() == first);
    } else {
        lemma_total_len_push_front(first, rest.drop_last());
        assert(all.drop_last() == seq![first] + rest.drop_last());
        assert(all.last() == rest.last());
    }
}

/// The words of a text hold no more bytes than the text.
proof fn lemma_text_words_fit(s: Seq<char>)
    ensures
        total_len(text_words(s)) <= utf8::encode_utf8(s).len(),
    decreases s.len(),
{
    let start = text::leading_spaces(s) as int;
    text::lemma_leading_spaces(s);
    if start >= s.len() {
        assert(text_words(s) == Seq::<Seq<u32>>::empty());
    } else {
        let rest = s.skip(start);
        let k = text::word_len(rest) as int;
        text::lemma_word_len(rest);
        assert(rest[0] == s[start]);
        let word = rest.take(k);
        let tail = rest.skip(k);
        lemma_text_words_fit(tail);
        let first = byte_tokens(utf8::encode_utf8(word));
        assert(text_words(s) == seq![first] + text_words(tail)) by {
            let all = text::words(s);
            assert(all == seq![word] + text::words(tail));
            assert forall|i: int| 0 <= i < all.len() implies text_words(s)[i] == (seq![first]
                + text_words(tail))[i] by {
                if i > 0 {
                    assert(all[i] == text::words(tail)[i - 1]);
                }
            }
        }
        lemma_total_len_push_front(first, text_words(tail));
        assert(s == s.take(start) + rest);
        lemma_encode_concat(s.take(start), rest);
        assert(rest == word + tail);
        lemma_encode_concat(word, tail);
    }
}

/// The words of a text are made of bytes.
pub proof fn lemma_text_words_are_bytes(s: Seq<char>)
    ensures
        tokens_below(text_words(s), 256),
{
}

// ---------------------------------------------------------------------------------------
// Counting
// ---------------------------------------------------------------------------------------

/// A pair as one number.
pub open spec fn pair_key(pair: Pair) -> u64 {
    (pair.0 * 0x1_0000_0000 + pair.1) as u64
}

proof fn lemma_pair_key_distinct(a: Pair, b: Pair)
    requires
        pair_key(a) == pair_key(b),
    ensures
        a == b,
{
}

fn key_of(a: u32, b: u32) -> (key: u64)
    ensures
        key == pair_key((a, b)),
{
    a as u64 * 0x1_0000_0000 + b as u64
}

/// Whether a table holds how often each pair occurs, and nothing of the pairs that do not.
spec fn counts_are(counts: Map<u64, usize>, amount: spec_fn(Pair) -> nat) -> bool {
    forall|pair: Pair|
        #![trigger pair_key(pair)]
        if amount(pair) == 0 {
            !counts.dom().contains(pair_key(pair))
        } else {
            counts.dom().contains(pair_key(pair)) && counts[pair_key(pair)] == amount(pair)
        }
}

proof fn lemma_pairs_in_take(word: Seq<u32>, j: int, pair: Pair)
    requires
        0 <= j < word.len() - 1,
    ensures
        pairs_in(word.take(j + 2), pair) == pairs_in(word.take(j + 1), pair) + (if word[j] == pair.0
            && word[j + 1] == pair.1 {
            1nat
        } else {
            0nat
        }),
{
    assert(word.take(j + 2).drop_last() == word.take(j + 1));
    assert(word.take(j + 2)[j] == word[j]);
    assert(word.take(j + 2).last() == word[j + 1]);
}

proof fn lemma_pairs_in_monotonic(word: Seq<u32>, j: int, pair: Pair)
    requires
        0 <= j <= word.len(),
    ensures
        pairs_in(word.take(j), pair) <= pairs_in(word, pair),
    decreases word.len() - j,
{
    if j == word.len() {
        assert(word.take(j) == word);
    } else {
        lemma_pairs_in_monotonic(word, j + 1, pair);
        if j >= 1 {
            lemma_pairs_in_take(word, j - 1, pair);
        }
    }
}

proof fn lemma_pair_count_monotonic(words: Seq<Seq<u32>>, i: int, pair: Pair)
    requires
        0 <= i <= words.len(),
    ensures
        pair_count(words.take(i), pair) <= pair_count(words, pair),
    decreases words.len() - i,
{
    if i == words.len() {
        assert(words.take(i) == words);
    } else {
        lemma_pair_count_monotonic(words, i + 1, pair);
        assert(words.take(i + 1).drop_last() == words.take(i));
    }
}

/// Counts every pair.
fn count_pairs(words: &Vec<Vec<u32>>) -> (counts: HashMap<u64, usize>)
    requires
        total_len(token_views(words@)) <= usize::MAX,
    ensures
        counts_are(counts@, |pair: Pair| pair_count(token_views(words@), pair)),
{
    let ghost views = token_views(words@);
    let mut counts: HashMap<u64, usize> = HashMap::new();
    let mut i: usize = 0;
    assert(views.take(0) == Seq::<Seq<u32>>::empty());
    while i < words.len()
        invariant
            i <= words@.len(),
            views == token_views(words@),
            total_len(views) <= usize::MAX,
            counts_are(counts@, |pair: Pair| pair_count(views.take(i as int), pair)),
        decreases words.len() - i,
    {
        let word = &words[i];
        let ghost before = views.take(i as int);
        assert(views[i as int] == word@);
        if word.len() >= 2 {
            let mut j: usize = 0;
            assert(word@.take(1).len() == 1);
            assert forall|pair: Pair|
                #![trigger pair_key(pair)]
                pair_count(before, pair) + pairs_in(word@.take(1), pair) == pair_count(
                    before,
                    pair,
                ) by {}
            while j < word.len() - 1
                invariant
                    i < words@.len(),
                    j <= word@.len() - 1,
                    word@.len() >= 2,
                    views == token_views(words@),
                    before == views.take(i as int),
                    views[i as int] == word@,
                    total_len(views) <= usize::MAX,
                    counts_are(
                        counts@,
                        |pair: Pair|
                            pair_count(before, pair) + pairs_in(word@.take(j as int + 1), pair),
                    ),
                decreases word.len() - j,
            {
                let ghost pair: Pair = (word@[j as int], word@[j as int + 1]);
                let key = key_of(word[j], word[j + 1]);
                let ghost old_counts = counts@;
                proof {
                    lemma_pairs_in_take(word@, j as int, pair);
                    lemma_pairs_in_monotonic(word@, j as int + 2, pair);
                    lemma_pair_count_monotonic(views, i as int + 1, pair);
                    lemma_pair_count_bounded(views, pair);
                    assert(views.take(i as int + 1).drop_last() == before);
                    assert(views.take(i as int + 1).last() == word@);
                    assert(pair_key(pair) == key);
                }
                let seen: usize = match counts.get(&key) {
                    Some(n) => *n,
                    None => 0,
                };
                assert(seen == pair_count(before, pair) + pairs_in(word@.take(j as int + 1), pair));
                counts.insert(key, seen + 1);
                proof {
                    assert forall|other: Pair| #![trigger pair_key(other)]
                        ({
                            let amount = pair_count(before, other) + pairs_in(
                                word@.take(j as int + 2),
                                other,
                            );
                            if amount == 0 {
                                !counts@.dom().contains(pair_key(other))
                            } else {
                                counts@.dom().contains(pair_key(other))
                                    && counts@[pair_key(other)] == amount
                            }
                        }) by {
                        lemma_pairs_in_take(word@, j as int, other);
                        if pair_key(other) == key {
                            lemma_pair_key_distinct(other, pair);
                        } else {
                            assert(other != pair);
                            assert(old_counts.dom().contains(pair_key(other))
                                == counts@.dom().contains(pair_key(other)));
                        }
                    }
                }
                j += 1;
            }
            assert(word@.take(word@.len() as int) == word@);
        }
        proof {
            assert(views.take(i as int + 1).drop_last() == before);
            assert(views.take(i as int + 1).last() == word@);
            assert forall|pair: Pair| #![trigger pair_key(pair)]
                pair_count(views.take(i as int + 1), pair) == pair_count(before, pair) + pairs_in(
                    word@,
                    pair,
                ) by {}
        }
        i += 1;
    }
    assert(views.take(views.len() as int) == views);
    counts
}

/// The pair at a place of a word.
spec fn pair_at(words: Seq<Seq<u32>>, i: int, j: int) -> Pair {
    (words[i][j], words[i][j + 1])
}

/// Whether a best pair was found that occurs at least `n` times.
spec fn covers(best: Option<(Pair, usize)>, n: nat) -> bool {
    match best {
        Some((_, count)) => n <= count,
        None => false,
    }
}

/// The most frequent pair and how often it occurs. Which one, where several occur equally often,
/// is left open.
fn best_pair(words: &Vec<Vec<u32>>) -> (best: Option<(Pair, usize)>)
    requires
        total_len(token_views(words@)) <= usize::MAX,
    ensures
        match best {
            Some((pair, count)) => {
                &&& most_frequent(token_views(words@), pair)
                &&& count == pair_count(token_views(words@), pair)
                &&& count > 0
            },
            None => forall|pair: Pair| #[trigger] pair_count(token_views(words@), pair) == 0,
        },
{
    let ghost views = token_views(words@);
    let counts = count_pairs(words);
    let mut best: Option<(Pair, usize)> = None;
    let mut i: usize = 0;
    while i < words.len()
        invariant
            i <= words@.len(),
            views == token_views(words@),
            counts_are(counts@, |pair: Pair| pair_count(views, pair)),
            best matches Some((pair, count)) ==> count == pair_count(views, pair) && count > 0,
            forall|a: int, b: int|
                0 <= a < i && 0 <= b < views[a].len() - 1 ==> covers(
                    best,
                    pair_count(views, #[trigger] pair_at(views, a, b)),
                ),
        decreases words.len() - i,
    {
        let word = &words[i];
        assert(views[i as int] == word@);
        if word.len() >= 2 {
            let mut j: usize = 0;
            while j < word.len() - 1
                invariant
                    i < words@.len(),
                    j <= word@.len() - 1,
                    word@.len() >= 2,
                    views == token_views(words@),
                    views[i as int] == word@,
                    counts_are(counts@, |pair: Pair| pair_count(views, pair)),
                    best matches Some((pair, count)) ==> count == pair_count(views, pair) && count
                        > 0,
                    forall|a: int, b: int|
                        0 <= a <= i && 0 <= b < views[a].len() - 1 && (a < i || b < j)
                            ==> covers(best, pair_count(views, #[trigger] pair_at(views, a, b))),
                decreases word.len() - j,
            {
                let pair: Pair = (word[j], word[j + 1]);
                let key = key_of(pair.0, pair.1);
                assert(pair_key(pair) == key);
                proof {
                    lemma_occurring_pair_counts(views, i as int, j as int);
                    assert(pair_at(views, i as int, j as int) == pair);
                }
                let count: usize = match counts.get(&key) {
                    Some(n) => *n,
                    None => 0,
                };
                assert(count == pair_count(views, pair));
                let better = match best {
                    Some((_, most)) => count > most,
                    None => true,
                };
                if better {
                    best = Some((pair, count));
                }
                j += 1;
            }
        }
        i += 1;
    }
    proof {
        assert forall|other: Pair| #[trigger] pair_count(views, other) > 0 implies covers(
            best,
            pair_count(views, other),
        ) by {
            lemma_counted_pair_somewhere(views, other);
            let (a, b) = choose|a: int, b: int|
                0 <= a < views.len() && 0 <= b < views[a].len() - 1 && #[trigger] pair_at(views, a, b)
                    == other;
            assert(pair_at(views, a, b) == other);
        }
    }
    best
}

proof fn lemma_occurring_pair_counts(words: Seq<Seq<u32>>, i: int, j: int)
    requires
        0 <= i < words.len(),
        0 <= j < words[i].len() - 1,
    ensures
        pair_count(words, pair_at(words, i, j)) > 0,
{
    let pair: Pair = (words[i][j], words[i][j + 1]);
    let word = words[i];
    lemma_pairs_in_take(word, j, pair);
    lemma_pairs_in_monotonic(word, j + 2, pair);
    assert(words.take(i + 1).last() == word);
    lemma_pair_count_monotonic(words, i + 1, pair);
}

proof fn lemma_counted_pair_somewhere(words: Seq<Seq<u32>>, pair: Pair)
    requires
        pair_count(words, pair) > 0,
    ensures
        exists|a: int, b: int|
            0 <= a < words.len() && 0 <= b < words[a].len() - 1 && #[trigger] pair_at(words, a, b)
                == pair,
    decreases words.len(),
{
    let a = words.len() - 1;
    if pairs_in(words.last(), pair) > 0 {
        lemma_counted_pair_occurs(words.last(), pair);
        let w = words[a];
        let b = choose|b: int|
            0 <= b < w.len() - 1 && #[trigger] w[b] == pair.0 && w[b + 1] == pair.1;
        assert(pair_at(words, a, b) == pair);
    } else {
        let less = words.drop_last();
        lemma_counted_pair_somewhere(less, pair);
        let (c, b) = choose|c: int, b: int|
            0 <= c < less.len() && 0 <= b < less[c].len() - 1 && #[trigger] pair_at(less, c, b)
                == pair;
        assert(less[c] == words[c]);
        assert(pair_at(words, c, b) == pair);
    }
}

/// Replaces every occurrence of a pair, from left to right.
fn merge_in_place(word: &mut Vec<u32>, pair: Pair, new_id: u32)
    ensures
        final(word)@ == merged(old(word)@, pair, new_id),
{
    let mut result: Vec<u32> = Vec::new();
    let mut i: usize = 0;
    let ghost whole = word@;
    assert(whole.skip(0) == whole);
    while i < word.len()
        invariant
            word@ == whole,
            i <= whole.len(),
            merged(whole, pair, new_id) == result@ + merged(whole.skip(i as int), pair, new_id),
        decreases word.len() - i,
    {
        let ghost rest = whole.skip(i as int);
        let ghost before = result@;
        assert(rest[0] == whole[i as int]);
        let n: usize = word.len();
        if i < n - 1 && word[i] == pair.0 && word[i + 1] == pair.1 {
            assert(rest[1] == whole[i as int + 1]);
            result.push(new_id);
            proof {
                assert(rest.skip(2) == whole.skip(i as int + 2));
                assert(before + (seq![new_id] + merged(rest.skip(2), pair, new_id)) == result@
                    + merged(rest.skip(2), pair, new_id));
            }
            i += 2;
        } else {
            assert(rest.len() >= 2 ==> rest[1] == whole[i as int + 1]);
            result.push(word[i]);
            proof {
                assert(rest.skip(1) == whole.skip(i as int + 1));
                assert(before + (seq![rest[0]] + merged(rest.skip(1), pair, new_id)) == result@
                    + merged(rest.skip(1), pair, new_id));
            }
            i += 1;
        }
    }
    assert(result@ + merged(whole.skip(i as int), pair, new_id) == result@);
    *word = result;
}

/// The words of a text as tokens: see [`text_words`].
fn word_tokens(corpus: &str) -> (words: Vec<Vec<u32>>)
    ensures
        token_views(words@) == text_words(corpus@),
        total_len(token_views(words@)) <= usize::MAX,
{
    let chars = text::to_chars(corpus);
    let parts = text::split_words(chars.as_slice());
    let ghost views = text::char_views(parts@);
    let mut words: Vec<Vec<u32>> = Vec::new();
    let mut i: usize = 0;
    while i < parts.len()
        invariant
            i <= parts@.len(),
            views == text::char_views(parts@),
            views == text::words(corpus@),
            token_views(words@) == text_words(corpus@).take(i as int),
        decreases parts.len() - i,
    {
        let ghost before = words@;
        let word = tokens_of_word(parts[i].as_slice());
        assert(views[i as int] == parts@[i as int]@);
        words.push(word);
        proof {
            assert(token_views(words@) == token_views(before).push(word@));
            assert(text_words(corpus@)[i as int] == word@);
        }
        i += 1;
    }
    proof {
        assert(text_words(corpus@).take(i as int) == text_words(corpus@));
        lemma_text_words_fit(corpus@);
    }
    let bytes: usize = corpus.as_bytes().len();
    assert(bytes == utf8::encode_utf8(corpus@).len());
    words
}

/// The bytes of a word as tokens.
fn tokens_of_word(word: &[char]) -> (tokens: Vec<u32>)
    ensures
        tokens@ == byte_tokens(utf8::encode_utf8(word@)),
{
    let spelled = text::from_chars(word);
    let bytes = spelled.as_str().as_bytes();
    let mut tokens: Vec<u32> = Vec::new();
    let mut i: usize = 0;
    while i < bytes.len()
        invariant
            i <= bytes@.len(),
            tokens@ == byte_tokens(bytes@).take(i as int),
        decreases bytes.len() - i,
    {
        tokens.push(bytes[i] as u32);
        assert(tokens@ == byte_tokens(bytes@).take(i as int + 1));
        i += 1;
    }
    assert(byte_tokens(bytes@).take(i as int) == byte_tokens(bytes@));
    tokens
}

// ---------------------------------------------------------------------------------------
// Training
// ---------------------------------------------------------------------------------------

/// A training run in progress.
pub struct BpeTraining {
    target: usize,
    words: Vec<Vec<u32>>,
    merges: Vec<Merge>,
    vocab: Vec<Vec<u8>>,
}

impl BpeTraining {
    /// The vocabulary size that is aimed at.
    pub closed spec fn target_size(self) -> int {
        self.target as int
    }

    /// The words, as far as they are merged.
    pub closed spec fn words_left(self) -> Seq<Seq<u32>> {
        token_views(self.words@)
    }

    /// The merges so far.
    pub closed spec fn merges_made(self) -> Seq<Merge> {
        self.merges@
    }

    /// The bytes of each token so far.
    pub closed spec fn vocab_made(self) -> Seq<Seq<u8>> {
        byte_views(self.vocab@)
    }

    /// How many merges fit at most.
    pub open spec fn steps_left(self) -> nat {
        if self.target_size() > 256 + self.merges_made().len() {
            (self.target_size() - 256 - self.merges_made().len()) as nat
        } else {
            0
        }
    }

    /// What every run keeps.
    pub closed spec fn well_formed(self) -> bool {
        &&& self.target <= 0x1_0000_0000 || self.vocab@.len() + total_len(self.words_left())
            <= 0x1_0000_0000
        &&& self.vocab@.len() == 256 + self.merges@.len()
        &&& self.merges@.len() > 0 ==> self.vocab@.len() <= self.target
        &&& total_len(self.words_left()) <= usize::MAX
        &&& tokens_below(self.words_left(), self.vocab@.len() as int)
    }

    /// Whether this is where the merges lead on the given text.
    pub open spec fn is_run_on(self, corpus: Seq<char>) -> bool {
        &&& self.words_left() == replayed(text_words(corpus), self.merges_made())
        &&& self.vocab_made() == vocab_after(self.merges_made())
        &&& goes_on(text_words(corpus), self.target_size(), self.merges_made())
    }

    /// Begins with the bytes of the words.
    pub fn start(target: usize, corpus: &str) -> (run: BpeTraining)
        requires
            ids_fit(text_words(corpus@), target as int),
        ensures
            run.well_formed(),
            run.is_run_on(corpus@),
            run.target_size() == target,
            run.merges_made() == Seq::<Merge>::empty(),
    {
        let words = word_tokens(corpus);
        let mut vocab: Vec<Vec<u8>> = Vec::new();
        let mut byte: usize = 0;
        while byte < 256
            invariant
                byte <= 256,
                vocab@.len() == byte,
                forall|i: int| 0 <= i < byte ==> (#[trigger] vocab@[i])@ == seq![i as u8],
            decreases 256 - byte,
        {
            let mut piece: Vec<u8> = Vec::new();
            piece.push(byte as u8);
            assert(piece@ == seq![byte as u8]);
            vocab.push(piece);
            byte += 1;
        }
        let run = BpeTraining { target, words, merges: Vec::new(), vocab };
        proof {
            lemma_text_words_are_bytes(corpus@);
            assert(run.vocab_made() == vocab_after(run.merges_made()));
        }
        run
    }

    /// What is told when a run starts.
    pub fn started(&self) -> (event: BpeTrainingEvent)
        requires
            self.well_formed(),
        ensures
            event matches BpeTrainingEvent::Started {
                target_vocab_size,
                initial_vocab_size,
                word_count,
            } && target_vocab_size == self.target_size() && initial_vocab_size == 256
                + self.merges_made().len() && word_count == self.words_left().len(),
    {
        BpeTrainingEvent::Started {
            target_vocab_size: self.target,
            initial_vocab_size: self.vocab.len(),
            word_count: self.words.len(),
        }
    }

    /// What is told when a run has come to its end.
    pub fn completed(&self, reason: BpeTrainingStopReason) -> (event: BpeTrainingEvent)
        requires
            self.well_formed(),
        ensures
            event matches BpeTrainingEvent::Completed {
                target_vocab_size,
                final_vocab_size,
                merge_count,
                reason: r,
            } && target_vocab_size == self.target_size() && final_vocab_size == 256
                + self.merges_made().len() && merge_count == self.merges_made().len() && r
                == reason,
    {
        BpeTrainingEvent::Completed {
            target_vocab_size: self.target,
            final_vocab_size: self.vocab.len(),
            merge_count: self.merges.len(),
            reason,
        }
    }

    /// Merges the most frequent pair, or says why training stops.
    pub fn step(&mut self) -> (r: Result<BpeTrainingEvent, BpeTrainingStopReason>)
        requires
            old(self).well_formed(),
        ensures
            final(self).well_formed(),
            final(self).target_size() == old(self).target_size(),
            forall|corpus: Seq<char>| #[trigger]
                old(self).is_run_on(corpus) ==> final(self).is_run_on(corpus),
            match r {
                Ok(event) => {
                    let k = old(self).merges_made().len() as int;
                    let merge = final(self).merges_made().last();
                    &&& stops(old(self).words_left(), 256 + k, old(self).target_size()) is None
                    &&& final(self).merges_made() == old(self).merges_made().push(merge)
                    &&& merge.1 == 256 + k
                    &&& most_frequent(old(self).words_left(), merge.0)
                    &&& pair_count(old(self).words_left(), merge.0) >= 2
                    &&& final(self).words_left() == merged_words(old(self).words_left(), merge)
                    &&& event matches BpeTrainingEvent::Merge {
                        merge_index,
                        vocab_size,
                        pair,
                        new_token_id,
                        count,
                    } && merge_index == k && vocab_size == 257 + k && pair == merge.0
                        && new_token_id == merge.1 && count == pair_count(
                        old(self).words_left(),
                        merge.0,
                    )
                },
                Err(reason) => {
                    &&& *final(self) == *old(self)
                    &&& stops(
                        old(self).words_left(),
                        256 + old(self).merges_made().len() as int,
                        old(self).target_size(),
                    ) == Some(reason)
                },
            },
    {
        let ghost before = *self;
        let ghost k = self.merges@.len() as int;
        if self.vocab.len() >= self.target {
            return Err(BpeTrainingStopReason::TargetVocabSizeReached);
        }
        let (pair, count) = match best_pair(&self.words) {
            None => {
                return Err(BpeTrainingStopReason::NoPairs);
            },
            Some(found) => found,
        };
        let ghost left = self.words_left();
        assert(pair_count(left, pair) != 0);
        if count < 2 {
            assert forall|other: Pair| #[trigger] pair_count(left, other) < 2 by {
                assert(pair_count(left, other) <= pair_count(left, pair));
            }
            return Err(BpeTrainingStopReason::NoRepeatedPairs);
        }
        assert(pair_count(left, pair) >= 2);
        proof {
            lemma_pair_count_bounded(left, pair);
        }
        let new_id: u32 = self.vocab.len() as u32;
        proof {
            lemma_counted_pair_below(left, pair, self.vocab@.len() as int);
        }
        let new_bytes = joined(&self.vocab[pair.0 as usize], &self.vocab[pair.1 as usize]);
        let ghost merge: Merge = (pair, new_id);
        let ghost old_vocab = self.vocab@;
        self.vocab.push(new_bytes);
        self.merges.push((pair, new_id));
        merge_all(&mut self.words, pair, new_id);
        proof {
            let bound = self.vocab@.len() as int;
            assert forall|i: int, j: int|
                0 <= i < left.len() && 0 <= j < left[i].len() implies #[trigger] left[i][j]
                < bound by {}
            lemma_merged_words_below(left, merge, bound);
            lemma_merged_words_len(left, merge);
            assert(self.merges_made() == before.merges_made().push(merge));
            assert(self.merges_made().drop_last() == before.merges_made());
            assert(self.vocab_made() == before.vocab_made().push(new_bytes@));
            assert forall|corpus: Seq<char>| #[trigger] before.is_run_on(corpus) implies self.is_run_on(
                corpus,
            ) by {
                assert(before.vocab_made()[pair.0 as int] == old_vocab[pair.0 as int]@);
                assert(before.vocab_made()[pair.1 as int] == old_vocab[pair.1 as int]@);
                lemma_run_extends(
                    text_words(corpus),
                    before.merges_made(),
                    self.target_size(),
                    merge,
                );
            }
        }
        Ok(
            BpeTrainingEvent::Merge {
                merge_index: self.merges.len() - 1,
                vocab_size: self.vocab.len(),
                pair,
                new_token_id: new_id,
                count,
            },
        )
    }
}

#[verifier::spinoff_prover]
#[verifier::rlimit(40)]
proof fn lemma_run_extends(words: Seq<Seq<u32>>, merges: Seq<Merge>, target: int, merge: Merge)
    requires
        goes_on(words, target, merges),
        stops(replayed(words, merges), 256 + merges.len() as int, target) is None,
        merge.1 == 256 + merges.len(),
        most_frequent(replayed(words, merges), merge.0),
        pair_count(replayed(words, merges), merge.0) >= 2,
    ensures
        goes_on(words, target, merges.push(merge)),
        replayed(words, merges.push(merge)) == merged_words(replayed(words, merges), merge),
{
    let longer = merges.push(merge);
    assert(longer.drop_last() == merges);
    assert forall|m: int| 0 <= m < longer.len() implies {
        let stage = replayed(words, longer.take(m));
        &&& (#[trigger] longer[m]).1 == 256 + m
        &&& most_frequent(stage, longer[m].0)
        &&& pair_count(stage, longer[m].0) >= 2
    } by {
        if m < merges.len() {
            assert(longer.take(m) == merges.take(m));
            assert(longer[m] == merges[m]);
        } else {
            assert(longer.take(m) == merges);
        }
    }
    assert forall|m: int| 0 <= m < longer.len() implies #[trigger] stops(
        replayed(words, longer.take(m)),
        256 + m,
        target,
    ) is None by {
        if m < merges.len() {
            assert(longer.take(m) == merges.take(m));
            assert(stops(replayed(words, merges.take(m)), 256 + m, target) is None);
        } else {
            assert(longer.take(m) == merges);
        }
    }
}

fn joined(a: &Vec<u8>, b: &Vec<u8>) -> (c: Vec<u8>)
    ensures
        c@ == a@ + b@,
{
    let mut c: Vec<u8> = Vec::new();
    append_bytes(&mut c, a);
    append_bytes(&mut c, b);
    c
}

fn append_bytes(out: &mut Vec<u8>, piece: &Vec<u8>)
    ensures
        final(out)@ == old(out)@ + piece@,
{
    let ghost start = out@;
    let mut i: usize = 0;
    while i < piece.len()
        invariant
            i <= piece@.len(),
            out@ == start + piece@.take(i as int),
        decreases piece.len() - i,
    {
        out.push(piece[i]);
        assert(out@ == start + piece@.take(i as int + 1));
        i += 1;
    }
    assert(piece@.take(i as int) == piece@);
}

fn append_tokens(out: &mut Vec<u32>, piece: &Vec<u32>)
    ensures
        final(out)@ == old(out)@ + piece@,
{
    let ghost start = out@;
    let mut i: usize = 0;
    while i < piece.len()
        invariant
            i <= piece@.len(),
            out@ == start + piece@.take(i as int),
        decreases piece.len() - i,
    {
        out.push(piece[i]);
        assert(out@ == start + piece@.take(i as int + 1));
        i += 1;
    }
    assert(piece@.take(i as int) == piece@);
}

fn merge_all(words: &mut Vec<Vec<u32>>, pair: Pair, new_id: u32)
    ensures
        token_views(final(words)@) == merged_words(token_views(old(words)@), (pair, new_id)),
{
    let ghost start = token_views(words@);
    let mut i: usize = 0;
    while i < words.len()
        invariant
            i <= words@.len(),
            words@.len() == start.len(),
            forall|m: int|
                0 <= m < i ==> (#[trigger] words@[m])@ == merged(start[m], pair, new_id),
            forall|m: int| i <= m < start.len() ==> (#[trigger] words@[m])@ == start[m],
        decreases words.len() - i,
    {
        merge_in_place(&mut words[i], pair, new_id);
        i += 1;
    }
    assert(token_views(words@) == merged_words(start, (pair, new_id)));
}

/// Whether an event tells how a training run starts.
pub open spec fn tells_start(event: BpeTrainingEvent, words: Seq<Seq<u32>>, target: int) -> bool {
    event matches BpeTrainingEvent::Started { target_vocab_size, initial_vocab_size, word_count }
        && target_vocab_size == target && initial_vocab_size == 256 && word_count == words.len()
}

/// Whether an event tells of the merge at `k`, with how often its pair occurred before it.
pub open spec fn tells_merge(
    event: BpeTrainingEvent,
    words: Seq<Seq<u32>>,
    merges: Seq<Merge>,
    k: int,
) -> bool {
    event matches BpeTrainingEvent::Merge { merge_index, vocab_size, pair, new_token_id, count }
        && merge_index == k && vocab_size == 257 + k && (pair, new_token_id) == merges[k] && count
        == pair_count(replayed(words, merges.take(k)), merges[k].0)
}

/// Whether an event tells what a training run came to.
pub open spec fn tells_end(
    event: BpeTrainingEvent,
    target: int,
    merges: Seq<Merge>,
    reason: BpeTrainingStopReason,
) -> bool {
    event matches BpeTrainingEvent::Completed {
        target_vocab_size,
        final_vocab_size,
        merge_count,
        reason: told,
    } && target_vocab_size == target && final_vocab_size == 256 + merges.len() && merge_count
        == merges.len() && told == reason
}

/// Whether events tell of a training run from its start to the last of `merges`, in order.
pub open spec fn tells_merges(
    events: Seq<BpeTrainingEvent>,
    words: Seq<Seq<u32>>,
    target: int,
    merges: Seq<Merge>,
) -> bool {
    &&& events.len() == 1 + merges.len()
    &&& tells_start(events[0], words, target)
    &&& forall|i: int|
        1 <= i <= merges.len() ==> tells_merge(#[trigger] events[i], words, merges, i - 1)
}

/// Whether events tell of a whole training run: its start, its merges one by one, and its end.
pub open spec fn tells_run(
    events: Seq<BpeTrainingEvent>,
    words: Seq<Seq<u32>>,
    target: int,
    merges: Seq<Merge>,
    reason: BpeTrainingStopReason,
) -> bool {
    &&& events.len() == 2 + merges.len()
    &&& tells_merges(events.drop_last(), words, target, merges)
    &&& tells_end(events.last(), target, merges, reason)
}

/// Whether an event tells of a training run on a text: how it starts, one of its merges, or what
/// it came to.
pub open spec fn tells_of(event: BpeTrainingEvent, corpus: Seq<char>, target: int) -> bool {
    let words = text_words(corpus);
    ||| tells_start(event, words, target)
    ||| exists|merges: Seq<Merge>|
        #[trigger] goes_on(words, target, merges) && merges.len() > 0 && tells_merge(
            event,
            words,
            merges,
            merges.len() - 1,
        )
    ||| exists|merges: Seq<Merge>, reason: BpeTrainingStopReason|
        #[trigger] is_training_run(words, target, merges, reason) && tells_end(
            event,
            target,
            merges,
            reason,
        )
}

/// Whether an observer of the given kind was called with an event and returned.
pub open spec fn was_told<F: FnMut(BpeTrainingEvent)>(event: BpeTrainingEvent) -> bool {
    exists|observer: F| #[trigger] call_ensures(observer, (event,), ())
}

/// A training run with the list of what was told of it so far.
struct ToldTraining {
    run: BpeTraining,
    events: Vec<BpeTrainingEvent>,
    stopped: Option<BpeTrainingStopReason>,
}

impl ToldTraining {
    /// Whether the run is one on the given text, and the events tell of it.
    #[verifier::opaque]
    spec fn is_told(self, corpus: Seq<char>, target: int) -> bool {
        &&& self.run.well_formed()
        &&& self.run.is_run_on(corpus)
        &&& self.run.target_size() == target
        &&& match self.stopped {
            None => tells_merges(
                self.events@,
                text_words(corpus),
                target,
                self.run.merges_made(),
            ),
            Some(reason) => {
                &&& is_training_run(text_words(corpus), target, self.run.merges_made(), reason)
                &&& tells_run(
                    self.events@,
                    text_words(corpus),
                    target,
                    self.run.merges_made(),
                    reason,
                )
            },
        }
    }

    /// How many events may still come.
    spec fn events_left(self) -> nat {
        if self.stopped is Some {
            0
        } else {
            1 + self.run.steps_left()
        }
    }

    /// Begins a run, and tells of its start.
    fn begin(target: usize, corpus: &str) -> (told: ToldTraining)
        requires
            ids_fit(text_words(corpus@), target as int),
        ensures
            told.is_told(corpus@, target as int),
            told.stopped is None,
            told.events@.len() == 1,
            tells_start(told.events@[0], text_words(corpus@), target as int),
    {
        let run = BpeTraining::start(target, corpus);
        let mut events: Vec<BpeTrainingEvent> = Vec::new();
        events.push(run.started());
        let told = ToldTraining { run, events, stopped: None };
        proof {
            reveal(ToldTraining::is_told);
        }
        told
    }

    /// Takes one step, and adds to the list what is to be told of it.
    fn advance(&mut self, Ghost(corpus): Ghost<Seq<char>>, Ghost(target): Ghost<int>)
        requires
            old(self).is_told(corpus, target),
            old(self).stopped is None,
        ensures
            final(self).is_told(corpus, target),
            final(self).events@.len() == old(self).events@.len() + 1,
            final(self).events@.drop_last() == old(self).events@,
            final(self).events_left() < old(self).events_left(),
            tells_of(final(self).events@.last(), corpus, target),
    {
        proof {
            reveal(ToldTraining::is_told);
        }
        let ghost words = text_words(corpus);
        let ghost before = self.events@;
        let ghost merges = self.run.merges_made();
        match self.run.step() {
            Ok(event) => {
                self.events.push(event);
                proof {
                    let longer = self.run.merges_made();
                    let k = merges.len() as int;
                    assert(longer.take(k) == merges);
                    assert(goes_on(words, target, longer));
                    assert(tells_merge(event, words, longer, k));
                    assert forall|i: int| 1 <= i <= longer.len() implies tells_merge(
                        #[trigger] self.events@[i],
                        words,
                        longer,
                        i - 1,
                    ) by {
                        if i <= k {
                            assert(self.events@[i] == before[i]);
                            assert(longer.take(i - 1) == merges.take(i - 1));
                        }
                    }
                }
            },
            Err(reason) => {
                let event = self.run.completed(reason);
                self.events.push(event);
                self.stopped = Some(reason);
                assert(is_training_run(words, target, merges, reason));
            },
        }
        assert(self.events@.drop_last() == before);
    }
}

/// Trains tokenizers of a given vocabulary size.
pub struct BpeTrainer {
    vocab_size: usize,
}

impl BpeTrainer {
    /// The vocabulary size that is aimed at.
    pub closed spec fn target(self) -> int {
        self.vocab_size as int
    }

    /// A trainer that aims at the given vocabulary size.
    pub fn new(vocab_size: usize) -> (trainer: BpeTrainer)
        ensures
            trainer.target() == vocab_size,
    {
        BpeTrainer { vocab_size }
    }

    /// Trains on the words of a text: see [`is_training_run`].
    pub fn train(&self, corpus: &str) -> (tokenizer: BpeTokenizer)
        requires
            ids_fit(text_words(corpus@), self.target()),
        ensures
            exists|reason: BpeTrainingStopReason| #[trigger]
                is_training_run(
                    text_words(corpus@),
                    self.target(),
                    tokenizer.merge_list(),
                    reason,
                ),
            tokenizer.pieces() == vocab_after(tokenizer.merge_list()),
    {
        let (tokenizer, _) = self.train_with_events(corpus);
        tokenizer
    }

    /// Trains on the words of a text, and lists what there is to tell of the run: see
    /// [`tells_run`].
    pub fn train_with_events(&self, corpus: &str) -> (r: (BpeTokenizer, Vec<BpeTrainingEvent>))
        requires
            ids_fit(text_words(corpus@), self.target()),
        ensures
            r.0.pieces() == vocab_after(r.0.merge_list()),
            exists|reason: BpeTrainingStopReason|
                {
                    &&& is_training_run(
                        text_words(corpus@),
                        self.target(),
                        r.0.merge_list(),
                        reason,
                    )
                    &&& #[trigger] tells_run(
                        r.1@,
                        text_words(corpus@),
                        self.target(),
                        r.0.merge_list(),
                        reason,
                    )
                },
    {
        let mut told = ToldTraining::begin(self.vocab_size, corpus);
        while told.stopped.is_none()
            invariant
                told.is_told(corpus@, self.target()),
            decreases told.events_left(),
        {
            told.advance(Ghost(corpus@), Ghost(self.target()));
        }
        proof {
            reveal(ToldTraining::is_told);
        }
        let ghost reason = told.stopped->Some_0;
        let tokenizer = BpeTokenizer::from_parts(told.run.merges, told.run.vocab);
        let result = (tokenizer, told.events);
        assert(tells_run(
            result.1@,
            text_words(corpus@),
            self.target(),
            result.0.merge_list(),
            reason,
        ));
        result
    }

    /// Trains on the words of a text, and hands the observer the events of the run as they come:
    /// the list of [`BpeTrainer::train_with_events`], one by one and in its order. The observer is
    /// called with nothing but what tells of the run: see [`tells_of`].
    pub fn train_with_observer<F: FnMut(BpeTrainingEvent)>(
        &self,
        corpus: &str,
        mut observer: F,
    ) -> (tokenizer: BpeTokenizer)
        requires
            ids_fit(text_words(corpus@), self.target()),
            forall|f: F, event: BpeTrainingEvent|
                tells_of(event, corpus@, self.target()) ==> #[trigger] call_requires(f, (event,)),
        ensures
            tokenizer.pieces() == vocab_after(tokenizer.merge_list()),
            exists|event: BpeTrainingEvent| #[trigger]
                call_ensures(observer, (event,), ()) && tells_start(
                    event,
                    text_words(corpus@),
                    self.target(),
                ),
            exists|events: Seq<BpeTrainingEvent>, reason: BpeTrainingStopReason|
                {
                    &&& is_training_run(
                        text_words(corpus@),
                        self.target(),
                        tokenizer.merge_list(),
                        reason,
                    )
                    &&& #[trigger] tells_run(
                        events,
                        text_words(corpus@),
                        self.target(),
                        tokenizer.merge_list(),
                        reason,
                    )
                    &&& forall|i: int| 0 <= i < events.len() ==> was_told::<F>(#[trigger] events[i])
                },
    {
        let ghost first = observer;
        let mut told = ToldTraining::begin(self.vocab_size, corpus);
        observer(told.events[0]);
        let ghost started = told.events@[0];
        assert(call_ensures(first, (started,), ()));
        while told.stopped.is_none()
            invariant
                told.is_told(corpus@, self.target()),
                told.events@.len() > 0,
                forall|f: F, event: BpeTrainingEvent|
                    tells_of(event, corpus@, self.target()) ==> #[trigger] call_requires(
                        f,
                        (event,),
                    ),
                forall|i: int|
                    0 <= i < told.events@.len() ==> was_told::<F>(#[trigger] told.events@[i]),
            decreases told.events_left(),
        {
            let ghost before = told.events@;
            told.advance(Ghost(corpus@), Ghost(self.target()));
            let last: usize = told.events.len() - 1;
            let event = told.events[last];
            let ghost teller = observer;
            observer(event);
            proof {
                assert(call_ensures(teller, (event,), ()));
                assert forall|i: int| 0 <= i < told.events@.len() implies was_told::<F>(
                    #[trigger] told.events@[i],
                ) by {
                    if i < before.len() {
                        assert(told.events@.drop_last()[i] == before[i]);
                    }
                }
            }
        }
        proof {
            reveal(ToldTraining::is_told);
            assert(tells_run(
                told.events@,
                text_words(corpus@),
                self.target(),
                told.run.merges_made(),
                told.stopped->Some_0,
            ));
        }
        BpeTokenizer::from_parts(told.run.merges, told.run.vocab)
    }
}

// ---------------------------------------------------------------------------------------
// Encoding and decoding
// ---------------------------------------------------------------------------------------

/// The rank of a pair: the place of its merge, the last one where there are several.
pub open spec fn rank_of(merges: Seq<Merge>, pair: Pair) -> Option<int>
    decreases merges.len(),
{
    if merges.len() == 0 {
        None
    } else if merges.last().0 == pair {
        Some(merges.len() - 1)
    } else {
        rank_of(merges.drop_last(), pair)
    }
}

/// The rank of the pair at a place.
pub open spec fn rank_at(tokens: Seq<u32>, merges: Seq<Merge>, p: int) -> Option<int> {
    rank_of(merges, (tokens[p], tokens[p + 1]))
}

/// Whether the pair at `p` is merged next: it has the lowest rank, and of the places with that
/// rank it is the first.
pub open spec fn merges_next(tokens: Seq<u32>, merges: Seq<Merge>, p: int) -> bool {
    &&& 0 <= p < tokens.len() - 1
    &&& rank_at(tokens, merges, p) is Some
    &&& forall|q: int|
        #![trigger rank_at(tokens, merges, q)]
        0 <= q < tokens.len() - 1 && rank_at(tokens, merges, q) is Some ==> {
            ||| rank_at(tokens, merges, p)->Some_0 < rank_at(tokens, merges, q)->Some_0
            ||| rank_at(tokens, merges, p) == rank_at(tokens, merges, q) && p <= q
        }
}

/// Tokens with the pair at `p` replaced.
pub open spec fn spliced(tokens: Seq<u32>, p: int, id: u32) -> Seq<u32> {
    tokens.take(p).push(id) + tokens.skip(p + 2)
}

/// The tokens of one word after all merges that apply.
pub open spec fn encoded_word(tokens: Seq<u32>, merges: Seq<Merge>) -> Seq<u32>
    decreases tokens.len(),
{
    if exists|p: int| merges_next(tokens, merges, p) {
        let p = choose|p: int| merges_next(tokens, merges, p);
        encoded_word(
            spliced(tokens, p, merges[rank_at(tokens, merges, p)->Some_0].1),
            merges,
        )
    } else {
        tokens
    }
}

/// The tokens of all words, one word after the other.
pub open spec fn encoded_words(words: Seq<Seq<u32>>, merges: Seq<Merge>) -> Seq<u32>
    decreases words.len(),
{
    if words.len() == 0 {
        Seq::empty()
    } else {
        encoded_words(words.drop_last(), merges) + encoded_word(words.last(), merges)
    }
}

/// The bytes of a token. A token outside the vocabulary has none.
pub open spec fn piece(vocab: Seq<Seq<u8>>, id: u32) -> Seq<u8> {
    if id < vocab.len() {
        vocab[id as int]
    } else {
        Seq::empty()
    }
}

/// The bytes of tokens, one token after the other.
pub open spec fn spelled(vocab: Seq<Seq<u8>>, ids: Seq<u32>) -> Seq<u8>
    decreases ids.len(),
{
    if ids.len() == 0 {
        Seq::empty()
    } else {
        spelled(vocab, ids.drop_last()) + piece(vocab, ids.last())
    }
}

/// Whether a table holds the rank of each pair.
spec fn ranks_are(ranks: Map<u64, u32>, merges: Seq<Merge>) -> bool {
    forall|pair: Pair|
        #![trigger pair_key(pair)]
        match rank_of(merges, pair) {
            None => !ranks.dom().contains(pair_key(pair)),
            Some(r) => ranks.dom().contains(pair_key(pair)) && ranks[pair_key(pair)] == r,
        }
}

/// A rank is the place of a merge of the pair.
pub proof fn lemma_rank_in_range(merges: Seq<Merge>, pair: Pair)
    ensures
        rank_of(merges, pair) matches Some(r) ==> 0 <= r < merges.len() && merges[r].0 == pair,
    decreases merges.len(),
{
    if merges.len() > 0 && merges.last().0 != pair {
        lemma_rank_in_range(merges.drop_last(), pair);
    }
}

/// A trained tokenizer: an ordered list of merges and the bytes of each token.
pub struct BpeTokenizer {
    merges: Vec<Merge>,
    merge_ranks: HashMap<u64, u32>,
    vocab: Vec<Vec<u8>>,
}

impl BpeTokenizer {
    #[verifier::type_invariant]
    spec fn ranks_follow_merges(self) -> bool {
        &&& self.merges@.len() <= 0x1_0000_0000
        &&& ranks_are(self.merge_ranks@, self.merges@)
    }

    /// The merges, in the order in which they were made.
    pub closed spec fn merge_list(self) -> Seq<Merge> {
        self.merges@
    }

    /// The bytes of each token.
    pub closed spec fn pieces(self) -> Seq<Seq<u8>> {
        byte_views(self.vocab@)
    }

    /// A tokenizer of the given merges and token bytes.
    pub fn from_parts(merges: Vec<Merge>, vocab: Vec<Vec<u8>>) -> (tokenizer: BpeTokenizer)
        requires
            merges@.len() <= 0x1_0000_0000,
        ensures
            tokenizer.merge_list() == merges@,
            tokenizer.pieces() == byte_views(vocab@),
    {
        let mut merge_ranks: HashMap<u64, u32> = HashMap::new();
        let mut i: usize = 0;
        while i < merges.len()
            invariant
                i <= merges@.len() <= 0x1_0000_0000,
                ranks_are(merge_ranks@, merges@.take(i as int)),
            decreases merges.len() - i,
        {
            let pair = merges[i].0;
            let key = key_of(pair.0, pair.1);
            let ghost before = merge_ranks@;
            merge_ranks.insert(key, i as u32);
            proof {
                let now = merges@.take(i as int + 1);
                assert(now.drop_last() == merges@.take(i as int));
                assert(now.last() == merges@[i as int]);
                assert forall|other: Pair| #![trigger pair_key(other)]
                    match rank_of(now, other) {
                        None => !merge_ranks@.dom().contains(pair_key(other)),
                        Some(r) => merge_ranks@.dom().contains(pair_key(other))
                            && merge_ranks@[pair_key(other)] == r,
                    } by {
                    if pair_key(other) == key {
                        lemma_pair_key_distinct(other, pair);
                    } else {
                        assert(other != pair);
                        assert(before.dom().contains(pair_key(other))
                            == merge_ranks@.dom().contains(pair_key(other)));
                    }
                }
            }
            i += 1;
        }
        assert(merges@.take(merges@.len() as int) == merges@);
        BpeTokenizer { merges, merge_ranks, vocab }
    }

    /// The merges, in the order in which they were made.
    pub fn merges(&self) -> (merges: &Vec<Merge>)
        ensures
            merges@ == self.merge_list(),
    {
        &self.merges
    }

    /// The bytes of each token.
    pub fn vocab(&self) -> (vocab: &Vec<Vec<u8>>)
        ensures
            byte_views(vocab@) == self.pieces(),
    {
        &self.vocab
    }

    /// The place to merge next: see [`merges_next`].
    fn next_merge(&self, tokens: &Vec<u32>) -> (best: Option<(usize, u32)>)
        ensures
            match best {
                Some((p, rank)) => merges_next(tokens@, self.merge_list(), p as int) && rank_at(
                    tokens@,
                    self.merge_list(),
                    p as int,
                ) == Some(rank as int),
                None => forall|p: int| !merges_next(tokens@, self.merge_list(), p),
            },
    {
        proof {
            use_type_invariant(self);
        }
        let ghost merges = self.merge_list();
        let mut best: Option<(usize, u32)> = None;
        if tokens.len() < 2 {
            return None;
        }
        let mut i: usize = 0;
        while i < tokens.len() - 1
            invariant
                i <= tokens@.len() - 1,
                tokens@.len() >= 2,
                merges == self.merges@,
                ranks_are(self.merge_ranks@, merges),
                match best {
                    Some((p, rank)) => p < i && rank_at(tokens@, merges, p as int) == Some(
                        rank as int,
                    ) && forall|q: int|
                        #![trigger rank_at(tokens@, merges, q)]
                        0 <= q < i && rank_at(tokens@, merges, q) is Some ==> rank < rank_at(
                            tokens@,
                            merges,
                            q,
                        )->Some_0 || (rank == rank_at(tokens@, merges, q)->Some_0 && p <= q),
                    None => forall|q: int|
                        0 <= q < i ==> (#[trigger] rank_at(tokens@, merges, q)) is None,
                },
            decreases tokens.len() - i,
        {
            let key = key_of(tokens[i], tokens[i + 1]);
            let ghost pair: Pair = (tokens@[i as int], tokens@[i as int + 1]);
            assert(pair_key(pair) == key);
            assert(rank_at(tokens@, merges, i as int) == rank_of(merges, pair));
            match self.merge_ranks.get(&key) {
                Some(rank) => {
                    let better = match best {
                        Some((_, lowest)) => *rank < lowest,
                        None => true,
                    };
                    if better {
                        best = Some((i, *rank));
                    }
                },
                None => {},
            }
            i += 1;
        }
        best
    }

    /// Merges within one word: see [`encoded_word`].
    fn encode_word(&self, tokens: Vec<u32>) -> (result: Vec<u32>)
        ensures
            result@ == encoded_word(tokens@, self.merge_list()),
    {
        let ghost merges = self.merge_list();
        let ghost start = tokens@;
        let mut tokens: Vec<u32> = tokens;
        let mut done = false;
        while !done
            invariant
                merges == self.merge_list(),
                encoded_word(start, merges) == encoded_word(tokens@, merges),
                done ==> encoded_word(tokens@, merges) == tokens@,
            decreases
                    tokens@.len() + (if done {
                        0nat
                    } else {
                        1nat
                    }),
        {
            match self.next_merge(&tokens) {
                None => {
                    done = true;
                },
                Some((p, rank)) => {
                    proof {
                        use_type_invariant(self);
                        let chosen = choose|q: int| merges_next(tokens@, merges, q);
                        assert(merges_next(tokens@, merges, p as int));
                        lemma_next_merge_unique(tokens@, merges, p as int, chosen);
                        lemma_rank_in_range(merges, (tokens@[p as int], tokens@[p as int + 1]));
                    }
                    let id = self.merges[rank as usize].1;
                    let next = splice(&tokens, p, id);
                    tokens = next;
                },
            }
        }
        tokens
    }

    /// The tokens of a text, word by word.
    fn encode_bytes(&self, corpus: &str) -> (result: Vec<u32>)
        ensures
            result@ == encoded_words(text_words(corpus@), self.merge_list()),
    {
        let ghost merges = self.merge_list();
        let mut words = word_tokens(corpus);
        let ghost views = token_views(words@);
        let mut result: Vec<u32> = Vec::new();
        let mut i: usize = 0;
        assert(views.take(0) == Seq::<Seq<u32>>::empty());
        while i < words.len()
            invariant
                i <= words@.len(),
                merges == self.merge_list(),
                views == token_views(words@),
                result@ == encoded_words(views.take(i as int), merges),
            decreases words.len() - i,
        {
            let mut word: Vec<u32> = Vec::new();
            append_tokens(&mut word, &words[i]);
            assert(word@ == views[i as int]);
            let tokens = self.encode_word(word);
            proof {
                assert(views.take(i as int + 1).drop_last() == views.take(i as int));
                assert(views.take(i as int + 1).last() == views[i as int]);
            }
            append_tokens(&mut result, &tokens);
            i += 1;
        }
        assert(views.take(views.len() as int) == views);
        result
    }
}

proof fn lemma_next_merge_unique(tokens: Seq<u32>, merges: Seq<Merge>, p: int, q: int)
    requires
        merges_next(tokens, merges, p),
        merges_next(tokens, merges, q),
    ensures
        p == q,
{
    assert(rank_at(tokens, merges, p) is Some);
    assert(rank_at(tokens, merges, q) is Some);
}

fn splice(tokens: &Vec<u32>, p: usize, id: u32) -> (result: Vec<u32>)
    requires
        p < tokens@.len() - 1,
    ensures
        result@ == spliced(tokens@, p as int, id),
{
    let n: usize = tokens.len();
    let mut result: Vec<u32> = Vec::new();
    let mut i: usize = 0;
    while i < p
        invariant
            i <= p < tokens@.len() - 1,
            result@ == tokens@.take(i as int),
        decreases p - i,
    {
        result.push(tokens[i]);
        assert(result@ == tokens@.take(i as int + 1));
        i += 1;
    }
    result.push(id);
    let ghost head = result@;
    let mut j: usize = p + 2;
    while j < n
        invariant
            p + 2 <= j <= n,
            n == tokens@.len(),
            result@ == head + tokens@.subrange(p as int + 2, j as int),
        decreases n - j,
    {
        result.push(tokens[j]);
        assert(result@ == head + tokens@.subrange(p as int + 2, j as int + 1));
        j += 1;
    }
    assert(tokens@.subrange(p as int + 2, j as int) == tokens@.skip(p as int + 2));
    result
}

impl Clone for BpeTokenizer {
    fn clone(&self) -> (copy: BpeTokenizer)
        ensures
            copy.merge_list() == self.merge_list(),
            copy.pieces() == self.pieces(),
    {
        proof {
            use_type_invariant(self);
        }
        let mut merges: Vec<Merge> = Vec::new();
        let mut i: usize = 0;
        while i < self.merges.len()
            invariant
                i <= self.merges@.len(),
                merges@ == self.merges@.take(i as int),
            decreases self.merges.len() - i,
        {
            merges.push(self.merges[i]);
            assert(merges@ == self.merges@.take(i as int + 1));
            i += 1;
        }
        assert(self.merges@.take(i as int) == self.merges@);
        let mut vocab: Vec<Vec<u8>> = Vec::new();
        let mut j: usize = 0;
        while j < self.vocab.len()
            invariant
                j <= self.vocab@.len(),
                byte_views(vocab@) == byte_views(self.vocab@).take(j as int),
            decreases self.vocab.len() - j,
        {
            let ghost before = vocab@;
            let mut piece: Vec<u8> = Vec::new();
            append_bytes(&mut piece, &self.vocab[j]);
            assert(piece@ == self.vocab@[j as int]@);
            vocab.push(piece);
            proof {
                assert(byte_views(vocab@) == byte_views(before).push(piece@));
                assert(byte_views(vocab@) == byte_views(self.vocab@).take(j as int + 1));
            }
            j += 1;
        }
        assert(byte_views(self.vocab@).take(j as int) == byte_views(self.vocab@));
        BpeTokenizer::from_parts(merges, vocab)
    }
}

impl Tokenizer for BpeTokenizer {
    open spec fn encoding(&self, text: Seq<char>) -> Seq<u32> {
        encoded_words(text_words(text), self.merge_list())
    }

    open spec fn decoding(&self, ids: Seq<u32>) -> Seq<char> {
        text::utf8_text(spelled(self.pieces(), ids))
    }

    open spec fn size(&self) -> nat {
        self.pieces().len()
    }

    fn encode(&self, text: &str) -> (ids: Vec<u32>) {
        self.encode_bytes(text)
    }

    fn decode(&self, ids: &[u32]) -> (text: String) {
        let ghost vocab = self.pieces();
        let mut bytes: Vec<u8> = Vec::new();
        let mut i: usize = 0;
        while i < ids.len()
            invariant
                i <= ids@.len(),
                vocab == byte_views(self.vocab@),
                bytes@ == spelled(vocab, ids@.take(i as int)),
            decreases ids.len() - i,
        {
            let id: usize = ids[i] as usize;
            proof {
                assert(ids@.take(i as int + 1).drop_last() == ids@.take(i as int));
                assert(ids@.take(i as int + 1).last() == ids@[i as int]);
            }
            if id < self.vocab.len() {
                append_bytes(&mut bytes, &self.vocab[id]);
            }
            assert(bytes@ == spelled(vocab, ids@.take(i as int + 1)));
            i += 1;
        }
        assert(ids@.take(ids@.len() as int) == ids@);
        text::text_of_bytes(bytes.as_slice())
    }

    fn vocab_size(&self) -> (n: usize) {
        self.vocab.len()
    }
}

// ---------------------------------------------------------------------------------------
// Laws
// ---------------------------------------------------------------------------------------

/// Whether the vocabulary says what the merges do: a byte is written as itself, and a merged
/// token is written as its pair.
pub open spec fn coherent(merges: Seq<Merge>, vocab: Seq<Seq<u8>>) -> bool {
    &&& vocab.len() >= 256
    &&& forall|i: int| 0 <= i < 256 ==> #[trigger] vocab[i] == seq![i as u8]
    &&& forall|k: int|
        0 <= k < merges.len() ==> {
            let merge = #[trigger] merges[k];
            &&& merge.0.0 < vocab.len()
            &&& merge.0.1 < vocab.len()
            &&& merge.1 < vocab.len()
            &&& vocab[merge.1 as int] == vocab[merge.0.0 as int] + vocab[merge.0.1 as int]
        }
}

/// A text without its whitespace.
pub open spec fn without_spaces(s: Seq<char>) -> Seq<char>
    decreases s.len(),
{
    if s.len() == 0 {
        s
    } else if text::is_space(s[0]) {
        without_spaces(s.skip(1))
    } else {
        seq![s[0]] + without_spaces(s.skip(1))
    }
}

/// Merges that are numbered in order keep the tokens below the next free number.
pub proof fn lemma_replayed_below(words: Seq<Seq<u32>>, merges: Seq<Merge>)
    requires
        tokens_below(words, 256),
        forall|k: int| 0 <= k < merges.len() ==> (#[trigger] merges[k]).1 == 256 + k,
    ensures
        tokens_below(replayed(words, merges), 256 + merges.len() as int),
    decreases merges.len(),
{
    if merges.len() > 0 {
        let less = merges.drop_last();
        assert forall|k: int| 0 <= k < less.len() implies (#[trigger] less[k]).1 == 256 + k by {
            assert(less[k] == merges[k]);
        }
        lemma_replayed_below(words, less);
        let stage = replayed(words, less);
        let bound = 256 + merges.len() as int;
        assert forall|i: int, j: int|
            0 <= i < stage.len() && 0 <= j < stage[i].len() implies #[trigger] stage[i][j] < bound by {}
        assert(merges[merges.len() - 1].1 == 256 + merges.len() - 1);
        lemma_merged_words_below(stage, merges.last(), bound);
    }
}

/// What training makes is coherent, and its vocabulary has the 256 bytes and one token for every
/// merge: exactly the target where the target was reached, and less where training stopped for
/// want of repeated pairs.
pub proof fn law_training_makes_coherent_vocabularies(
    corpus: Seq<char>,
    target: int,
    merges: Seq<Merge>,
    reason: BpeTrainingStopReason,
)
    requires
        is_training_run(text_words(corpus), target, merges, reason),
    ensures
        coherent(merges, vocab_after(merges)),
        vocab_after(merges).len() == 256 + merges.len(),
        vocab_after(merges).len() == 256 || vocab_after(merges).len() <= target,
        target >= 256 && reason == BpeTrainingStopReason::TargetVocabSizeReached
            ==> vocab_after(merges).len() == target,
        reason == BpeTrainingStopReason::TargetVocabSizeReached <==> vocab_after(merges).len()
            >= target,
{
    let words = text_words(corpus);
    lemma_vocab_after_len(merges);
    assert(numbered(merges)) by {
        lemma_text_words_are_bytes(corpus);
        lemma_greedy_is_numbered(words, merges);
    }
    lemma_numbered_is_coherent(merges);
    if merges.len() > 0 {
        let k = merges.len() - 1;
        assert(stops(replayed(words, merges.take(k)), 256 + k, target) is None);
    }
}

proof fn lemma_coherent_push(merges: Seq<Merge>, vocab: Seq<Seq<u8>>, merge: Merge)
    requires
        coherent(merges, vocab),
        merge.0.0 < vocab.len(),
        merge.0.1 < vocab.len(),
        merge.1 == vocab.len(),
    ensures
        coherent(
            merges.push(merge),
            vocab.push(vocab[merge.0.0 as int] + vocab[merge.0.1 as int]),
        ),
{
    let longer = vocab.push(vocab[merge.0.0 as int] + vocab[merge.0.1 as int]);
    let now = merges.push(merge);
    assert forall|k: int| 0 <= k < now.len() implies {
        let m = #[trigger] now[k];
        &&& m.0.0 < longer.len()
        &&& m.0.1 < longer.len()
        &&& m.1 < longer.len()
        &&& longer[m.1 as int] == longer[m.0.0 as int] + longer[m.0.1 as int]
    } by {
        if k < merges.len() {
            assert(now[k] == merges[k]);
        }
    }
    assert forall|i: int| 0 <= i < 256 implies #[trigger] longer[i] == seq![i as u8] by {
        assert(longer[i] == vocab[i]);
    }
}

proof fn lemma_merged_pair_below(words: Seq<Seq<u32>>, merges: Seq<Merge>, k: int)
    requires
        greedy(words, merges),
        tokens_below(words, 256),
        0 <= k < merges.len(),
    ensures
        merges[k].0.0 < 256 + k,
        merges[k].0.1 < 256 + k,
{
    let less = merges.take(k);
    assert forall|m: int| 0 <= m < less.len() implies (#[trigger] less[m]).1 == 256 + m by {
        assert(less[m] == merges[m]);
    }
    lemma_replayed_below(words, less);
    assert(pair_count(replayed(words, less), merges[k].0) >= 2);
    lemma_counted_pair_below(replayed(words, less), merges[k].0, 256 + k);
}

/// Whether each merge gives the next free token to a pair of tokens before it.
pub open spec fn numbered(merges: Seq<Merge>) -> bool {
    forall|k: int|
        0 <= k < merges.len() ==> {
            let merge = #[trigger] merges[k];
            merge.1 == 256 + k && merge.0.0 < 256 + k && merge.0.1 < 256 + k
        }
}

/// The merges of a training run on bytes are numbered in order.
pub proof fn lemma_greedy_is_numbered(words: Seq<Seq<u32>>, merges: Seq<Merge>)
    requires
        greedy(words, merges),
        tokens_below(words, 256),
    ensures
        numbered(merges),
{
    assert forall|k: int| 0 <= k < merges.len() implies {
        let merge = #[trigger] merges[k];
        merge.1 == 256 + k && merge.0.0 < 256 + k && merge.0.1 < 256 + k
    } by {
        lemma_merged_pair_below(words, merges, k);
    }
}

proof fn lemma_numbered_is_coherent(merges: Seq<Merge>)
    requires
        numbered(merges),
    ensures
        coherent(merges, vocab_after(merges)),
    decreases merges.len(),
{
    lemma_vocab_after_len(merges);
    if merges.len() > 0 {
        let less = merges.drop_last();
        let last = merges.len() - 1;
        assert forall|k: int| 0 <= k < less.len() implies {
            let merge = #[trigger] less[k];
            merge.1 == 256 + k && merge.0.0 < 256 + k && merge.0.1 < 256 + k
        } by {
            assert(less[k] == merges[k]);
        }
        lemma_numbered_is_coherent(less);
        lemma_vocab_after_len(less);
        assert(merges[last].1 == 256 + last);
        lemma_coherent_push(less, vocab_after(less), merges[last]);
        assert(merges == less.push(merges[last]));
    }
}

proof fn lemma_spelled_concat(vocab: Seq<Seq<u8>>, a: Seq<u32>, b: Seq<u32>)
    ensures
        spelled(vocab, a + b) == spelled(vocab, a) + spelled(vocab, b),
    decreases b.len(),
{
    if b.len() == 0 {
        assert(a + b == a);
        assert(spelled(vocab, a) + spelled(vocab, b) == spelled(vocab, a));
    } else {
        lemma_spelled_concat(vocab, a, b.drop_last());
        assert((a + b).drop_last() == a + b.drop_last());
        assert((a + b).last() == b.last());
        assert(spelled(vocab, a) + (spelled(vocab, b.drop_last()) + piece(vocab, b.last())) == (
        spelled(vocab, a) + spelled(vocab, b.drop_last())) + piece(vocab, b.last()));
    }
}

proof fn lemma_spelled_one(vocab: Seq<Seq<u8>>, id: u32)
    ensures
        spelled(vocab, seq![id]) == piece(vocab, id),
{
    assert(seq![id].drop_last() == Seq::<u32>::empty());
    assert(spelled(vocab, Seq::<u32>::empty()) == Seq::<u8>::empty());
    assert(Seq::<u8>::empty() + piece(vocab, id) == piece(vocab, id));
}

proof fn lemma_splice_spells(merges: Seq<Merge>, vocab: Seq<Seq<u8>>, tokens: Seq<u32>, p: int)
    requires
        coherent(merges, vocab),
        merges_next(tokens, merges, p),
    ensures
        spelled(vocab, spliced(tokens, p, merges[rank_at(tokens, merges, p)->Some_0].1)) == spelled(
            vocab,
            tokens,
        ),
{
    let pair: Pair = (tokens[p], tokens[p + 1]);
    lemma_rank_in_range(merges, pair);
    let r = rank_at(tokens, merges, p)->Some_0;
    let id = merges[r].1;
    assert(merges[r].0 == pair);
    let head = tokens.take(p);
    let tail = tokens.skip(p + 2);
    let two = seq![tokens[p], tokens[p + 1]];
    assert(tokens == head + two + tail);
    assert(spliced(tokens, p, id) == head + seq![id] + tail);
    assert(two == seq![tokens[p]] + seq![tokens[p + 1]]);
    lemma_spelled_concat(vocab, seq![tokens[p]], seq![tokens[p + 1]]);
    lemma_spelled_one(vocab, tokens[p]);
    lemma_spelled_one(vocab, tokens[p + 1]);
    lemma_spelled_one(vocab, id);
    lemma_spelled_concat(vocab, head, two);
    lemma_spelled_concat(vocab, head + two, tail);
    lemma_spelled_concat(vocab, head, seq![id]);
    lemma_spelled_concat(vocab, head + seq![id], tail);
}

/// Merging a word changes nothing of what its tokens spell.
pub proof fn law_encoding_keeps_the_bytes(
    merges: Seq<Merge>,
    vocab: Seq<Seq<u8>>,
    tokens: Seq<u32>,
)
    requires
        coherent(merges, vocab),
    ensures
        spelled(vocab, encoded_word(tokens, merges)) == spelled(vocab, tokens),
    decreases tokens.len(),
{
    if exists|p: int| merges_next(tokens, merges, p) {
        let p = choose|p: int| merges_next(tokens, merges, p);
        lemma_splice_spells(merges, vocab, tokens, p);
        law_encoding_keeps_the_bytes(
            merges,
            vocab,
            spliced(tokens, p, merges[rank_at(tokens, merges, p)->Some_0].1),
        );
    }
}

proof fn lemma_bytes_spell_themselves(vocab: Seq<Seq<u8>>, bytes: Seq<u8>)
    requires
        vocab.len() >= 256,
        forall|i: int| 0 <= i < 256 ==> #[trigger] vocab[i] == seq![i as u8],
    ensures
        spelled(vocab, byte_tokens(bytes)) == bytes,
    decreases bytes.len(),
{
    if bytes.len() > 0 {
        lemma_bytes_spell_themselves(vocab, bytes.drop_last());
        assert(byte_tokens(bytes).drop_last() == byte_tokens(bytes.drop_last()));
        assert(byte_tokens(bytes).last() == bytes.last() as u32);
        assert(vocab[bytes.last() as int] == seq![bytes.last()]);
        assert(bytes == bytes.drop_last() + seq![bytes.last()]);
    } else {
        assert(byte_tokens(bytes) == Seq::<u32>::empty());
        assert(spelled(vocab, byte_tokens(bytes)) == bytes);
    }
}

proof fn lemma_encoded_words_front(first: Seq<u32>, rest: Seq<Seq<u32>>, merges: Seq<Merge>)
    ensures
        encoded_words(seq![first] + rest, merges) == encoded_word(first, merges) + encoded_words(
            rest,
            merges,
        ),
    decreases rest.len(),
{
    let all = seq![first] + rest;
    if rest.len() == 0 {
        assert(all.drop_last() == rest);
        assert(encoded_words(rest, merges) == Seq::<u32>::empty());
        assert(all.last() == first);
        assert(Seq::<u32>::empty() + encoded_word(first, merges) == encoded_word(first, merges)
            + Seq::<u32>::empty());
    } else {
        lemma_encoded_words_front(first, rest.drop_last(), merges);
        assert(all.drop_last() == seq![first] + rest.drop_last());
        assert(all.last() == rest.last());
        assert((encoded_word(first, merges) + encoded_words(rest.drop_last(), merges))
            + encoded_word(rest.last(), merges) == encoded_word(first, merges) + (encoded_words(
            rest.drop_last(),
            merges,
        ) + encoded_word(rest.last(), merges)));
    }
}

proof fn lemma_without_leading_spaces(s: Seq<char>)
    ensures
        without_spaces(s) == without_spaces(s.skip(text::leading_spaces(s) as int)),
    decreases s.len(),
{
    text::lemma_leading_spaces(s);
    if s.len() > 0 && text::is_space(s[0]) {
        lemma_without_leading_spaces(s.skip(1));
        let n = text::leading_spaces(s) as int;
        assert(s.skip(1).skip(n - 1) == s.skip(n));
    } else {
        assert(s.skip(0) == s);
    }
}

proof fn lemma_word_has_no_spaces(s: Seq<char>)
    ensures
        without_spaces(s) == s.take(text::word_len(s) as int) + without_spaces(
            s.skip(text::word_len(s) as int),
        ),
    decreases s.len(),
{
    text::lemma_word_len(s);
    let n = text::word_len(s) as int;
    if s.len() > 0 && !text::is_space(s[0]) {
        let rest = s.skip(1);
        lemma_word_has_no_spaces(rest);
        text::lemma_word_len(rest);
        assert(rest.skip(n - 1) == s.skip(n));
        assert(s.take(n) == seq![s[0]] + rest.take(n - 1));
        assert(seq![s[0]] + (rest.take(n - 1) + without_spaces(s.skip(n))) == s.take(n)
            + without_spaces(s.skip(n)));
    } else {
        assert(s.skip(0) == s);
        assert(s.take(0) + without_spaces(s) == without_spaces(s));
    }
}

/// The tokens of a text spell the text without its whitespace, and so decode to it: decoding
/// gives back what was encoded, up to the whitespace between words.
pub proof fn law_decoding_gives_back_the_words(
    merges: Seq<Merge>,
    vocab: Seq<Seq<u8>>,
    s: Seq<char>,
)
    requires
        coherent(merges, vocab),
    ensures
        spelled(vocab, encoded_words(text_words(s), merges)) == utf8::encode_utf8(
            without_spaces(s),
        ),
        text::utf8_text(spelled(vocab, encoded_words(text_words(s), merges))) == without_spaces(s),
{
    lemma_words_spell(merges, vocab, s);
    text::lemma_utf8_text_of_text(without_spaces(s));
}

proof fn lemma_words_spell(merges: Seq<Merge>, vocab: Seq<Seq<u8>>, s: Seq<char>)
    requires
        coherent(merges, vocab),
    ensures
        spelled(vocab, encoded_words(text_words(s), merges)) == utf8::encode_utf8(
            without_spaces(s),
        ),
    decreases s.len(),
{
    let start = text::leading_spaces(s) as int;
    text::lemma_leading_spaces(s);
    lemma_without_leading_spaces(s);
    let rest = s.skip(start);
    if start >= s.len() {
        assert(text_words(s) == Seq::<Seq<u32>>::empty());
        assert(rest == Seq::<char>::empty());
        assert(encoded_words(text_words(s), merges) == Seq::<u32>::empty());
        assert(spelled(vocab, Seq::<u32>::empty()) == Seq::<u8>::empty());
        assert(without_spaces(rest) == Seq::<char>::empty());
        assert(utf8::encode_utf8(Seq::<char>::empty()) == Seq::<u8>::empty());
    } else {
        let k = text::word_len(rest) as int;
        text::lemma_word_len(rest);
        assert(rest[0] == s[start]);
        let word = rest.take(k);
        let tail = rest.skip(k);
        let first = byte_tokens(utf8::encode_utf8(word));
        assert(text_words(s) == seq![first] + text_words(tail)) by {
            let all = text::words(s);
            assert(all == seq![word] + text::words(tail));
            assert forall|i: int| 0 <= i < all.len() implies text_words(s)[i] == (seq![first]
                + text_words(tail))[i] by {
                if i > 0 {
                    assert(all[i] == text::words(tail)[i - 1]);
                }
            }
        }
        lemma_words_spell(merges, vocab, tail);
        lemma_encoded_words_front(first, text_words(tail), merges);
        lemma_spelled_concat(
            vocab,
            encoded_word(first, merges),
            encoded_words(text_words(tail), merges),
        );
        law_encoding_keeps_the_bytes(merges, vocab, first);
        lemma_bytes_spell_themselves(vocab, utf8::encode_utf8(word));
        lemma_word_has_no_spaces(rest);
        lemma_encode_concat(word, without_spaces(tail));
    }
}

/// A tokenizer is its merges and the bytes of its tokens: one that is put together again from the
/// parts of another encodes and decodes as that one does.
pub proof fn law_parts_make_the_tokenizer(
    a: BpeTokenizer,
    b: BpeTokenizer,
    text: Seq<char>,
    ids: Seq<u32>,
)
    requires
        a.merge_list() == b.merge_list(),
        a.pieces() == b.pieces(),
    ensures
        a.encoding(text) == b.encoding(text),
        a.decoding(ids) == b.decoding(ids),
        a.size() == b.size(),
{
}

} // verus!

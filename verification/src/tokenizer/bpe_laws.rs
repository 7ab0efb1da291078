//! What holds of every training run and of every encoding.
use vstd::arithmetic::power2::{
    lemma2_to64, lemma_pow2_strictly_increases, lemma_pow2_unfold, pow2,
};
use vstd::prelude::*;

use crate::text;
use crate::tokenizer::bpe;
use crate::tokenizer::bpe::{
    BpeTokenizer, BpeTrainingEvent, BpeTrainingStopReason, Merge, Pair,
};
use crate::tokenizer::Tokenizer;

verus! {

// ---------------------------------------------------------------------------------------
// Counts
// ---------------------------------------------------------------------------------------

/// How often a token occurs in a word.
spec fn tokens_in(word: Seq<u32>, token: u32) -> nat
    decreases word.len(),
{
    if word.len() == 0 {
        0
    } else {
        tokens_in(word.drop_last(), token) + (if word.last() == token {
            1nat
        } else {
            0nat
        })
    }
}

proof fn lemma_tokens_in_front(first: u32, rest: Seq<u32>, token: u32)
    ensures
        tokens_in(seq![first] + rest, token) == tokens_in(rest, token) + (if first == token {
            1nat
        } else {
            0nat
        }),
    decreases rest.len(),
{
    let whole = seq![first] + rest;
    if rest.len() == 0 {
        assert(whole.drop_last() == rest);
        assert(whole.last() == first);
    } else {
        lemma_tokens_in_front(first, rest.drop_last(), token);
        assert(whole.drop_last() == seq![first] + rest.drop_last());
        assert(whole.last() == rest.last());
    }
}

/// A pair occurs no more often than either of its tokens.
proof fn lemma_pairs_within_tokens(word: Seq<u32>, pair: Pair)
    ensures
        bpe::pairs_in(word, pair) <= tokens_in(word, pair.1),
        word.len() > 0 ==> bpe::pairs_in(word, pair) <= tokens_in(word.drop_last(), pair.0),
        bpe::pairs_in(word, pair) <= tokens_in(word, pair.0),
    decreases word.len(),
{
    if word.len() >= 2 {
        lemma_pairs_within_tokens(word.drop_last(), pair);
        assert(word.drop_last().last() == word[word.len() - 2]);
    }
}

proof fn lemma_pairs_in_front(first: u32, rest: Seq<u32>, pair: Pair)
    ensures
        bpe::pairs_in(seq![first] + rest, pair) == bpe::pairs_in(rest, pair) + (if rest.len() > 0
            && first == pair.0 && rest[0] == pair.1 {
            1nat
        } else {
            0nat
        }),
    decreases rest.len(),
{
    let whole = seq![first] + rest;
    if rest.len() == 0 {
    } else if rest.len() == 1 {
        assert(bpe::pairs_in(whole.drop_last(), pair) == 0);
        assert(whole[whole.len() - 2] == first);
        assert(whole.last() == rest[0]);
    } else {
        lemma_pairs_in_front(first, rest.drop_last(), pair);
        assert(whole.drop_last() == seq![first] + rest.drop_last());
        assert(whole.last() == rest.last());
        assert(whole[whole.len() - 2] == rest[rest.len() - 2]);
        assert(rest.drop_last()[0] == rest[0]);
    }
}

/// A new token stands at most as often as its pair did.
proof fn lemma_new_token_count(word: Seq<u32>, pair: Pair, id: u32)
    requires
        forall|j: int| 0 <= j < word.len() ==> #[trigger] word[j] != id,
    ensures
        tokens_in(bpe::merged(word, pair, id), id) <= bpe::pairs_in(word, pair),
    decreases word.len(),
{
    if word.len() == 0 {
    } else {
        let next = word.skip(1);
        assert(word == seq![word[0]] + next);
        lemma_pairs_in_front(word[0], next, pair);
        if word.len() >= 2 && word[0] == pair.0 && word[1] == pair.1 {
            let rest = word.skip(2);
            assert(next == seq![word[1]] + rest);
            lemma_pairs_in_front(word[1], rest, pair);
            lemma_new_token_count(rest, pair, id);
            lemma_tokens_in_front(id, bpe::merged(rest, pair, id), id);
        } else {
            lemma_new_token_count(next, pair, id);
            lemma_tokens_in_front(word[0], bpe::merged(next, pair, id), id);
        }
    }
}

proof fn lemma_merged_head(word: Seq<u32>, pair: Pair, id: u32)
    requires
        word.len() > 0,
    ensures
        bpe::merged(word, pair, id).len() > 0,
        bpe::merged(word, pair, id)[0] == id || bpe::merged(word, pair, id)[0] == word[0],
{
}

/// A pair of old tokens does not occur more often than before.
proof fn lemma_old_pair_count(word: Seq<u32>, pair: Pair, id: u32, other: Pair)
    requires
        other.0 != id,
        other.1 != id,
    ensures
        bpe::pairs_in(bpe::merged(word, pair, id), other) <= bpe::pairs_in(word, other),
    decreases word.len(),
{
    if word.len() == 0 {
    } else {
        let next = word.skip(1);
        assert(word == seq![word[0]] + next);
        lemma_pairs_in_front(word[0], next, other);
        if word.len() >= 2 && word[0] == pair.0 && word[1] == pair.1 {
            let rest = word.skip(2);
            assert(next == seq![word[1]] + rest);
            lemma_pairs_in_front(word[1], rest, other);
            lemma_old_pair_count(rest, pair, id, other);
            lemma_pairs_in_front(id, bpe::merged(rest, pair, id), other);
        } else {
            lemma_old_pair_count(next, pair, id, other);
            let after = bpe::merged(next, pair, id);
            lemma_pairs_in_front(word[0], after, other);
            if next.len() > 0 {
                lemma_merged_head(next, pair, id);
            }
        }
    }
}

proof fn lemma_pair_count_after_merge(words: Seq<Seq<u32>>, merge: Merge, other: Pair)
    requires
        bpe::tokens_below(words, merge.1 as int),
    ensures
        other.0 == merge.1 || other.1 == merge.1 ==> bpe::pair_count(
            bpe::merged_words(words, merge),
            other,
        ) <= bpe::pair_count(words, merge.0),
        other.0 != merge.1 && other.1 != merge.1 ==> bpe::pair_count(
            bpe::merged_words(words, merge),
            other,
        ) <= bpe::pair_count(words, other),
    decreases words.len(),
{
    if words.len() > 0 {
        let less = words.drop_last();
        let word = words.last();
        assert forall|i: int, j: int|
            0 <= i < less.len() && 0 <= j < less[i].len() implies #[trigger] less[i][j]
            < merge.1 by {
            assert(words[i][j] < merge.1);
        }
        assert forall|j: int| 0 <= j < word.len() implies #[trigger] word[j] != merge.1 by {
            assert(words[words.len() - 1][j] < merge.1);
        }
        lemma_pair_count_after_merge(less, merge, other);
        assert(bpe::merged_words(words, merge).drop_last() == bpe::merged_words(less, merge));
        let after = bpe::merged(word, merge.0, merge.1);
        assert(bpe::merged_words(words, merge).last() == after);
        if other.0 == merge.1 || other.1 == merge.1 {
            lemma_new_token_count(word, merge.0, merge.1);
            lemma_pairs_within_tokens(after, other);
        } else {
            lemma_old_pair_count(word, merge.0, merge.1, other);
        }
    }
}

/// Each merge takes a pair that occurs at most as often as the pair of the merge before it did.
pub proof fn law_merge_counts_never_rise(corpus: Seq<char>, merges: Seq<Merge>, k: int)
    requires
        bpe::greedy(bpe::text_words(corpus), merges),
        0 <= k < merges.len() - 1,
    ensures
        bpe::pair_count(
            bpe::replayed(bpe::text_words(corpus), merges.take(k + 1)),
            merges[k + 1].0,
        ) <= bpe::pair_count(
            bpe::replayed(bpe::text_words(corpus), merges.take(k)),
            merges[k].0,
        ),
{
    let words = bpe::text_words(corpus);
    let left = bpe::replayed(words, merges.take(k));
    let merge = merges[k];
    bpe::lemma_text_words_are_bytes(corpus);
    let less = merges.take(k);
    assert forall|m: int| 0 <= m < less.len() implies (#[trigger] less[m]).1 == 256 + m by {
        assert(less[m] == merges[m]);
    }
    bpe::lemma_replayed_below(words, less);
    assert(merges.take(k + 1).drop_last() == less);
    assert(merges.take(k + 1).last() == merge);
    let other = merges[k + 1].0;
    lemma_pair_count_after_merge(left, merge, other);
    assert(bpe::most_frequent(left, merge.0));
    assert(bpe::pair_count(left, other) <= bpe::pair_count(left, merge.0));
}

/// What is told of the merges of a run: each pair occurred at least twice, and the counts never
/// rise from one merge to the next.
pub proof fn law_told_counts_never_rise(
    events: Seq<BpeTrainingEvent>,
    corpus: Seq<char>,
    target: int,
    merges: Seq<Merge>,
    reason: BpeTrainingStopReason,
    i: int,
)
    requires
        bpe::is_training_run(bpe::text_words(corpus), target, merges, reason),
        bpe::tells_run(events, bpe::text_words(corpus), target, merges, reason),
        1 <= i < merges.len(),
    ensures
        match (events[i], events[i + 1]) {
            (
                BpeTrainingEvent::Merge { count: before, .. },
                BpeTrainingEvent::Merge { count: after, .. },
            ) => 2 <= after <= before,
            _ => false,
        },
{
    let words = bpe::text_words(corpus);
    law_merge_counts_never_rise(corpus, merges, i - 1);
    let told = events.drop_last();
    assert(told[i] == events[i]);
    assert(told[i + 1] == events[i + 1]);
    assert(bpe::tells_merge(told[i], words, merges, i - 1));
    assert(bpe::tells_merge(told[i + 1], words, merges, i));
    assert(bpe::pair_count(bpe::replayed(words, merges.take(i)), merges[i].0) >= 2);
}

// ---------------------------------------------------------------------------------------
// How far training goes
// ---------------------------------------------------------------------------------------

/// A merge leaves at least half of the tokens of a word.
proof fn lemma_merged_halves_at_most(word: Seq<u32>, pair: Pair, id: u32)
    ensures
        2 * bpe::merged(word, pair, id).len() >= word.len(),
    decreases word.len(),
{
    if word.len() == 0 {
    } else if word.len() >= 2 && word[0] == pair.0 && word[1] == pair.1 {
        lemma_merged_halves_at_most(word.skip(2), pair, id);
    } else {
        lemma_merged_halves_at_most(word.skip(1), pair, id);
    }
}

proof fn lemma_replayed_word_len(words: Seq<Seq<u32>>, merges: Seq<Merge>, i: int)
    requires
        0 <= i < words.len(),
    ensures
        bpe::replayed(words, merges).len() == words.len(),
        bpe::replayed(words, merges)[i].len() * pow2(merges.len()) >= words[i].len(),
    decreases merges.len(),
{
    if merges.len() == 0 {
        lemma2_to64();
        assert(words[i].len() * pow2(0) == words[i].len()) by (nonlinear_arith)
            requires
                pow2(0) == 1,
        ;
    } else {
        let less = merges.drop_last();
        lemma_replayed_word_len(words, less, i);
        let before = bpe::replayed(words, less)[i];
        let after = bpe::replayed(words, merges)[i];
        lemma_merged_halves_at_most(before, merges.last().0, merges.last().1);
        lemma_pow2_unfold(merges.len());
        assert(after.len() * pow2(merges.len()) >= before.len() * pow2(less.len()))
            by (nonlinear_arith)
            requires
                2 * after.len() >= before.len(),
                pow2(merges.len()) == 2 * pow2(less.len()),
        ;
    }
}

proof fn lemma_equal_words_stay_equal(
    words: Seq<Seq<u32>>,
    merges: Seq<Merge>,
    i: int,
    j: int,
)
    requires
        0 <= i < words.len(),
        0 <= j < words.len(),
        words[i] == words[j],
    ensures
        bpe::replayed(words, merges).len() == words.len(),
        bpe::replayed(words, merges)[i] == bpe::replayed(words, merges)[j],
    decreases merges.len(),
{
    if merges.len() > 0 {
        lemma_equal_words_stay_equal(words, merges.drop_last(), i, j);
    }
}

proof fn lemma_first_pair_counts(word: Seq<u32>)
    requires
        word.len() >= 2,
    ensures
        bpe::pairs_in(word, (word[0], word[1])) >= 1,
{
    let rest = word.skip(1);
    assert(word == seq![word[0]] + rest);
    lemma_pairs_in_front(word[0], rest, (word[0], word[1]));
}

proof fn lemma_count_of_two_words(words: Seq<Seq<u32>>, i: int, j: int, pair: Pair)
    requires
        0 <= i < j < words.len(),
    ensures
        bpe::pair_count(words, pair) >= bpe::pairs_in(words[i], pair) + bpe::pairs_in(
            words[j],
            pair,
        ),
    decreases words.len(),
{
    let less = words.drop_last();
    if j < words.len() - 1 {
        lemma_count_of_two_words(less, i, j, pair);
    } else {
        lemma_count_of_one_word(less, i, pair);
    }
}

proof fn lemma_count_of_one_word(words: Seq<Seq<u32>>, i: int, pair: Pair)
    requires
        0 <= i < words.len(),
    ensures
        bpe::pair_count(words, pair) >= bpe::pairs_in(words[i], pair),
    decreases words.len(),
{
    if i < words.len() - 1 {
        lemma_count_of_one_word(words.drop_last(), i, pair);
    }
}

/// A word of a text that stands there twice carries training on: each merge leaves at least half
/// of its tokens, and as long as two are left a pair is repeated. Where the word has more than
/// `pow2(n)` bytes, every vocabulary of up to `257 + n` tokens is reached.
pub proof fn law_a_repeated_word_carries_training(
    corpus: Seq<char>,
    target: int,
    merges: Seq<Merge>,
    reason: BpeTrainingStopReason,
    i: int,
    j: int,
    n: nat,
)
    requires
        bpe::is_training_run(bpe::text_words(corpus), target, merges, reason),
        0 <= i < j < bpe::text_words(corpus).len(),
        bpe::text_words(corpus)[i] == bpe::text_words(corpus)[j],
        bpe::text_words(corpus)[i].len() > pow2(n),
        256 <= target <= 257 + n,
    ensures
        reason == BpeTrainingStopReason::TargetVocabSizeReached,
        merges.len() == target - 256,
        bpe::vocab_after(merges).len() == target,
{
    let words = bpe::text_words(corpus);
    let left = bpe::replayed(words, merges);
    let k = merges.len();
    bpe::law_training_makes_coherent_vocabularies(corpus, target, merges, reason);
    if k <= n && 256 + k < target {
        lemma_replayed_word_len(words, merges, i);
        lemma_equal_words_stay_equal(words, merges, i, j);
        let word = left[i];
        if k < n {
            lemma_pow2_strictly_increases(k, n);
        }
        assert(word.len() >= 2) by (nonlinear_arith)
            requires
                word.len() * pow2(k) > pow2(k),
                pow2(k) >= 0,
        ;
        lemma_first_pair_counts(word);
        let pair: Pair = (word[0], word[1]);
        lemma_count_of_two_words(left, i, j, pair);
        assert(bpe::pair_count(left, pair) >= 2);
    }
}

// ---------------------------------------------------------------------------------------
// Encodings
// ---------------------------------------------------------------------------------------

proof fn lemma_leading_spaces_are(s: Seq<char>, n: int)
    requires
        0 <= n <= s.len(),
        forall|j: int| 0 <= j < n ==> text::is_space(#[trigger] s[j]),
        n < s.len() ==> !text::is_space(s[n]),
    ensures
        text::leading_spaces(s) == n,
{
    text::lemma_leading_spaces(s);
    let m = text::leading_spaces(s) as int;
    if m < n {
        assert(text::is_space(s[m]));
    } else if n < m {
        assert(text::is_space(s[n]));
    }
}

proof fn lemma_word_len_is(s: Seq<char>, n: int)
    requires
        0 <= n <= s.len(),
        forall|j: int| 0 <= j < n ==> !text::is_space(#[trigger] s[j]),
        n < s.len() ==> text::is_space(s[n]),
    ensures
        text::word_len(s) == n,
{
    text::lemma_word_len(s);
    let m = text::word_len(s) as int;
    if m < n {
        assert(!text::is_space(s[m]));
    } else if n < m {
        assert(!text::is_space(s[n]));
    }
}

/// Whether a text is nothing but whitespace.
pub open spec fn all_spaces(s: Seq<char>) -> bool {
    forall|j: int| 0 <= j < s.len() ==> text::is_space(#[trigger] s[j])
}

proof fn lemma_words_after_spaces(s: Seq<char>, b: Seq<char>)
    requires
        all_spaces(s),
    ensures
        text::words(s + b) == text::words(b),
{
    let n = text::leading_spaces(b) as int;
    text::lemma_leading_spaces(b);
    let whole = s + b;
    assert forall|j: int| 0 <= j < s.len() + n implies text::is_space(#[trigger] whole[j]) by {
        if j < s.len() {
            assert(whole[j] == s[j]);
        } else {
            assert(whole[j] == b[j - s.len()]);
        }
    }
    lemma_leading_spaces_are(whole, s.len() + n);
    assert(whole.skip(s.len() + n) == b.skip(n));
}

/// Where whitespace parts a text, its words are those of the two parts.
pub proof fn law_words_of_parts(a: Seq<char>, s: Seq<char>, b: Seq<char>)
    requires
        all_spaces(s),
        s.len() > 0,
    ensures
        text::words(a + s + b) == text::words(a) + text::words(b),
    decreases a.len(),
{
    let whole = a + s + b;
    let start = text::leading_spaces(a) as int;
    text::lemma_leading_spaces(a);
    if start >= a.len() {
        assert forall|j: int| 0 <= j < (a + s).len() implies text::is_space(
            #[trigger] (a + s)[j],
        ) by {
            if j < a.len() {
                assert((a + s)[j] == a[j]);
            } else {
                assert((a + s)[j] == s[j - a.len()]);
            }
        }
        lemma_words_after_spaces(a + s, b);
        assert(text::words(a) + text::words(b) == text::words(b));
    } else {
        assert forall|j: int| 0 <= j < start implies text::is_space(#[trigger] whole[j]) by {
            assert(whole[j] == a[j]);
        }
        assert(whole[start] == a[start]);
        lemma_leading_spaces_are(whole, start);
        let rest = a.skip(start);
        let more = whole.skip(start);
        let k = text::word_len(rest) as int;
        text::lemma_word_len(rest);
        assert(rest[0] == a[start]);
        assert forall|j: int| 0 <= j < k implies !text::is_space(#[trigger] more[j]) by {
            assert(more[j] == rest[j]);
        }
        if k < rest.len() {
            assert(more[k] == rest[k]);
        } else {
            assert(more[k] == s[0]);
        }
        lemma_word_len_is(more, k);
        assert(more.take(k) == rest.take(k));
        let tail = rest.skip(k);
        assert(more.skip(k) == tail + s + b);
        law_words_of_parts(tail, s, b);
        let first = seq![rest.take(k)];
        assert(first + (text::words(tail) + text::words(b)) == (first + text::words(tail))
            + text::words(b));
    }
}

/// A text without whitespace is one word.
pub proof fn law_one_word(w: Seq<char>)
    requires
        w.len() > 0,
        forall|j: int| 0 <= j < w.len() ==> !text::is_space(#[trigger] w[j]),
    ensures
        text::words(w) == seq![w],
{
    lemma_leading_spaces_are(w, 0);
    lemma_word_len_is(w, w.len() as int);
    assert(w.skip(0) == w);
    assert(w.take(w.len() as int) == w);
    let rest = w.skip(w.len() as int);
    assert(rest == Seq::<char>::empty());
    assert(text::words(rest) == Seq::<Seq<char>>::empty());
}

proof fn lemma_encoded_words_concat(a: Seq<Seq<u32>>, b: Seq<Seq<u32>>, merges: Seq<Merge>)
    ensures
        bpe::encoded_words(a + b, merges) == bpe::encoded_words(a, merges) + bpe::encoded_words(
            b,
            merges,
        ),
    decreases b.len(),
{
    if b.len() == 0 {
        assert(a + b == a);
        assert(bpe::encoded_words(a, merges) + bpe::encoded_words(b, merges)
            == bpe::encoded_words(a, merges));
    } else {
        lemma_encoded_words_concat(a, b.drop_last(), merges);
        assert((a + b).drop_last() == a + b.drop_last());
        assert((a + b).last() == b.last());
        assert((bpe::encoded_words(a, merges) + bpe::encoded_words(b.drop_last(), merges))
            + bpe::encoded_word(b.last(), merges) == bpe::encoded_words(a, merges) + (
        bpe::encoded_words(b.drop_last(), merges) + bpe::encoded_word(b.last(), merges)));
    }
}

/// Words are encoded one by one: where whitespace parts a text, its tokens are those of the two
/// parts, one after the other.
pub proof fn law_encoding_goes_word_by_word(
    tokenizer: BpeTokenizer,
    a: Seq<char>,
    s: Seq<char>,
    b: Seq<char>,
)
    requires
        s.len() > 0,
        all_spaces(s),
    ensures
        tokenizer.encoding(a + s + b) == tokenizer.encoding(a) + tokenizer.encoding(b),
{
    law_words_of_parts(a, s, b);
    let all = text::words(a + s + b);
    assert(bpe::text_words(a + s + b) == bpe::text_words(a) + bpe::text_words(b)) by {
        assert forall|i: int| 0 <= i < all.len() implies bpe::text_words(a + s + b)[i] == (
        bpe::text_words(a) + bpe::text_words(b))[i] by {
            if i < text::words(a).len() {
                assert(all[i] == text::words(a)[i]);
            } else {
                assert(all[i] == text::words(b)[i - text::words(a).len()]);
            }
        }
    }
    lemma_encoded_words_concat(bpe::text_words(a), bpe::text_words(b), tokenizer.merge_list());
}

/// Whether every token of a word is below `bound`.
spec fn word_below(word: Seq<u32>, bound: int) -> bool {
    forall|j: int| 0 <= j < word.len() ==> #[trigger] word[j] < bound
}

proof fn lemma_encoded_word_below(tokens: Seq<u32>, merges: Seq<Merge>, bound: int)
    requires
        word_below(tokens, bound),
        forall|k: int| 0 <= k < merges.len() ==> (#[trigger] merges[k]).1 < bound,
    ensures
        word_below(bpe::encoded_word(tokens, merges), bound),
    decreases tokens.len(),
{
    if exists|p: int| bpe::merges_next(tokens, merges, p) {
        let p = choose|p: int| bpe::merges_next(tokens, merges, p);
        let rank = bpe::rank_at(tokens, merges, p)->Some_0;
        bpe::lemma_rank_in_range(merges, (tokens[p], tokens[p + 1]));
        let next = bpe::spliced(tokens, p, merges[rank].1);
        assert forall|j: int| 0 <= j < next.len() implies #[trigger] next[j] < bound by {
            if j < p {
                assert(next[j] == tokens[j]);
            } else if j > p {
                assert(next[j] == tokens[j + 1]);
            }
        }
        lemma_encoded_word_below(next, merges, bound);
    }
}

proof fn lemma_encoded_words_below(words: Seq<Seq<u32>>, merges: Seq<Merge>, bound: int)
    requires
        bpe::tokens_below(words, bound),
        forall|k: int| 0 <= k < merges.len() ==> (#[trigger] merges[k]).1 < bound,
    ensures
        word_below(bpe::encoded_words(words, merges), bound),
    decreases words.len(),
{
    if words.len() > 0 {
        let less = words.drop_last();
        let word = words.last();
        assert forall|i: int, j: int|
            0 <= i < less.len() && 0 <= j < less[i].len() implies #[trigger] less[i][j] < bound by {
            assert(words[i][j] < bound);
        }
        assert forall|j: int| 0 <= j < word.len() implies #[trigger] word[j] < bound by {
            assert(words[words.len() - 1][j] < bound);
        }
        lemma_encoded_words_below(less, merges, bound);
        lemma_encoded_word_below(word, merges, bound);
        let whole = bpe::encoded_words(words, merges);
        let head = bpe::encoded_words(less, merges);
        let tail = bpe::encoded_word(word, merges);
        assert forall|j: int| 0 <= j < whole.len() implies #[trigger] whole[j] < bound by {
            if j < head.len() {
                assert(whole[j] == head[j]);
            } else {
                assert(whole[j] == tail[j - head.len()]);
            }
        }
    }
}

/// Every token of an encoding stands in the vocabulary.
pub proof fn law_encoding_stays_in_the_vocabulary(tokenizer: BpeTokenizer, s: Seq<char>, i: int)
    requires
        bpe::coherent(tokenizer.merge_list(), tokenizer.pieces()),
        0 <= i < tokenizer.encoding(s).len(),
    ensures
        tokenizer.encoding(s)[i] < tokenizer.size(),
{
    let words = bpe::text_words(s);
    let merges = tokenizer.merge_list();
    let bound = tokenizer.size() as int;
    bpe::lemma_text_words_are_bytes(s);
    assert forall|k: int, j: int|
        0 <= k < words.len() && 0 <= j < words[k].len() implies #[trigger] words[k][j] < bound by {
        assert(words[k][j] < 256);
    }
    assert forall|k: int| 0 <= k < merges.len() implies (#[trigger] merges[k]).1 < bound by {}
    lemma_encoded_words_below(words, merges, bound);
}

proof fn lemma_some_merge_is_next(tokens: Seq<u32>, merges: Seq<Merge>, p: int)
    requires
        0 <= p < tokens.len() - 1,
        bpe::rank_at(tokens, merges, p) is Some,
    ensures
        exists|q: int| bpe::merges_next(tokens, merges, q),
    decreases bpe::rank_at(tokens, merges, p)->Some_0, p,
{
    bpe::lemma_rank_in_range(merges, (tokens[p], tokens[p + 1]));
    if !bpe::merges_next(tokens, merges, p) {
        let q = choose|q: int|
            #![trigger bpe::rank_at(tokens, merges, q)]
            0 <= q < tokens.len() - 1 && bpe::rank_at(tokens, merges, q) is Some && !({
                ||| bpe::rank_at(tokens, merges, p)->Some_0 < bpe::rank_at(
                    tokens,
                    merges,
                    q,
                )->Some_0
                ||| bpe::rank_at(tokens, merges, p) == bpe::rank_at(tokens, merges, q) && p <= q
            });
        bpe::lemma_rank_in_range(merges, (tokens[q], tokens[q + 1]));
        lemma_some_merge_is_next(tokens, merges, q);
    }
}

proof fn lemma_merged_pairs_have_ranks(merges: Seq<Merge>, k: int)
    requires
        0 <= k < merges.len(),
    ensures
        bpe::rank_of(merges, merges[k].0) is Some,
    decreases merges.len(),
{
    if merges.last().0 != merges[k].0 {
        lemma_merged_pairs_have_ranks(merges.drop_last(), k);
        assert(merges.drop_last()[k] == merges[k]);
    }
}

/// Encoding a word leaves nothing to merge: no merge is left whose pair still stands in its
/// tokens.
pub proof fn law_encoding_leaves_no_merge(
    tokens: Seq<u32>,
    merges: Seq<Merge>,
    p: int,
    k: int,
)
    requires
        0 <= p < bpe::encoded_word(tokens, merges).len() - 1,
        0 <= k < merges.len(),
    ensures
        merges[k].0 != (
            bpe::encoded_word(tokens, merges)[p],
            bpe::encoded_word(tokens, merges)[p + 1],
        ),
    decreases tokens.len(),
{
    if exists|q: int| bpe::merges_next(tokens, merges, q) {
        let q = choose|q: int| bpe::merges_next(tokens, merges, q);
        law_encoding_leaves_no_merge(
            bpe::spliced(tokens, q, merges[bpe::rank_at(tokens, merges, q)->Some_0].1),
            merges,
            p,
            k,
        );
    } else {
        lemma_merged_pairs_have_ranks(merges, k);
        if merges[k].0 == (tokens[p], tokens[p + 1]) {
            lemma_some_merge_is_next(tokens, merges, p);
        }
    }
}

/// A tokenizer that was trained, on whatever text and for whatever vocabulary size, gives a text
/// back without its whitespace.
pub proof fn law_trained_tokenizers_give_back_the_words(
    corpus: Seq<char>,
    target: int,
    reason: BpeTrainingStopReason,
    tokenizer: BpeTokenizer,
    s: Seq<char>,
)
    requires
        bpe::is_training_run(bpe::text_words(corpus), target, tokenizer.merge_list(), reason),
        tokenizer.pieces() == bpe::vocab_after(tokenizer.merge_list()),
    ensures
        tokenizer.decoding(tokenizer.encoding(s)) == bpe::without_spaces(s),
{
    bpe::law_training_makes_coherent_vocabularies(corpus, target, tokenizer.merge_list(), reason);
    bpe::law_decoding_gives_back_the_words(tokenizer.merge_list(), tokenizer.pieces(), s);
}

// ---------------------------------------------------------------------------------------
// What merging and counting are
// ---------------------------------------------------------------------------------------

/// Whether a pair stands at a place of a word.
pub open spec fn stands_at(word: Seq<u32>, pair: Pair, p: int) -> bool {
    0 <= p < word.len() - 1 && word[p] == pair.0 && word[p + 1] == pair.1
}

/// Merging goes from left to right: what stands before the first occurrence of a pair is kept, the
/// occurrence becomes the new token, and merging goes on behind it. A word without the pair is
/// kept as it is.
pub proof fn law_merging_goes_from_left_to_right(word: Seq<u32>, pair: Pair, id: u32, p: int)
    ensures
        (forall|q: int| !#[trigger] stands_at(word, pair, q)) ==> bpe::merged(word, pair, id)
            == word,
        stands_at(word, pair, p) && (forall|q: int|
            q < p ==> !#[trigger] stands_at(word, pair, q)) ==> bpe::merged(word, pair, id)
            == word.take(p) + seq![id] + bpe::merged(word.skip(p + 2), pair, id),
    decreases word.len(),
{
    let after = bpe::merged(word, pair, id);
    if word.len() == 0 {
    } else if stands_at(word, pair, 0) {
        if stands_at(word, pair, p) && (forall|q: int|
            q < p ==> !#[trigger] stands_at(word, pair, q)) {
            assert(p == 0);
            assert(word.take(0) + seq![id] == seq![id]);
        }
    } else {
        let rest = word.skip(1);
        law_merging_goes_from_left_to_right(rest, pair, id, p - 1);
        if forall|q: int| !#[trigger] stands_at(word, pair, q) {
            assert forall|q: int| !#[trigger] stands_at(rest, pair, q) by {
                assert(!stands_at(word, pair, q + 1));
            }
            assert(after == word);
        }
        if stands_at(word, pair, p) && (forall|q: int|
            q < p ==> !#[trigger] stands_at(word, pair, q)) {
            assert(stands_at(rest, pair, p - 1));
            assert forall|q: int| q < p - 1 implies !#[trigger] stands_at(rest, pair, q) by {
                assert(!stands_at(word, pair, q + 1));
            }
            assert(rest.skip(p + 1) == word.skip(p + 2));
            assert(seq![word[0]] + (rest.take(p - 1) + seq![id] + bpe::merged(
                word.skip(p + 2),
                pair,
                id,
            )) == word.take(p) + seq![id] + bpe::merged(word.skip(p + 2), pair, id));
        }
    }
}

/// The places at which a pair stands in a word.
pub open spec fn places(word: Seq<u32>, pair: Pair) -> Set<int> {
    Set::new(|p: int| stands_at(word, pair, p))
}

/// The count of a pair in a word is the number of places at which it stands, and its count in a
/// text is the sum over the words, however they are divided.
pub proof fn law_counts_are_numbers_of_places(
    word: Seq<u32>,
    pair: Pair,
    a: Seq<Seq<u32>>,
    b: Seq<Seq<u32>>,
)
    ensures
        places(word, pair).finite(),
        bpe::pairs_in(word, pair) == places(word, pair).len(),
        bpe::pair_count(seq![word], pair) == bpe::pairs_in(word, pair),
        bpe::pair_count(a + b, pair) == bpe::pair_count(a, pair) + bpe::pair_count(b, pair),
{
    lemma_places(word, pair);
    lemma_pair_count_concat(a, b, pair);
    assert(seq![word].drop_last() == Seq::<Seq<u32>>::empty());
    assert(bpe::pair_count(Seq::<Seq<u32>>::empty(), pair) == 0);
}

proof fn lemma_places(word: Seq<u32>, pair: Pair)
    ensures
        places(word, pair).finite(),
        bpe::pairs_in(word, pair) == places(word, pair).len(),
    decreases word.len(),
{
    if word.len() < 2 {
        assert(places(word, pair) =~= Set::<int>::empty());
    } else {
        let less = word.drop_last();
        let last = word.len() - 2;
        lemma_places(less, pair);
        assert(!places(less, pair).contains(last));
        if stands_at(word, pair, last) {
            assert(places(word, pair) =~= places(less, pair).insert(last));
        } else {
            assert(places(word, pair) =~= places(less, pair));
        }
    }
}

proof fn lemma_pair_count_concat(a: Seq<Seq<u32>>, b: Seq<Seq<u32>>, pair: Pair)
    ensures
        bpe::pair_count(a + b, pair) == bpe::pair_count(a, pair) + bpe::pair_count(b, pair),
    decreases b.len(),
{
    if b.len() == 0 {
        assert(a + b == a);
    } else {
        lemma_pair_count_concat(a, b.drop_last(), pair);
        assert((a + b).drop_last() == a + b.drop_last());
        assert((a + b).last() == b.last());
    }
}

// ---------------------------------------------------------------------------------------
// The order of the merges
// ---------------------------------------------------------------------------------------

/// Whether no later merge is of the same pair.
pub open spec fn is_last_of_its_pair(merges: Seq<Merge>, k: int) -> bool {
    &&& 0 <= k < merges.len()
    &&& forall|m: int| k < m < merges.len() ==> (#[trigger] merges[m]).0 != merges[k].0
}

proof fn lemma_rank_is(merges: Seq<Merge>, k: int)
    requires
        is_last_of_its_pair(merges, k),
    ensures
        bpe::rank_of(merges, merges[k].0) == Some(k),
    decreases merges.len(),
{
    if k < merges.len() - 1 {
        let less = merges.drop_last();
        assert(merges[merges.len() - 1].0 != merges[k].0);
        assert forall|m: int| k < m < less.len() implies (#[trigger] less[m]).0 != less[k].0 by {
            assert(less[m] == merges[m]);
        }
        lemma_rank_is(less, k);
    }
}

proof fn lemma_rank_is_last(merges: Seq<Merge>, pair: Pair)
    ensures
        bpe::rank_of(merges, pair) matches Some(k) ==> is_last_of_its_pair(merges, k)
            && merges[k].0 == pair,
    decreases merges.len(),
{
    if merges.len() > 0 && merges.last().0 != pair {
        let less = merges.drop_last();
        lemma_rank_is_last(less, pair);
        if let Some(k) = bpe::rank_of(merges, pair) {
            assert(less[k] == merges[k]);
            assert forall|m: int| k < m < merges.len() implies (#[trigger] merges[m]).0
                != merges[k].0 by {
                if m < less.len() {
                    assert(less[m] == merges[m]);
                }
            }
        }
    }
}

/// The merge that was learned first goes first: where merge `i` applies at `p`, no earlier merge
/// applies anywhere, and merge `i` applies nowhere to the left, encoding begins with it. (Of
/// several merges of one pair the last counts.)
pub proof fn law_the_earliest_merge_goes_first(
    tokens: Seq<u32>,
    merges: Seq<Merge>,
    p: int,
    i: int,
)
    requires
        is_last_of_its_pair(merges, i),
        stands_at(tokens, merges[i].0, p),
        forall|q: int, k: int|
            is_last_of_its_pair(merges, k) && #[trigger] stands_at(tokens, merges[k].0, q) ==> i < k
                || (i == k && p <= q),
    ensures
        bpe::encoded_word(tokens, merges) == bpe::encoded_word(
            tokens.take(p) + seq![merges[i].1] + tokens.skip(p + 2),
            merges,
        ),
{
    lemma_rank_is(merges, i);
    assert(bpe::rank_at(tokens, merges, p) == Some(i));
    assert(bpe::merges_next(tokens, merges, p)) by {
        assert forall|q: int|
            #![trigger bpe::rank_at(tokens, merges, q)]
            0 <= q < tokens.len() - 1 && bpe::rank_at(tokens, merges, q) is Some implies {
            ||| bpe::rank_at(tokens, merges, p)->Some_0 < bpe::rank_at(tokens, merges, q)->Some_0
            ||| bpe::rank_at(tokens, merges, p) == bpe::rank_at(tokens, merges, q) && p <= q
        } by {
            lemma_rank_is_last(merges, (tokens[q], tokens[q + 1]));
            let k = bpe::rank_at(tokens, merges, q)->Some_0;
            assert(stands_at(tokens, merges[k].0, q));
        }
    }
    let chosen = choose|q: int| bpe::merges_next(tokens, merges, q);
    assert(bpe::rank_at(tokens, merges, chosen) is Some);
    assert(chosen == p);
    assert(bpe::spliced(tokens, p, merges[i].1) == tokens.take(p) + seq![merges[i].1]
        + tokens.skip(p + 2));
}

/// A word in which no merge applies is encoded as it is.
pub proof fn law_without_merges_nothing_changes(tokens: Seq<u32>, merges: Seq<Merge>)
    requires
        forall|q: int, k: int|
            0 <= k < merges.len() ==> !#[trigger] stands_at(tokens, merges[k].0, q),
    ensures
        bpe::encoded_word(tokens, merges) == tokens,
{
    assert forall|p: int| !bpe::merges_next(tokens, merges, p) by {
        if bpe::merges_next(tokens, merges, p) {
            lemma_rank_is_last(merges, (tokens[p], tokens[p + 1]));
            let k = bpe::rank_at(tokens, merges, p)->Some_0;
            assert(stands_at(tokens, merges[k].0, p));
        }
    }
}

/// Where two merges overlap, the one that was learned first wins, wherever it stands.
pub proof fn law_of_overlapping_merges_the_earlier_wins(
    x: u32,
    y: u32,
    z: u32,
    merges: Seq<Merge>,
    i: int,
    j: int,
)
    requires
        is_last_of_its_pair(merges, i),
        is_last_of_its_pair(merges, j),
        i < j,
    ensures
        merges[i].0 == (y, z) && merges[j].0 == (x, y) ==> bpe::encoded_word(seq![x, y, z], merges)
            == bpe::encoded_word(seq![x, merges[i].1], merges),
        merges[i].0 == (x, y) && merges[j].0 == (y, z) ==> bpe::encoded_word(seq![x, y, z], merges)
            == bpe::encoded_word(seq![merges[i].1, z], merges),
{
    let tokens = seq![x, y, z];
    if merges[i].0 == (y, z) && merges[j].0 == (x, y) {
        assert(stands_at(tokens, merges[i].0, 1));
        lemma_triple_merges(tokens, merges, i, j, 1);
        law_the_earliest_merge_goes_first(tokens, merges, 1, i);
        assert(tokens.take(1) + seq![merges[i].1] + tokens.skip(3) == seq![x, merges[i].1]);
    }
    if merges[i].0 == (x, y) && merges[j].0 == (y, z) {
        assert(stands_at(tokens, merges[i].0, 0));
        lemma_triple_merges(tokens, merges, i, j, 0);
        law_the_earliest_merge_goes_first(tokens, merges, 0, i);
        assert(tokens.take(0) + seq![merges[i].1] + tokens.skip(2) == seq![merges[i].1, z]);
    }
}

proof fn lemma_triple_merges(tokens: Seq<u32>, merges: Seq<Merge>, i: int, j: int, p: int)
    requires
        tokens.len() == 3,
        p == 0 || p == 1,
        i < j,
        is_last_of_its_pair(merges, i),
        is_last_of_its_pair(merges, j),
        stands_at(tokens, merges[i].0, p),
        stands_at(tokens, merges[j].0, 1 - p),
    ensures
        forall|q: int, k: int|
            is_last_of_its_pair(merges, k) && #[trigger] stands_at(tokens, merges[k].0, q) ==> i < k
                || (i == k && p <= q),
{
    assert forall|q: int, k: int|
        is_last_of_its_pair(merges, k) && #[trigger] stands_at(tokens, merges[k].0, q) implies i < k
        || (i == k && p <= q) by {
        lemma_rank_is(merges, i);
        lemma_rank_is(merges, j);
        lemma_rank_is(merges, k);
        if q == p {
            assert(merges[k].0 == merges[i].0);
        } else {
            assert(q == 1 - p);
            assert(merges[k].0 == merges[j].0);
        }
    }
}

// ---------------------------------------------------------------------------------------
// Encoding replays the training
// ---------------------------------------------------------------------------------------

/// Whether none of the first `r` merges applies in a word.
spec fn clean(word: Seq<u32>, merges: Seq<Merge>, r: int) -> bool {
    forall|q: int, k: int| 0 <= k < r ==> !#[trigger] stands_at(word, merges[k].0, q)
}

spec fn pairs_differ(merges: Seq<Merge>) -> bool {
    forall|j: int, k: int|
        0 <= j < k < merges.len() ==> (#[trigger] merges[j]).0 != (#[trigger] merges[k]).0
}

proof fn lemma_one_merge_everywhere(front: Seq<u32>, rest: Seq<u32>, merges: Seq<Merge>, r: int)
    requires
        bpe::numbered(merges),
        pairs_differ(merges),
        0 <= r < merges.len(),
        word_below(front + rest, 257 + r),
        clean(front + rest, merges, r),
        forall|q: int|
            q < front.len() ==> !#[trigger] stands_at(front + rest, merges[r].0, q),
    ensures
        bpe::encoded_word(front + rest, merges) == bpe::encoded_word(
            front + bpe::merged(rest, merges[r].0, merges[r].1),
            merges,
        ),
        word_below(front + bpe::merged(rest, merges[r].0, merges[r].1), 257 + r),
        clean(front + bpe::merged(rest, merges[r].0, merges[r].1), merges, r + 1),
    decreases rest.len(),
{
    let pair = merges[r].0;
    let id = merges[r].1;
    let whole = front + rest;
    let n = front.len() as int;
    if rest.len() < 2 {
        assert(bpe::merged(rest, pair, id) == rest) by {
            if rest.len() == 1 {
                assert(bpe::merged(rest.skip(1), pair, id) == rest.skip(1));
                assert(seq![rest[0]] + rest.skip(1) == rest);
            }
        }
        assert(clean(whole, merges, r + 1)) by {
            assert forall|q: int, k: int| 0 <= k < r + 1 implies !#[trigger] stands_at(
                whole,
                merges[k].0,
                q,
            ) by {
                if k == r && q >= n {
                    assert(q >= whole.len() - 1);
                }
            }
        }
    } else if rest[0] == pair.0 && rest[1] == pair.1 {
        let tail = rest.skip(2);
        let next = front.push(id);
        lemma_first_place(front, rest, merges, r);
        lemma_after_one_merge(front, rest, merges, r);
        lemma_one_merge_everywhere(next, tail, merges, r);
        assert(next + bpe::merged(tail, pair, id) == front + (seq![id] + bpe::merged(
            tail,
            pair,
            id,
        )));
    } else {
        let tail = rest.skip(1);
        let next = front.push(rest[0]);
        assert(next + tail == whole);
        assert forall|q: int| q < next.len() implies !#[trigger] stands_at(
            next + tail,
            merges[r].0,
            q,
        ) by {
            if q == n {
                assert(whole[q] == rest[0] && whole[q + 1] == rest[1]);
            } else {
                assert(!stands_at(whole, merges[r].0, q));
            }
        }
        lemma_one_merge_everywhere(next, tail, merges, r);
        assert(next + bpe::merged(tail, pair, id) == front + (seq![rest[0]] + bpe::merged(
            tail,
            pair,
            id,
        )));
    }
}

proof fn lemma_first_place(front: Seq<u32>, rest: Seq<u32>, merges: Seq<Merge>, r: int)
    requires
        pairs_differ(merges),
        0 <= r < merges.len(),
        clean(front + rest, merges, r),
        forall|q: int|
            q < front.len() ==> !#[trigger] stands_at(front + rest, merges[r].0, q),
        rest.len() >= 2,
        rest[0] == merges[r].0.0,
        rest[1] == merges[r].0.1,
    ensures
        bpe::encoded_word(front + rest, merges) == bpe::encoded_word(
            front.push(merges[r].1) + rest.skip(2),
            merges,
        ),
{
    let whole = front + rest;
    let n = front.len() as int;
    assert(whole[n] == rest[0] && whole[n + 1] == rest[1]);
    assert(stands_at(whole, merges[r].0, n));
    assert(is_last_of_its_pair(merges, r));
    assert forall|q: int, k: int|
        is_last_of_its_pair(merges, k) && #[trigger] stands_at(whole, merges[k].0, q) implies r < k
        || (r == k && n <= q) by {
        if k == r && q < n {
            assert(!stands_at(whole, merges[r].0, q));
        }
    }
    law_the_earliest_merge_goes_first(whole, merges, n, r);
    assert(whole.take(n) + seq![merges[r].1] + whole.skip(n + 2) == front.push(merges[r].1)
        + rest.skip(2));
}

proof fn lemma_after_one_merge(front: Seq<u32>, rest: Seq<u32>, merges: Seq<Merge>, r: int)
    requires
        bpe::numbered(merges),
        0 <= r < merges.len(),
        word_below(front + rest, 257 + r),
        clean(front + rest, merges, r),
        forall|q: int|
            q < front.len() ==> !#[trigger] stands_at(front + rest, merges[r].0, q),
        rest.len() >= 2,
    ensures
        word_below(front.push(merges[r].1) + rest.skip(2), 257 + r),
        clean(front.push(merges[r].1) + rest.skip(2), merges, r),
        forall|q: int|
            q < front.len() + 1 ==> !#[trigger] stands_at(
                front.push(merges[r].1) + rest.skip(2),
                merges[r].0,
                q,
            ),
{
    let id = merges[r].1;
    let whole = front + rest;
    let n = front.len() as int;
    let shorter = front.push(id) + rest.skip(2);
    assert forall|j: int| 0 <= j < shorter.len() implies #[trigger] shorter[j] < 257 + r by {
        if j < n {
            assert(shorter[j] == whole[j]);
        } else if j > n {
            assert(shorter[j] == whole[j + 1]);
        }
    }
    assert forall|q: int, k: int| 0 <= k < r implies !#[trigger] stands_at(
        shorter,
        merges[k].0,
        q,
    ) by {
        if stands_at(shorter, merges[k].0, q) {
            lemma_place_in_shorter(front, rest, id, merges[k].0, q);
        }
        assert(!stands_at(whole, merges[k].0, q));
        assert(!stands_at(whole, merges[k].0, q + 1));
    }
    assert forall|q: int| q < n + 1 implies !#[trigger] stands_at(shorter, merges[r].0, q) by {
        if stands_at(shorter, merges[r].0, q) {
            lemma_place_in_shorter(front, rest, id, merges[r].0, q);
        }
        if q < n {
            assert(!stands_at(whole, merges[r].0, q));
        }
    }
}

/// A pair without the new token stands in the shorter word where it stood in the longer one.
proof fn lemma_place_in_shorter(front: Seq<u32>, rest: Seq<u32>, id: u32, pair: Pair, q: int)
    requires
        rest.len() >= 2,
        pair.0 != id,
        pair.1 != id,
        stands_at(front.push(id) + rest.skip(2), pair, q),
    ensures
        q < front.len() ==> stands_at(front + rest, pair, q),
        q > front.len() ==> stands_at(front + rest, pair, q + 1),
        q != front.len(),
{
    let whole = front + rest;
    let n = front.len() as int;
    let shorter = front.push(id) + rest.skip(2);
    assert(shorter[n] == id);
    if q + 1 < n {
        assert(shorter[q] == whole[q] && shorter[q + 1] == whole[q + 1]);
    } else if q > n {
        assert(shorter[q] == whole[q + 1] && shorter[q + 1] == whole[q + 2]);
    }
}

proof fn lemma_replayed_one(words: Seq<Seq<u32>>, merges: Seq<Merge>, i: int)
    requires
        0 <= i < words.len(),
    ensures
        bpe::replayed(words, merges).len() == words.len(),
        bpe::replayed(seq![words[i]], merges).len() == 1,
        bpe::replayed(words, merges)[i] == bpe::replayed(seq![words[i]], merges)[0],
    decreases merges.len(),
{
    if merges.len() > 0 {
        lemma_replayed_one(words, merges.drop_last(), i);
    }
}

proof fn lemma_stages(word: Seq<u32>, merges: Seq<Merge>, r: int)
    requires
        bpe::numbered(merges),
        pairs_differ(merges),
        word_below(word, 256),
        0 <= r <= merges.len(),
    ensures
        bpe::replayed(seq![word], merges.take(r)).len() == 1,
        bpe::encoded_word(word, merges) == bpe::encoded_word(
            bpe::replayed(seq![word], merges.take(r))[0],
            merges,
        ),
        word_below(bpe::replayed(seq![word], merges.take(r))[0], 256 + r),
        clean(bpe::replayed(seq![word], merges.take(r))[0], merges, r),
    decreases r,
{
    if r > 0 {
        lemma_stages(word, merges, r - 1);
        let before = bpe::replayed(seq![word], merges.take(r - 1))[0];
        assert(merges.take(r).drop_last() == merges.take(r - 1));
        assert(merges.take(r).last() == merges[r - 1]);
        let empty = Seq::<u32>::empty();
        assert(empty + before == before);
        lemma_one_merge_everywhere(empty, before, merges, r - 1);
        let after = bpe::merged(before, merges[r - 1].0, merges[r - 1].1);
        assert(empty + after == after);
    } else {
        assert(merges.take(0) == Seq::<Merge>::empty());
    }
}

proof fn lemma_merged_pair_is_gone(word: Seq<u32>, pair: Pair, id: u32)
    requires
        id != pair.0,
        id != pair.1,
    ensures
        bpe::pairs_in(bpe::merged(word, pair, id), pair) == 0,
    decreases word.len(),
{
    if word.len() == 0 {
    } else if word.len() >= 2 && word[0] == pair.0 && word[1] == pair.1 {
        let rest = word.skip(2);
        lemma_merged_pair_is_gone(rest, pair, id);
        lemma_pairs_in_front(id, bpe::merged(rest, pair, id), pair);
    } else {
        let rest = word.skip(1);
        lemma_merged_pair_is_gone(rest, pair, id);
        lemma_pairs_in_front(word[0], bpe::merged(rest, pair, id), pair);
        if rest.len() > 0 {
            lemma_merged_head(rest, pair, id);
        }
    }
}

proof fn lemma_merged_pair_is_gone_everywhere(words: Seq<Seq<u32>>, merge: Merge)
    requires
        merge.1 != merge.0.0,
        merge.1 != merge.0.1,
    ensures
        bpe::pair_count(bpe::merged_words(words, merge), merge.0) == 0,
    decreases words.len(),
{
    if words.len() > 0 {
        lemma_merged_pair_is_gone_everywhere(words.drop_last(), merge);
        assert(bpe::merged_words(words, merge).drop_last() == bpe::merged_words(
            words.drop_last(),
            merge,
        ));
        lemma_merged_pair_is_gone(words.last(), merge.0, merge.1);
    }
}

proof fn lemma_merged_pair_stays_gone(words: Seq<Seq<u32>>, merges: Seq<Merge>, j: int, m: int)
    requires
        bpe::tokens_below(words, 256),
        bpe::numbered(merges),
        0 <= j < m <= merges.len(),
    ensures
        bpe::pair_count(bpe::replayed(words, merges.take(m)), merges[j].0) == 0,
    decreases m,
{
    let less = merges.take(m - 1);
    let last = merges[m - 1];
    assert(merges.take(m).drop_last() == less);
    assert(merges.take(m).last() == last);
    if m - 1 == j {
        lemma_merged_pair_is_gone_everywhere(bpe::replayed(words, less), last);
    } else {
        lemma_merged_pair_stays_gone(words, merges, j, m - 1);
        assert forall|k: int| 0 <= k < less.len() implies (#[trigger] less[k]).1 == 256 + k by {
            assert(less[k] == merges[k]);
        }
        bpe::lemma_replayed_below(words, less);
        assert(merges[j].1 == 256 + j);
        lemma_pair_count_after_merge(bpe::replayed(words, less), last, merges[j].0);
    }
}

proof fn lemma_learned_pairs_differ(words: Seq<Seq<u32>>, merges: Seq<Merge>)
    requires
        bpe::tokens_below(words, 256),
        bpe::greedy(words, merges),
        bpe::numbered(merges),
    ensures
        pairs_differ(merges),
{
    assert forall|j: int, k: int| 0 <= j < k < merges.len() implies (#[trigger] merges[j]).0 != (
    #[trigger] merges[k]).0 by {
        lemma_merged_pair_stays_gone(words, merges, j, k);
        assert(bpe::pair_count(bpe::replayed(words, merges.take(k)), merges[k].0) >= 2);
    }
}

/// Encoding a word does what training did: it gives the tokens that are left when the learned
/// merges are made one after the other, each wherever it applies, in the order in which they were
/// learned.
pub proof fn law_encoding_replays_the_training(
    corpus: Seq<char>,
    merges: Seq<Merge>,
    word: Seq<u32>,
)
    requires
        bpe::greedy(bpe::text_words(corpus), merges),
        forall|i: int| 0 <= i < word.len() ==> #[trigger] word[i] < 256,
    ensures
        bpe::encoded_word(word, merges) == bpe::replayed(seq![word], merges)[0],
{
    let words = bpe::text_words(corpus);
    bpe::lemma_text_words_are_bytes(corpus);
    bpe::lemma_greedy_is_numbered(words, merges);
    lemma_learned_pairs_differ(words, merges);
    let n = merges.len() as int;
    lemma_stages(word, merges, n);
    assert(merges.take(n) == merges);
    law_without_merges_nothing_changes(bpe::replayed(seq![word], merges)[0], merges);
}

proof fn lemma_encoded_words_flatten(
    words: Seq<Seq<u32>>,
    coded: Seq<Seq<u32>>,
    merges: Seq<Merge>,
)
    requires
        words.len() == coded.len(),
        forall|i: int|
            0 <= i < words.len() ==> #[trigger] coded[i] == bpe::encoded_word(words[i], merges),
    ensures
        bpe::encoded_words(words, merges) == coded.flatten(),
    decreases words.len(),
{
    if words.len() > 0 {
        let rest = words.drop_first();
        lemma_encoded_words_flatten(rest, coded.drop_first(), merges);
        assert(words == seq![words[0]] + rest);
        lemma_encoded_words_concat(seq![words[0]], rest, merges);
        assert(seq![words[0]].drop_last() == Seq::<Seq<u32>>::empty());
        assert(bpe::encoded_words(Seq::<Seq<u32>>::empty(), merges) == Seq::<u32>::empty());
        assert(bpe::encoded_words(seq![words[0]], merges) == bpe::encoded_word(words[0], merges));
        assert(coded[0] == bpe::encoded_word(words[0], merges));
    }
}

/// A trained tokenizer encodes a text as training would have left its words: the tokens of each
/// word after all merges in the order in which they were learned, one word after the other.
pub proof fn law_trained_tokenizers_replay_the_training(
    corpus: Seq<char>,
    target: int,
    reason: BpeTrainingStopReason,
    tokenizer: BpeTokenizer,
    s: Seq<char>,
)
    requires
        bpe::is_training_run(bpe::text_words(corpus), target, tokenizer.merge_list(), reason),
    ensures
        tokenizer.encoding(s) == bpe::replayed(
            bpe::text_words(s),
            tokenizer.merge_list(),
        ).flatten(),
{
    let words = bpe::text_words(s);
    let merges = tokenizer.merge_list();
    let coded = bpe::replayed(words, merges);
    bpe::lemma_text_words_are_bytes(s);
    lemma_replayed_len(words, merges);
    assert forall|i: int| 0 <= i < words.len() implies #[trigger] coded[i] == bpe::encoded_word(
        words[i],
        merges,
    ) by {
        let word = words[i];
        assert forall|j: int| 0 <= j < word.len() implies #[trigger] word[j] < 256 by {
            assert(words[i][j] < 256);
        }
        lemma_replayed_one(words, merges, i);
        law_encoding_replays_the_training(corpus, merges, word);
    }
    lemma_encoded_words_flatten(words, coded, merges);
}

proof fn lemma_replayed_len(words: Seq<Seq<u32>>, merges: Seq<Merge>)
    ensures
        bpe::replayed(words, merges).len() == words.len(),
    decreases merges.len(),
{
    if merges.len() > 0 {
        lemma_replayed_len(words, merges.drop_last());
    }
}

// ---------------------------------------------------------------------------------------
// What training learns and what decoding spells
// ---------------------------------------------------------------------------------------

/// Each merge of a training run is learned of a pair that stands at two places or more and that no
/// other pair outnumbers, while there is room in the vocabulary, and gets the next number.
pub proof fn law_training_merges_the_most_frequent_pair(
    corpus: Seq<char>,
    target: int,
    merges: Seq<Merge>,
    reason: BpeTrainingStopReason,
    k: int,
    other: Pair,
)
    requires
        bpe::is_training_run(bpe::text_words(corpus), target, merges, reason),
        0 <= k < merges.len(),
    ensures
        merges[k].1 == 256 + k,
        256 + k < target,
        ({
            let left = bpe::replayed(bpe::text_words(corpus), merges.take(k));
            &&& bpe::pair_count(left, merges[k].0) >= 2
            &&& bpe::pair_count(left, other) <= bpe::pair_count(left, merges[k].0)
        }),
{
    let words = bpe::text_words(corpus);
    assert(bpe::stops(bpe::replayed(words, merges.take(k)), 256 + k, target) is None);
    assert(merges[k].1 == 256 + k);
}

/// A training run ends only where the vocabulary is full or where no pair is left that stands at
/// two places, and it says which: that no pair is left at all exactly where each word has become
/// one token.
pub proof fn law_training_ends_when_nothing_repeats(
    corpus: Seq<char>,
    target: int,
    merges: Seq<Merge>,
    reason: BpeTrainingStopReason,
    pair: Pair,
    i: int,
)
    requires
        bpe::is_training_run(bpe::text_words(corpus), target, merges, reason),
    ensures
        reason == BpeTrainingStopReason::TargetVocabSizeReached <==> 256 + merges.len() >= target,
        256 + merges.len() < target ==> bpe::pair_count(
            bpe::replayed(bpe::text_words(corpus), merges),
            pair,
        ) < 2,
        reason == BpeTrainingStopReason::NoPairs && 0 <= i < bpe::text_words(corpus).len()
            ==> bpe::replayed(bpe::text_words(corpus), merges)[i].len() < 2,
        reason == BpeTrainingStopReason::NoRepeatedPairs ==> exists|other: Pair|
            #[trigger] bpe::pair_count(bpe::replayed(bpe::text_words(corpus), merges), other) == 1,
{
    let words = bpe::text_words(corpus);
    let left = bpe::replayed(words, merges);
    assert(bpe::pair_count(left, pair) >= 0);
    if reason == BpeTrainingStopReason::NoPairs && 0 <= i < words.len() {
        lemma_replayed_count(words, merges);
        let word = left[i];
        if word.len() >= 2 {
            let first = (word[0], word[1]);
            assert(stands_at(word, first, 0));
            lemma_places(word, first);
            assert(places(word, first).contains(0));
            if places(word, first).len() == 0 {
                assert(places(word, first) =~= Set::<int>::empty());
            }
            lemma_count_of_one_word(left, i, first);
            assert(bpe::pair_count(left, first) == 0);
        }
    }
    if reason == BpeTrainingStopReason::NoRepeatedPairs {
        let other = choose|other: Pair| !(#[trigger] bpe::pair_count(left, other) == 0);
        assert(bpe::pair_count(left, other) < 2);
    }
}

proof fn lemma_replayed_count(words: Seq<Seq<u32>>, merges: Seq<Merge>)
    ensures
        bpe::replayed(words, merges).len() == words.len(),
    decreases merges.len(),
{
    if merges.len() > 0 {
        lemma_replayed_count(words, merges.drop_last());
    }
}

/// Decoding spells token by token: a known id gives the bytes of its token, and an unknown one
/// gives nothing.
pub proof fn law_decoding_spells_token_by_token(
    vocab: Seq<Seq<u8>>,
    a: Seq<u32>,
    b: Seq<u32>,
    id: u32,
)
    ensures
        bpe::spelled(vocab, a + b) == bpe::spelled(vocab, a) + bpe::spelled(vocab, b),
        id < vocab.len() ==> bpe::spelled(vocab, seq![id]) == vocab[id as int],
        id >= vocab.len() ==> bpe::spelled(vocab, seq![id]) == Seq::<u8>::empty(),
    decreases b.len(),
{
    assert(seq![id].drop_last() == Seq::<u32>::empty());
    assert(bpe::spelled(vocab, Seq::<u32>::empty()) == Seq::<u8>::empty());
    if id < vocab.len() {
        assert(Seq::<u8>::empty() + vocab[id as int] == vocab[id as int]);
    }
    if b.len() == 0 {
        assert(a + b == a);
        assert(bpe::spelled(vocab, a) + bpe::spelled(vocab, b) == bpe::spelled(vocab, a));
    } else {
        law_decoding_spells_token_by_token(vocab, a, b.drop_last(), id);
        assert((a + b).drop_last() == a + b.drop_last());
        assert((a + b).last() == b.last());
        assert(bpe::spelled(vocab, a) + bpe::spelled(vocab, b.drop_last()) + bpe::piece(
            vocab,
            b.last(),
        ) == bpe::spelled(vocab, a) + (bpe::spelled(vocab, b.drop_last()) + bpe::piece(
            vocab,
            b.last(),
        )));
    }
}

/// What an observer is told of a run: that it starts with the single bytes and with the words of
/// the corpus, each merge by its number, its pair and its token, and at the end how many there
/// were.
pub proof fn law_runs_are_told_from_start_to_end(
    events: Seq<BpeTrainingEvent>,
    corpus: Seq<char>,
    target: int,
    merges: Seq<Merge>,
    reason: BpeTrainingStopReason,
    i: int,
)
    requires
        bpe::tells_run(events, bpe::text_words(corpus), target, merges, reason),
    ensures
        events.len() == merges.len() + 2,
        events[0] matches BpeTrainingEvent::Started {
            target_vocab_size,
            initial_vocab_size,
            word_count,
        } && target_vocab_size == target && initial_vocab_size == 256 && word_count == text::words(
            corpus,
        ).len(),
        0 <= i < merges.len() ==> (events[i + 1] matches BpeTrainingEvent::Merge {
            merge_index,
            vocab_size,
            pair,
            new_token_id,
            count,
        } && merge_index == i && vocab_size == 257 + i && pair == merges[i].0 && new_token_id
            == merges[i].1),
        events.last() matches BpeTrainingEvent::Completed {
            target_vocab_size,
            final_vocab_size,
            merge_count,
            reason: told,
        } && target_vocab_size == target && final_vocab_size == 256 + merges.len() && merge_count
            == merges.len() && told == reason,
{
    let told = events.drop_last();
    assert(told[0] == events[0]);
    if 0 <= i < merges.len() {
        assert(told[i + 1] == events[i + 1]);
        assert(bpe::tells_merge(told[i + 1], bpe::text_words(corpus), merges, i));
    }
}

} // verus!

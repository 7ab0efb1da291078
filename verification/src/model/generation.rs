//! Choosing the next token: the highest score, or the candidates that chance decides among.
use vstd::prelude::*;

use crate::ranking;
use crate::reals::ShortReal;

verus! {

/// How the next token is chosen.
#[derive(Debug, Clone, Copy, PartialEq, Eq, Structural)]
pub struct GenerationOptions {
    pub temperature: ShortReal,
    pub top_k: Option<usize>,
}

/// Why options are refused, if they are.
pub open spec fn options_problem(temperature: ShortReal, top_k: Option<usize>) -> Option<
    Seq<char>,
> {
    if temperature.at_most(ShortReal { bits: 0 }) {
        Some("temperature must be greater than zero"@)
    } else if top_k == Some(0usize) {
        Some("top_k must be greater than zero"@)
    } else {
        None
    }
}

impl GenerationOptions {
    /// Always the highest score.
    pub fn greedy() -> (options: GenerationOptions)
        ensures
            options.temperature.bits == 0,
            options.top_k is None,
    {
        GenerationOptions { temperature: ShortReal { bits: 0 }, top_k: None }
    }

    /// By chance, among the `top_k` highest scores where that is given.
    pub fn sampling(temperature: ShortReal, top_k: Option<usize>) -> (r: Result<
        GenerationOptions,
        String,
    >)
        ensures
            match r {
                Ok(options) => options_problem(temperature, top_k) is None && options == (
                GenerationOptions { temperature, top_k }),
                Err(message) => options_problem(temperature, top_k) == Some(message@),
            },
    {
        if temperature.at_most_zero() {
            return Err("temperature must be greater than zero".to_owned());
        }
        match top_k {
            Some(k) => {
                if k == 0 {
                    return Err("top_k must be greater than zero".to_owned());
                }
            },
            None => {},
        }
        Ok(GenerationOptions { temperature, top_k })
    }
}

/// A number that orders scores as they are ordered in total: below all numbers the negative
/// not-numbers, then the numbers with minus zero below zero, then the other not-numbers.
pub open spec fn score_key(score: ShortReal) -> int {
    if score.negative() {
        0xffff_ffff - score.bits
    } else {
        0x8000_0000 + score.bits
    }
}

fn key_of_score(score: ShortReal) -> (key: usize)
    ensures
        key == score_key(score),
{
    if score.bits >= 0x8000_0000 {
        (0xffff_ffff - score.bits) as usize
    } else {
        (0x8000_0000 + score.bits) as usize
    }
}

/// Whether `token` is the last among the highest scores.
pub open spec fn is_last_highest(scores: Seq<ShortReal>, token: int) -> bool {
    &&& 0 <= token < scores.len()
    &&& forall|i: int| 0 <= i <= token ==> score_key(#[trigger] scores[i]) <= score_key(scores[token])
    &&& forall|i: int|
        token < i < scores.len() ==> score_key(#[trigger] scores[i]) < score_key(scores[token])
}

/// The token of the highest score, the last where several are equal.
pub fn greedy_token(scores: &[ShortReal]) -> (token: usize)
    requires
        scores@.len() > 0,
    ensures
        is_last_highest(scores@, token as int),
{
    let mut best: usize = 0;
    let mut i: usize = 1;
    while i < scores.len()
        invariant
            best < i <= scores@.len(),
            forall|j: int|
                0 <= j <= best ==> score_key(#[trigger] scores@[j]) <= score_key(
                    scores@[best as int],
                ),
            forall|j: int|
                best < j < i ==> score_key(#[trigger] scores@[j]) < score_key(scores@[best as int]),
        decreases scores.len() - i,
    {
        if key_of_score(scores[i]) >= key_of_score(scores[best]) {
            best = i;
        }
        i += 1;
    }
    best
}

/// The keys of scores.
pub open spec fn score_keys(scores: Seq<ShortReal>) -> Seq<Option<usize>> {
    Seq::new(scores.len(), |i: int| Some(score_key(scores[i]) as usize))
}

/// How many candidates stay: all, or the `top_k` first but never none.
pub open spec fn candidate_count(len: int, top_k: Option<usize>) -> int {
    match top_k {
        Some(k) => if k < 1 {
            1
        } else if k < len {
            k as int
        } else {
            len
        },
        None => len,
    }
}

/// Whether `candidates` are the tokens of the highest scores, highest first, as many as stay.
pub open spec fn are_candidates(
    candidates: Seq<usize>,
    scores: Seq<ShortReal>,
    top_k: Option<usize>,
) -> bool {
    exists|order: Seq<usize>|
        #[trigger] ranking::highest_first(order, score_keys(scores), scores.len() as int)
            && order.len() == scores.len() && candidates == order.take(
            candidate_count(scores.len() as int, top_k),
        )
}

/// The tokens of the highest scores, highest first, as many as stay. Of equal scores the earlier
/// token comes first.
pub fn candidates(scores: &[ShortReal], top_k: Option<usize>) -> (list: Vec<usize>)
    requires
        scores@.len() > 0,
    ensures
        are_candidates(list@, scores@, top_k),
        list@.len() == candidate_count(scores@.len() as int, top_k),
        top_k is None ==> list@.len() == scores@.len(),
        top_k matches Some(k) ==> (1 <= k <= scores@.len() ==> list@.len() == k) && (k
            > scores@.len() ==> list@.len() == scores@.len()),
        list@.len() > 0,
        forall|i: int| 0 <= i < list@.len() ==> #[trigger] list@[i] < scores@.len(),
{
    let mut keys: Vec<Option<usize>> = Vec::new();
    let mut i: usize = 0;
    while i < scores.len()
        invariant
            i <= scores@.len(),
            keys@ =~= score_keys(scores@).take(i as int),
        decreases scores.len() - i,
    {
        keys.push(Some(key_of_score(scores[i])));
        i += 1;
    }
    assert(keys@ =~= score_keys(scores@));
    let mut order = ranking::rank_highest_first(&keys);
    let ghost whole = order@;
    proof {
        assert(keys@.len() == scores@.len());
        ranking::lemma_ranks_all(whole, keys@);
    }
    let keep: usize = match top_k {
        Some(k) => {
            let least: usize = if k < scores.len() {
                k
            } else {
                scores.len()
            };
            if least < 1 {
                1
            } else {
                least
            }
        },
        None => scores.len(),
    };
    order.truncate(keep);
    assert(order@ =~= whole.take(candidate_count(scores@.len() as int, top_k)));
    assert(are_candidates(order@, scores@, top_k)) by {
        assert(ranking::highest_first(whole, score_keys(scores@), scores@.len() as int));
    }
    order
}

/// The next token, or the candidates that chance decides among.
#[derive(Debug, PartialEq, Eq)]
pub enum TokenChoice {
    Fixed(usize),
    Among(Vec<usize>),
}

/// The next token, or the candidates that chance decides among: without a temperature the highest
/// score is taken.
pub fn choose_tokens(scores: &[ShortReal], options: &GenerationOptions) -> (choice: TokenChoice)
    requires
        scores@.len() > 0,
    ensures
        match choice {
            TokenChoice::Fixed(token) => options.temperature.at_most(ShortReal { bits: 0 })
                && is_last_highest(scores@, token as int),
            TokenChoice::Among(list) => !options.temperature.at_most(ShortReal { bits: 0 })
                && are_candidates(list@, scores@, options.top_k) && (options.top_k matches Some(k)
                ==> 1 <= k <= scores@.len() ==> list@.len() == k) && (options.top_k is None
                ==> list@.len() == scores@.len()),
        },
{
    if options.temperature.at_most_zero() {
        TokenChoice::Fixed(greedy_token(scores))
    } else {
        TokenChoice::Among(candidates(scores, options.top_k))
    }
}

/// A score that is less comes lower in the order, and only equal scores have the same place in it.
pub proof fn law_scores_keep_their_order(a: ShortReal, b: ShortReal)
    ensures
        a.less(b) ==> score_key(a) < score_key(b),
        score_key(a) == score_key(b) ==> a == b,
{
}

/// As many candidates stay as are asked for, each once: all of them where nothing is asked for or
/// more than there are, and else exactly `k`. They stand highest first, and no token stays that
/// scores less than one that is left out.
pub proof fn law_as_many_candidates_as_asked_for(
    list: Seq<usize>,
    scores: Seq<ShortReal>,
    top_k: Option<usize>,
)
    requires
        0 < scores.len() <= usize::MAX,
        are_candidates(list, scores, top_k),
    ensures
        top_k is None ==> list.len() == scores.len(),
        top_k matches Some(k) ==> 1 <= k <= scores.len() ==> list.len() == k,
        top_k matches Some(k) ==> k > scores.len() ==> list.len() == scores.len(),
        top_k matches Some(k) ==> k == 0 ==> list.len() == 1,
        list.no_duplicates(),
        forall|i: int| 0 <= i < list.len() ==> #[trigger] list[i] < scores.len(),
        forall|i: int, j: int|
            0 <= i < j < list.len() ==> !scores[#[trigger] list[i] as int].less(
                scores[#[trigger] list[j] as int],
            ),
        forall|i: int, left_out: usize|
            0 <= i < list.len() && left_out < scores.len() && !#[trigger] list.contains(left_out)
                ==> !scores[#[trigger] list[i] as int].less(scores[left_out as int]),
{
    let keys = score_keys(scores);
    let order = choose|order: Seq<usize>|
        #[trigger] ranking::highest_first(order, keys, scores.len() as int) && order.len()
            == scores.len() && list == order.take(
            candidate_count(scores.len() as int, top_k),
        );
    assert forall|i: int, j: int| 0 <= i < j < list.len() implies !scores[#[trigger] list[i] as int].less(
        scores[#[trigger] list[j] as int],
    ) && list[i] != list[j] by {
        assert(ranking::higher(keys, order[i] as int, order[j] as int));
        law_scores_keep_their_order(scores[list[i] as int], scores[list[j] as int]);
    }
    assert forall|i: int, left_out: usize|
        0 <= i < list.len() && left_out < scores.len() && !#[trigger] list.contains(left_out)
            implies !scores[#[trigger] list[i] as int].less(scores[left_out as int]) by {
        law_candidates_score_highest(list, scores, top_k, i, left_out);
        law_scores_keep_their_order(scores[list[i] as int], scores[left_out as int]);
    }
}

/// The greedy token is one that no token scores above, and the last such token.
pub proof fn law_the_greedy_token_scores_highest(scores: Seq<ShortReal>, token: int, other: int)
    requires
        is_last_highest(scores, token),
        0 <= other < scores.len(),
    ensures
        0 <= token < scores.len(),
        !scores[token].less(scores[other]),
        other > token ==> scores[other] != scores[token],
{
    law_scores_keep_their_order(scores[token], scores[other]);
}

/// The first candidate has a highest score, and no candidate scores lower than a token that is
/// left out.
pub proof fn law_candidates_score_highest(
    list: Seq<usize>,
    scores: Seq<ShortReal>,
    top_k: Option<usize>,
    i: int,
    left_out: usize,
)
    requires
        scores.len() <= usize::MAX,
        are_candidates(list, scores, top_k),
        0 <= i < list.len(),
        left_out < scores.len(),
        !list.contains(left_out),
    ensures
        list[i] < scores.len(),
        score_key(scores[list[i] as int]) >= score_key(scores[left_out as int]),
{
    let order = choose|order: Seq<usize>|
        #[trigger] ranking::highest_first(order, score_keys(scores), scores.len() as int)
            && order.len() == scores.len() && list == order.take(
            candidate_count(scores.len() as int, top_k),
        );
    assert(order[i] == list[i]);
    assert(score_keys(scores)[left_out as int] is Some);
    assert(order.contains(left_out as int as usize));
    let p = choose|p: int| 0 <= p < order.len() && order[p] == left_out;
    if p < list.len() {
        assert(list[p] == left_out);
    }
    assert(ranking::higher(score_keys(scores), order[i] as int, order[p] as int));
}

} // verus!

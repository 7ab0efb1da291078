//! What the rate limit comes to.
use vstd::prelude::*;

use crate::reals::WHOLE_LIMIT;
use crate::server;
use crate::server::{
    BucketUpdate, PeerAddress, RateDecision, RateLimiter, RequestsLeft, ServerLimits, TokenBucket,
};

verus! {

/// How often a peer asked.
pub open spec fn times_asked(calls: Seq<PeerAddress>, peer: PeerAddress) -> nat
    decreases calls.len(),
{
    if calls.len() == 0 {
        0
    } else {
        times_asked(calls.drop_last(), peer) + (if calls.last() == peer {
            1nat
        } else {
            0nat
        })
    }
}

/// Whether the states of a limiter and its decisions come of the calls of peers, one after the
/// other and all at one instant, with nobody having asked before. What the callers say of the time
/// that has passed is theirs to say.
pub open spec fn asked_at_once(
    states: Seq<RateLimiter>,
    calls: Seq<PeerAddress>,
    updates: Seq<BucketUpdate>,
    decisions: Seq<RateDecision>,
    limits: ServerLimits,
    now_ns: u128,
) -> bool {
    &&& states.len() == calls.len() + 1
    &&& updates.len() == calls.len()
    &&& decisions.len() == calls.len()
    &&& forall|peer: PeerAddress| (#[trigger] states[0].bucket_of(peer)) is None
    &&& forall|k: int|
        0 <= k < calls.len() ==> server::acquired(
            states[k],
            states[k + 1],
            #[trigger] calls[k],
            limits,
            now_ns,
            updates[k],
            decisions[k],
        )
}

/// What the bucket of a peer holds that has asked so often at one instant.
spec fn bucket_after(limits: ServerLimits, now_ns: u128, asked: nat) -> Option<TokenBucket> {
    if asked == 0 {
        None
    } else {
        Some(
            TokenBucket {
                tokens: Some(
                    RequestsLeft::Whole(
                        if asked < limits.rate_limit_burst {
                            (limits.rate_limit_burst - asked) as u64
                        } else {
                            0
                        },
                    ),
                ),
                updated_at_ns: now_ns,
            },
        )
    }
}

proof fn lemma_what_is_left(
    states: Seq<RateLimiter>,
    calls: Seq<PeerAddress>,
    updates: Seq<BucketUpdate>,
    decisions: Seq<RateDecision>,
    limits: ServerLimits,
    now_ns: u128,
    i: int,
    peer: PeerAddress,
)
    requires
        limits.rate_limit_rps != 0,
        limits.rate_limit_burst < WHOLE_LIMIT,
        asked_at_once(states, calls, updates, decisions, limits, now_ns),
        0 <= i <= calls.len(),
    ensures
        states[i].bucket_of(peer) == bucket_after(
            limits,
            now_ns,
            times_asked(calls.take(i), peer),
        ),
    decreases i,
{
    if i == 0 {
        assert(states[0].bucket_of(peer) is None);
    } else {
        let k = i - 1;
        lemma_what_is_left(states, calls, updates, decisions, limits, now_ns, k, peer);
        assert(calls.take(i).drop_last() == calls.take(k));
        assert(calls.take(i).last() == calls[k]);
        assert(server::acquired(
            states[k],
            states[k + 1],
            calls[k],
            limits,
            now_ns,
            updates[k],
            decisions[k],
        ));
        if calls[k] != peer {
            assert(states[i].bucket_of(peer) == states[k].bucket_of(peer));
        }
    }
}

/// A burst goes through: of calls that all come at one instant, with nobody having asked before,
/// the first of each peer are allowed, as many as the burst, and its later ones are put off by one
/// second. What other peers ask makes no difference. A rate of zero lets every call through.
pub proof fn law_the_burst_goes_through(
    states: Seq<RateLimiter>,
    calls: Seq<PeerAddress>,
    updates: Seq<BucketUpdate>,
    decisions: Seq<RateDecision>,
    limits: ServerLimits,
    now_ns: u128,
    i: int,
)
    requires
        limits.rate_limit_rps == 0 || limits.rate_limit_burst < WHOLE_LIMIT,
        asked_at_once(states, calls, updates, decisions, limits, now_ns),
        0 <= i < calls.len(),
    ensures
        decisions[i] == (if limits.rate_limit_rps == 0 || times_asked(calls.take(i), calls[i])
            < limits.rate_limit_burst {
            RateDecision::Allowed
        } else {
            RateDecision::Limited { retry_after_seconds: 1 }
        }),
{
    assert(server::acquired(
        states[i],
        states[i + 1],
        calls[i],
        limits,
        now_ns,
        updates[i],
        decisions[i],
    ));
    if limits.rate_limit_rps != 0 {
        lemma_what_is_left(states, calls, updates, decisions, limits, now_ns, i, calls[i]);
    }
}

} // verus!

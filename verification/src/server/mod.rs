//! The rules of the HTTP API: which requests are admitted, what is answered, and what is told about
//! the server.
//!
//! Sockets, routing and locks are left to the caller, and so is arithmetic on reals.
use vstd::prelude::*;
use vstd::utf8;

use crate::model::definitions;
use crate::model::generation;
use crate::model::generation::GenerationOptions;
use crate::model::persistence;
use crate::observability::RuntimeEvent;
use crate::path;
use crate::reals::{Real, ShortReal, ONE, WHOLE_LIMIT};
use crate::text;
use crate::tokenizer::RuntimeTokenizer;

pub mod rate_laws;
pub mod run_id;
pub mod training;

pub use training::{TrainAccepted, TrainRequest, TrainRunRecord, TrainRunStatus, DEFAULT_RUNS_DIR};



verus! {

// ---------------------------------------------------------------------------------------
// Limits
// ---------------------------------------------------------------------------------------

/// What requests are held to.
#[derive(Debug, Clone, Copy, PartialEq, Eq, Structural)]
pub struct ServerLimits {
    pub max_prompt_bytes: usize,
    pub max_output_tokens: usize,
    /// Requests per second and peer. Zero sets no limit.
    pub rate_limit_rps: usize,
    pub rate_limit_burst: usize,
    pub max_train_steps: usize,
    pub max_train_learning_rate: Real,
}

impl Default for ServerLimits {
    fn default() -> (limits: ServerLimits)
        ensures
            limits == (ServerLimits {
                max_prompt_bytes: 8192,
                max_output_tokens: 512,
                rate_limit_rps: 5,
                rate_limit_burst: 10,
                max_train_steps: 100_000,
                max_train_learning_rate: Real { bits: ONE },
            }),
    {
        ServerLimits {
            max_prompt_bytes: 8192,
            max_output_tokens: 512,
            rate_limit_rps: 5,
            rate_limit_burst: 10,
            max_train_steps: 100_000,
            max_train_learning_rate: Real { bits: ONE },
        }
    }
}

impl ServerLimits {
    /// How large the body of a generate request may be: the prompt, and some room for the rest.
    pub fn max_request_body_bytes(self) -> (n: usize)
        ensures
            n == (if self.max_prompt_bytes + 4096 <= usize::MAX {
                self.max_prompt_bytes + 4096
            } else {
                usize::MAX as int
            }),
    {
        self.max_prompt_bytes.saturating_add(4096)
    }
}

// ---------------------------------------------------------------------------------------
// Rate limit
// ---------------------------------------------------------------------------------------

/// The address of a peer.
#[derive(Debug, Clone, Copy, PartialEq, Eq, Structural)]
pub enum PeerAddress {
    V4(u32),
    V6(u128),
}

/// The requests left in a bucket. They are counted as a whole number for as long as no time
/// passes: a real would hold the same number, and be one less after each request.
#[derive(Debug, Clone, Copy, PartialEq, Eq, Structural)]
pub enum RequestsLeft {
    Whole(u64),
    Part(Real),
}

/// What a peer may still ask for.
#[derive(Debug, Clone, Copy, PartialEq, Eq, Structural)]
pub struct TokenBucket {
    /// The requests left. A bucket that was never drawn from is full.
    pub tokens: Option<RequestsLeft>,
    pub updated_at_ns: u128,
}

/// A bucket after time has passed, worked out in real arithmetic.
#[derive(Debug, Clone, Copy, PartialEq, Eq, Structural)]
pub struct BucketUpdate {
    /// The requests left with what the time since the last update adds, up to the burst.
    pub refilled: Real,
    /// One less than that.
    pub spent: Real,
    /// The whole seconds until a request is left.
    pub retry_after_seconds: u64,
}

/// Whether a request goes through.
#[derive(Debug, Clone, Copy, PartialEq, Eq, Structural)]
pub enum RateDecision {
    Allowed,
    Limited { retry_after_seconds: u64 },
}

#[derive(Debug)]
struct PeerBucket {
    peer: PeerAddress,
    bucket: TokenBucket,
}

/// The buckets of all peers.
#[derive(Debug)]
pub struct RateLimiter {
    buckets: Vec<PeerBucket>,
}

spec fn bucket_in(buckets: Seq<PeerBucket>, peer: PeerAddress) -> Option<TokenBucket>
    decreases buckets.len(),
{
    if buckets.len() == 0 {
        None
    } else if buckets.last().peer == peer {
        Some(buckets.last().bucket)
    } else {
        bucket_in(buckets.drop_last(), peer)
    }
}

/// Whether a request is left in a bucket.
pub open spec fn request_left(tokens: Real) -> bool {
    Real { bits: ONE }.at_most(tokens)
}

/// The requests that a peer has left where no time has passed since they were counted, as long as
/// they are a whole number: those of the bucket, up to the burst, and the burst for a peer that
/// has not asked before.
pub open spec fn counted(
    bucket: Option<TokenBucket>,
    limits: ServerLimits,
    now_ns: u128,
) -> Option<u64> {
    match bucket {
        None => if limits.rate_limit_burst < WHOLE_LIMIT {
            Some(limits.rate_limit_burst as u64)
        } else {
            None
        },
        Some(TokenBucket { tokens: Some(RequestsLeft::Whole(n)), updated_at_ns }) => {
            if now_ns > updated_at_ns {
                None
            } else if n < limits.rate_limit_burst {
                Some(n)
            } else {
                Some(limits.rate_limit_burst as u64)
            }
        },
        _ => None,
    }
}

/// The bucket of a peer after a request: one request less where one was left. `update` is what
/// time has made of the bucket; where none has passed, the requests are counted: see [`counted`].
pub open spec fn drawn_bucket(
    bucket: Option<TokenBucket>,
    limits: ServerLimits,
    now_ns: u128,
    update: BucketUpdate,
) -> TokenBucket {
    TokenBucket {
        tokens: Some(
            match counted(bucket, limits, now_ns) {
                Some(n) => RequestsLeft::Whole(
                    if n > 0 {
                        (n - 1) as u64
                    } else {
                        0
                    },
                ),
                None => RequestsLeft::Part(
                    if request_left(update.refilled) {
                        update.spent
                    } else {
                        update.refilled
                    },
                ),
            },
        ),
        updated_at_ns: now_ns,
    }
}

/// Whether a request goes through. Where no time has passed and no request is left, the next one
/// is left in a second at most.
pub open spec fn drawn_decision(
    bucket: Option<TokenBucket>,
    limits: ServerLimits,
    now_ns: u128,
    update: BucketUpdate,
) -> RateDecision {
    match counted(bucket, limits, now_ns) {
        Some(n) => if n > 0 {
            RateDecision::Allowed
        } else {
            RateDecision::Limited { retry_after_seconds: 1 }
        },
        None => if request_left(update.refilled) {
            RateDecision::Allowed
        } else {
            RateDecision::Limited { retry_after_seconds: update.retry_after_seconds }
        },
    }
}

/// Whether a request of a peer is decided as it should be, and turns one limiter into the other: a
/// rate of zero limits nothing; else the bucket of the peer is drawn from, and those of all other
/// peers are as they were.
pub open spec fn acquired(
    before: RateLimiter,
    after: RateLimiter,
    peer: PeerAddress,
    limits: ServerLimits,
    now_ns: u128,
    update: BucketUpdate,
    decision: RateDecision,
) -> bool {
    if limits.rate_limit_rps == 0 {
        decision == RateDecision::Allowed && after == before
    } else {
        let bucket = before.bucket_of(peer);
        &&& decision == drawn_decision(bucket, limits, now_ns, update)
        &&& after.bucket_of(peer) == Some(drawn_bucket(bucket, limits, now_ns, update))
        &&& forall|other: PeerAddress|
            other != peer ==> #[trigger] after.bucket_of(other) == before.bucket_of(other)
    }
}

fn count_requests(bucket: Option<TokenBucket>, limits: &ServerLimits, now_ns: u128) -> (n: Option<
    u64,
>)
    ensures
        n == counted(bucket, *limits, now_ns),
{
    let burst: u64 = limits.rate_limit_burst as u64;
    match bucket {
        None => if burst < WHOLE_LIMIT {
            Some(burst)
        } else {
            None
        },
        Some(TokenBucket { tokens: Some(RequestsLeft::Whole(n)), updated_at_ns }) => {
            if now_ns > updated_at_ns {
                None
            } else if n < burst {
                Some(n)
            } else {
                Some(burst)
            }
        },
        _ => None,
    }
}

proof fn lemma_bucket_in_updated(
    buckets: Seq<PeerBucket>,
    k: int,
    bucket: TokenBucket,
    other: PeerAddress,
)
    requires
        0 <= k < buckets.len(),
        forall|j: int| k < j < buckets.len() ==> (#[trigger] buckets[j]).peer != buckets[k].peer,
    ensures
        bucket_in(buckets.update(k, PeerBucket { peer: buckets[k].peer, bucket }), other) == (
        if other == buckets[k].peer {
            Some(bucket)
        } else {
            bucket_in(buckets, other)
        }),
    decreases buckets.len(),
{
    let changed = buckets.update(k, PeerBucket { peer: buckets[k].peer, bucket });
    if k == buckets.len() - 1 {
        assert(changed.drop_last() =~= buckets.drop_last());
    } else {
        assert(changed.last() == buckets.last());
        assert(changed.drop_last() =~= buckets.drop_last().update(
            k,
            PeerBucket { peer: buckets[k].peer, bucket },
        ));
        lemma_bucket_in_updated(buckets.drop_last(), k, bucket, other);
    }
}

proof fn lemma_bucket_in_pushed(buckets: Seq<PeerBucket>, next: PeerBucket, other: PeerAddress)
    ensures
        bucket_in(buckets.push(next), other) == (if other == next.peer {
            Some(next.bucket)
        } else {
            bucket_in(buckets, other)
        }),
{
    assert(buckets.push(next).drop_last() =~= buckets);
}

impl RateLimiter {
    /// The bucket of a peer that has asked before.
    pub closed spec fn bucket_of(self, peer: PeerAddress) -> Option<TokenBucket> {
        bucket_in(self.buckets@, peer)
    }

    /// A limiter that nobody has asked yet.
    pub fn new() -> (limiter: RateLimiter)
        ensures
            forall|peer: PeerAddress| (#[trigger] limiter.bucket_of(peer)) is None,
    {
        RateLimiter { buckets: Vec::new() }
    }

    fn place_of(&self, peer: PeerAddress) -> (place: Option<usize>)
        ensures
            match place {
                Some(k) => {
                    &&& k < self.buckets@.len()
                    &&& self.buckets@[k as int].peer == peer
                    &&& forall|j: int|
                        k < j < self.buckets@.len() ==> (#[trigger] self.buckets@[j]).peer != peer
                    &&& self.bucket_of(peer) == Some(self.buckets@[k as int].bucket)
                },
                None => self.bucket_of(peer) is None,
            },
    {
        let mut n: usize = self.buckets.len();
        assert(self.buckets@.take(n as int) =~= self.buckets@);
        while n > 0
            invariant
                n <= self.buckets@.len(),
                forall|j: int|
                    n <= j < self.buckets@.len() ==> (#[trigger] self.buckets@[j]).peer != peer,
                bucket_in(self.buckets@, peer) == bucket_in(self.buckets@.take(n as int), peer),
            decreases n,
        {
            proof {
                assert(self.buckets@.take(n as int).last() == self.buckets@[n - 1]);
                assert(self.buckets@.take(n as int).drop_last() =~= self.buckets@.take(n - 1));
            }
            if self.buckets[n - 1].peer == peer {
                return Some(n - 1);
            }
            n -= 1;
        }
        None
    }

    /// The bucket that a request of a peer draws from, where requests are limited at all.
    pub fn current(&self, peer: PeerAddress, limits: &ServerLimits, now_ns: u128) -> (bucket: Option<
        TokenBucket,
    >)
        ensures
            bucket == (if limits.rate_limit_rps == 0 {
                None
            } else {
                match self.bucket_of(peer) {
                    Some(b) => Some(b),
                    None => Some(TokenBucket { tokens: None, updated_at_ns: now_ns }),
                }
            }),
    {
        if limits.rate_limit_rps == 0 {
            return None;
        }
        match self.place_of(peer) {
            Some(k) => Some(self.buckets[k].bucket),
            None => Some(TokenBucket { tokens: None, updated_at_ns: now_ns }),
        }
    }

    /// Draws from the bucket of a peer. `update` is that bucket, as [`RateLimiter::current`] gives
    /// it, after the time until `now_ns`. Where requests are not limited it has no say, nor where
    /// no time has passed and the requests left are a whole number: those are counted here.
    pub fn try_acquire(
        &mut self,
        peer: PeerAddress,
        limits: &ServerLimits,
        now_ns: u128,
        update: &BucketUpdate,
    ) -> (decision: RateDecision)
        ensures
            acquired(*old(self), *final(self), peer, *limits, now_ns, *update, decision),
    {
        if limits.rate_limit_rps == 0 {
            return RateDecision::Allowed;
        }
        let place = self.place_of(peer);
        let held = match place {
            Some(k) => Some(self.buckets[k].bucket),
            None => None,
        };
        let (tokens, decision) = match count_requests(held, limits, now_ns) {
            Some(n) => if n > 0 {
                (RequestsLeft::Whole(n - 1), RateDecision::Allowed)
            } else {
                (RequestsLeft::Whole(0), RateDecision::Limited { retry_after_seconds: 1 })
            },
            None => if update.refilled.below_one() {
                (
                    RequestsLeft::Part(update.refilled),
                    RateDecision::Limited { retry_after_seconds: update.retry_after_seconds },
                )
            } else {
                (RequestsLeft::Part(update.spent), RateDecision::Allowed)
            },
        };
        let bucket = TokenBucket { tokens: Some(tokens), updated_at_ns: now_ns };
        let ghost before = self.buckets@;
        match place {
            Some(k) => {
                self.buckets.set(k, PeerBucket { peer, bucket });
                proof {
                    assert forall|other: PeerAddress| #[trigger]
                        self.bucket_of(other) == (if other == peer {
                            Some(bucket)
                        } else {
                            bucket_in(before, other)
                        }) by {
                        lemma_bucket_in_updated(before, k as int, bucket, other);
                    }
                }
            },
            None => {
                self.buckets.push(PeerBucket { peer, bucket });
                proof {
                    assert forall|other: PeerAddress| #[trigger]
                        self.bucket_of(other) == (if other == peer {
                            Some(bucket)
                        } else {
                            bucket_in(before, other)
                        }) by {
                        lemma_bucket_in_pushed(before, PeerBucket { peer, bucket }, other);
                    }
                }
            },
        }
        decision
    }
}

// ---------------------------------------------------------------------------------------
// Generate
// ---------------------------------------------------------------------------------------

/// How long a client is told to wait while a training run holds the model.
pub const TRAINING_RETRY_AFTER_SECONDS: u64 = 30;

/// A request to continue a prompt.
#[derive(Debug, Clone)]
pub struct GenerateRequest {
    pub prompt: String,
    pub max_tokens: usize,
    pub temperature: ShortReal,
    pub top_k: Option<usize>,
}

/// Why a request is not served.
#[derive(Debug, Clone, PartialEq, Eq)]
pub enum GenerateError {
    BadRequest(String),
    PromptTooLarge { max_bytes: usize, actual_bytes: usize },
    MaxTokensOutOfRange { max_allowed: usize, requested: usize },
    RateLimited { retry_after_seconds: u64 },
    /// A training run holds the model.
    TrainingInProgress { retry_after_seconds: u64 },
    Internal(String),
}

/// What a [`GenerateError`] says.
pub enum GenerateErrorView {
    BadRequest(Seq<char>),
    PromptTooLarge { max_bytes: usize, actual_bytes: usize },
    MaxTokensOutOfRange { max_allowed: usize, requested: usize },
    RateLimited { retry_after_seconds: u64 },
    TrainingInProgress { retry_after_seconds: u64 },
    Internal(Seq<char>),
}

/// What a client is told about an error.
#[derive(Debug, Clone, PartialEq, Eq)]
pub enum GenerateErrorBody {
    PromptTooLarge { max_bytes: usize, actual_bytes: usize },
    MaxTokensOutOfRange { max_allowed: usize, requested: usize },
    RateLimited { retry_after_seconds: u64 },
    TrainingInProgress { retry_after_seconds: u64 },
    BadRequest { message: String },
    Internal { message: String },
}

impl View for GenerateError {
    type V = GenerateErrorView;

    open spec fn view(&self) -> GenerateErrorView {
        match *self {
            GenerateError::BadRequest(message) => GenerateErrorView::BadRequest(message@),
            GenerateError::PromptTooLarge { max_bytes, actual_bytes } => {
                GenerateErrorView::PromptTooLarge { max_bytes, actual_bytes }
            },
            GenerateError::MaxTokensOutOfRange { max_allowed, requested } => {
                GenerateErrorView::MaxTokensOutOfRange { max_allowed, requested }
            },
            GenerateError::RateLimited { retry_after_seconds } => {
                GenerateErrorView::RateLimited { retry_after_seconds }
            },
            GenerateError::TrainingInProgress { retry_after_seconds } => {
                GenerateErrorView::TrainingInProgress { retry_after_seconds }
            },
            GenerateError::Internal(message) => GenerateErrorView::Internal(message@),
        }
    }
}

/// The status code of an error.
pub open spec fn error_status(e: GenerateErrorView) -> u16 {
    match e {
        GenerateErrorView::BadRequest(_) => 400,
        GenerateErrorView::PromptTooLarge { .. } => 400,
        GenerateErrorView::MaxTokensOutOfRange { .. } => 400,
        GenerateErrorView::RateLimited { .. } => 429,
        GenerateErrorView::TrainingInProgress { .. } => 503,
        GenerateErrorView::Internal(_) => 500,
    }
}

/// An error in one line, for the log.
pub open spec fn error_reason(e: GenerateErrorView) -> Seq<char> {
    match e {
        GenerateErrorView::BadRequest(message) => message,
        GenerateErrorView::PromptTooLarge { max_bytes, actual_bytes } => {
            "prompt_too_large max_bytes="@ + text::decimal(max_bytes as nat) + " actual_bytes="@
                + text::decimal(actual_bytes as nat)
        },
        GenerateErrorView::MaxTokensOutOfRange { max_allowed, requested } => {
            "max_tokens_out_of_range max_allowed="@ + text::decimal(max_allowed as nat)
                + " requested="@ + text::decimal(requested as nat)
        },
        GenerateErrorView::RateLimited { retry_after_seconds } => {
            "rate_limited retry_after_seconds="@ + text::decimal(retry_after_seconds as nat)
        },
        GenerateErrorView::TrainingInProgress { retry_after_seconds } => {
            "training_in_progress retry_after_seconds="@ + text::decimal(
                retry_after_seconds as nat,
            )
        },
        GenerateErrorView::Internal(message) => message,
    }
}

/// How long a client is told to wait, if it is told so.
pub open spec fn error_retry_after(e: GenerateErrorView) -> Option<u64> {
    match e {
        GenerateErrorView::RateLimited { retry_after_seconds } => Some(retry_after_seconds),
        GenerateErrorView::TrainingInProgress { retry_after_seconds } => Some(retry_after_seconds),
        _ => None,
    }
}

impl GenerateError {
    /// The status code of this error.
    pub fn status(&self) -> (code: u16)
        ensures
            code == error_status(self@),
    {
        match self {
            GenerateError::BadRequest(_) => 400,
            GenerateError::PromptTooLarge { .. } => 400,
            GenerateError::MaxTokensOutOfRange { .. } => 400,
            GenerateError::RateLimited { .. } => 429,
            GenerateError::TrainingInProgress { .. } => 503,
            GenerateError::Internal(_) => 500,
        }
    }

    /// This error in one line, for the log.
    pub fn reason(&self) -> (s: String)
        ensures
            s@ == error_reason(self@),
    {
        match self {
            GenerateError::BadRequest(message) => message.clone(),
            GenerateError::PromptTooLarge { max_bytes, actual_bytes } => {
                let mut s = "prompt_too_large max_bytes=".to_owned();
                s.append(text::usize_text(*max_bytes).as_str());
                s.append(" actual_bytes=");
                s.append(text::usize_text(*actual_bytes).as_str());
                s
            },
            GenerateError::MaxTokensOutOfRange { max_allowed, requested } => {
                let mut s = "max_tokens_out_of_range max_allowed=".to_owned();
                s.append(text::usize_text(*max_allowed).as_str());
                s.append(" requested=");
                s.append(text::usize_text(*requested).as_str());
                s
            },
            GenerateError::RateLimited { retry_after_seconds } => {
                let mut s = "rate_limited retry_after_seconds=".to_owned();
                s.append(text::u64_text(*retry_after_seconds).as_str());
                s
            },
            GenerateError::TrainingInProgress { retry_after_seconds } => {
                let mut s = "training_in_progress retry_after_seconds=".to_owned();
                s.append(text::u64_text(*retry_after_seconds).as_str());
                s
            },
            GenerateError::Internal(message) => message.clone(),
        }
    }

    /// What a client is told.
    pub fn body(&self) -> (body: GenerateErrorBody)
        ensures
            match (self@, body) {
                (
                    GenerateErrorView::BadRequest(m),
                    GenerateErrorBody::BadRequest { message },
                ) => message@ == m,
                (
                    GenerateErrorView::PromptTooLarge { max_bytes: a, actual_bytes: b },
                    GenerateErrorBody::PromptTooLarge { max_bytes, actual_bytes },
                ) => max_bytes == a && actual_bytes == b,
                (
                    GenerateErrorView::MaxTokensOutOfRange { max_allowed: a, requested: b },
                    GenerateErrorBody::MaxTokensOutOfRange { max_allowed, requested },
                ) => max_allowed == a && requested == b,
                (
                    GenerateErrorView::RateLimited { retry_after_seconds: a },
                    GenerateErrorBody::RateLimited { retry_after_seconds },
                ) => retry_after_seconds == a,
                (
                    GenerateErrorView::TrainingInProgress { retry_after_seconds: a },
                    GenerateErrorBody::TrainingInProgress { retry_after_seconds },
                ) => retry_after_seconds == a,
                (
                    GenerateErrorView::Internal(m),
                    GenerateErrorBody::Internal { message },
                ) => message@ == m,
                _ => false,
            },
    {
        match self {
            GenerateError::BadRequest(message) => GenerateErrorBody::BadRequest {
                message: message.clone(),
            },
            GenerateError::PromptTooLarge { max_bytes, actual_bytes } => {
                GenerateErrorBody::PromptTooLarge {
                    max_bytes: *max_bytes,
                    actual_bytes: *actual_bytes,
                }
            },
            GenerateError::MaxTokensOutOfRange { max_allowed, requested } => {
                GenerateErrorBody::MaxTokensOutOfRange {
                    max_allowed: *max_allowed,
                    requested: *requested,
                }
            },
            GenerateError::RateLimited { retry_after_seconds } => {
                GenerateErrorBody::RateLimited { retry_after_seconds: *retry_after_seconds }
            },
            GenerateError::TrainingInProgress { retry_after_seconds } => {
                GenerateErrorBody::TrainingInProgress { retry_after_seconds: *retry_after_seconds }
            },
            GenerateError::Internal(message) => GenerateErrorBody::Internal {
                message: message.clone(),
            },
        }
    }

    /// How long a client is told to wait, if it is told so.
    pub fn retry_after(&self) -> (seconds: Option<u64>)
        ensures
            seconds == error_retry_after(self@),
    {
        match self {
            GenerateError::RateLimited { retry_after_seconds } => Some(*retry_after_seconds),
            GenerateError::TrainingInProgress { retry_after_seconds } => Some(
                *retry_after_seconds,
            ),
            _ => None,
        }
    }
}

/// Why a request is refused before its prompt is looked at as tokens, if it is.
pub open spec fn refusal(
    request: GenerateRequest,
    limits: ServerLimits,
    training_in_progress: bool,
) -> Option<GenerateErrorView> {
    let prompt_bytes = utf8::encode_utf8(request.prompt@).len() as usize;
    if training_in_progress {
        Some(
            GenerateErrorView::TrainingInProgress {
                retry_after_seconds: TRAINING_RETRY_AFTER_SECONDS,
            },
        )
    } else if request.prompt@.len() == 0 {
        Some(GenerateErrorView::BadRequest("prompt must not be empty"@))
    } else if prompt_bytes > limits.max_prompt_bytes {
        Some(
            GenerateErrorView::PromptTooLarge {
                max_bytes: limits.max_prompt_bytes,
                actual_bytes: prompt_bytes,
            },
        )
    } else if request.max_tokens == 0 || request.max_tokens > limits.max_output_tokens {
        Some(
            GenerateErrorView::MaxTokensOutOfRange {
                max_allowed: limits.max_output_tokens,
                requested: request.max_tokens,
            },
        )
    } else {
        match generation::options_problem(request.temperature, request.top_k) {
            Some(message) => Some(GenerateErrorView::BadRequest(message)),
            None => None,
        }
    }
}

/// Refuses a request that does not keep to the limits, and any while a training run holds the
/// model.
pub fn check_request(
    request: &GenerateRequest,
    limits: &ServerLimits,
    training_in_progress: bool,
) -> (r: Result<GenerationOptions, GenerateError>)
    ensures
        match r {
            Ok(options) => refusal(*request, *limits, training_in_progress) is None && options == (
            GenerationOptions { temperature: request.temperature, top_k: request.top_k }),
            Err(e) => refusal(*request, *limits, training_in_progress) == Some(e@),
        },
{
    if training_in_progress {
        return Err(
            GenerateError::TrainingInProgress { retry_after_seconds: TRAINING_RETRY_AFTER_SECONDS },
        );
    }
    if request.prompt.as_str().is_empty() {
        return Err(GenerateError::BadRequest("prompt must not be empty".to_owned()));
    }
    let prompt_bytes: usize = request.prompt.as_str().len();
    if prompt_bytes > limits.max_prompt_bytes {
        return Err(
            GenerateError::PromptTooLarge {
                max_bytes: limits.max_prompt_bytes,
                actual_bytes: prompt_bytes,
            },
        );
    }
    if request.max_tokens == 0 || request.max_tokens > limits.max_output_tokens {
        return Err(
            GenerateError::MaxTokensOutOfRange {
                max_allowed: limits.max_output_tokens,
                requested: request.max_tokens,
            },
        );
    }
    match GenerationOptions::sampling(request.temperature, request.top_k) {
        Ok(options) => Ok(options),
        Err(message) => Err(GenerateError::BadRequest(message)),
    }
}

/// A request that goes to the model.
#[derive(Debug)]
pub struct AdmittedRequest {
    pub prompt_tokens: Vec<usize>,
    pub options: GenerationOptions,
}

/// Whether `e` refuses a prompt that the tokenizer does not know, by its first unknown character.
pub open spec fn refuses_unknown_text(
    tokenizer: RuntimeTokenizer,
    prompt: Seq<char>,
    e: GenerateErrorView,
) -> bool {
    e matches GenerateErrorView::BadRequest(message) && tokenizer.names_first_unknown(
        prompt,
        message,
    )
}

/// Admits a request to the model. It is held to the limits first, then read as tokens, and only
/// then drawn from the peer's bucket: a request that is refused for another reason costs nothing.
pub fn admit_request(
    limiter: &mut RateLimiter,
    request: &GenerateRequest,
    limits: &ServerLimits,
    training_in_progress: bool,
    tokenizer: &RuntimeTokenizer,
    peer: PeerAddress,
    now_ns: u128,
    update: &BucketUpdate,
) -> (r: Result<AdmittedRequest, GenerateError>)
    ensures
        match refusal(*request, *limits, training_in_progress) {
            Some(e) => r matches Err(f) && f@ == e && *final(limiter) == *old(limiter),
            None => if !tokenizer.can_encode(request.prompt@) {
                r matches Err(f) && refuses_unknown_text(*tokenizer, request.prompt@, f@)
                    && *final(limiter) == *old(limiter)
            } else {
                match r {
                    Ok(admitted) => {
                        &&& acquired(
                            *old(limiter),
                            *final(limiter),
                            peer,
                            *limits,
                            now_ns,
                            *update,
                            RateDecision::Allowed,
                        )
                        &&& tokenizer.encodes(request.prompt@, admitted.prompt_tokens@)
                        &&& admitted.options == (GenerationOptions {
                            temperature: request.temperature,
                            top_k: request.top_k,
                        })
                    },
                    Err(f) => f@ matches GenerateErrorView::RateLimited { retry_after_seconds }
                        && acquired(
                        *old(limiter),
                        *final(limiter),
                        peer,
                        *limits,
                        now_ns,
                        *update,
                        RateDecision::Limited { retry_after_seconds },
                    ),
                }
            },
        },
{
    let options = match check_request(request, limits, training_in_progress) {
        Ok(options) => options,
        Err(e) => {
            return Err(e);
        },
    };
    let prompt_tokens = match tokenizer.try_encode(request.prompt.as_str()) {
        Ok(ids) => ids,
        Err(message) => {
            return Err(GenerateError::BadRequest(message));
        },
    };
    match limiter.try_acquire(peer, limits, now_ns, update) {
        RateDecision::Allowed => Ok(AdmittedRequest { prompt_tokens, options }),
        RateDecision::Limited { retry_after_seconds } => Err(
            GenerateError::RateLimited { retry_after_seconds },
        ),
    }
}

/// Whatever goes to the model keeps to every limit, and never does while a training run holds it.
pub proof fn law_served_requests_keep_the_limits(
    request: GenerateRequest,
    limits: ServerLimits,
    training_in_progress: bool,
)
    requires
        refusal(request, limits, training_in_progress) is None,
    ensures
        !training_in_progress,
        request.prompt@.len() > 0,
        utf8::encode_utf8(request.prompt@).len() as usize <= limits.max_prompt_bytes,
        0 < request.max_tokens <= limits.max_output_tokens,
        !request.temperature.at_most(ShortReal { bits: 0 }),
        request.top_k != Some(0usize),
{
}

/// Every request that keeps to the limits is let through while no training run holds the model; and
/// each refusal says what it is for, with the limit and what was asked for.
pub proof fn law_refusals_say_what_they_are_for(
    request: GenerateRequest,
    limits: ServerLimits,
    training_in_progress: bool,
)
    requires
        utf8::encode_utf8(request.prompt@).len() <= usize::MAX,
    ensures
        !training_in_progress && 0 < request.prompt@.len() && utf8::encode_utf8(
            request.prompt@,
        ).len() <= limits.max_prompt_bytes && 0 < request.max_tokens <= limits.max_output_tokens
            && !request.temperature.at_most(ShortReal { bits: 0 }) && request.top_k != Some(0usize)
            ==> refusal(request, limits, training_in_progress) is None,
        refusal(request, limits, training_in_progress) matches Some(e) ==> match e {
            GenerateErrorView::TrainingInProgress { retry_after_seconds } => training_in_progress
                && retry_after_seconds == 30,
            GenerateErrorView::PromptTooLarge { max_bytes, actual_bytes } => max_bytes
                == limits.max_prompt_bytes && actual_bytes == utf8::encode_utf8(
                request.prompt@,
            ).len() && actual_bytes > max_bytes,
            GenerateErrorView::MaxTokensOutOfRange { max_allowed, requested } => max_allowed
                == limits.max_output_tokens && requested == request.max_tokens && (requested == 0
                || requested > max_allowed),
            GenerateErrorView::BadRequest(_) => request.prompt@.len() == 0
                || request.temperature.at_most(ShortReal { bits: 0 }) || request.top_k == Some(
                0usize,
            ),
            _ => false,
        },
{
    if request.prompt@.len() == 0 {
        assert(utf8::encode_utf8(request.prompt@).len() == 0);
    }
}

/// Errors of a client are answered with its own statuses, and those that pass with time are told
/// how long to wait.
pub proof fn law_statuses_tell_errors_apart(e: GenerateErrorView)
    ensures
        e is BadRequest || e is PromptTooLarge || e is MaxTokensOutOfRange <==> error_status(e)
            == 400,
        e is RateLimited <==> error_status(e) == 429,
        e is TrainingInProgress <==> error_status(e) == 503,
        e is Internal <==> error_status(e) == 500,
        error_retry_after(e) is Some <==> error_status(e) == 429 || error_status(e) == 503,
{
}

/// What the log says when a request comes in. The prompt itself is not logged.
pub fn accepted_event(request: &GenerateRequest, temperature: String) -> (event: RuntimeEvent)
    ensures
        event == (RuntimeEvent::GenerateRequestAccepted {
            max_tokens: request.max_tokens,
            temperature,
            prompt_chars: request.prompt@.len() as usize,
        }),
{
    RuntimeEvent::GenerateRequestAccepted {
        max_tokens: request.max_tokens,
        temperature,
        prompt_chars: request.prompt.as_str().unicode_len(),
    }
}

/// What the log says when a request is not served.
pub fn rejected_event(error: &GenerateError, elapsed_ms: u128) -> (event: RuntimeEvent)
    ensures
        event matches RuntimeEvent::GenerateRequestRejected { status, reason, elapsed_ms: e }
            && status == error_status(error@) && reason@ == error_reason(error@) && e
            == elapsed_ms,
{
    RuntimeEvent::GenerateRequestRejected {
        status: error.status(),
        reason: error.reason(),
        elapsed_ms,
    }
}

/// What the log says when a request has been served.
pub fn completed_event(
    prompt_tokens: usize,
    all_tokens: usize,
    elapsed_ms: u128,
) -> (event: RuntimeEvent)
    ensures
        event == (RuntimeEvent::GenerateRequestCompleted {
            status: 200,
            prompt_tokens,
            generated_tokens: (if all_tokens >= prompt_tokens {
                all_tokens - prompt_tokens
            } else {
                0
            }) as usize,
            elapsed_ms,
        }),
{
    RuntimeEvent::GenerateRequestCompleted {
        status: 200,
        prompt_tokens,
        generated_tokens: all_tokens.saturating_sub(prompt_tokens),
        elapsed_ms,
    }
}

/// The end of a text that the model can see.
pub fn context_window(tokens: &[usize], block_size: usize) -> (part: &[usize])
    ensures
        part@ == definitions::window(tokens@, block_size),
{
    let start: usize = tokens.len().saturating_sub(block_size);
    let part = vstd::slice::slice_subrange(tokens, start, tokens.len());
    assert(part@ =~= definitions::window(tokens@, block_size));
    part
}

/// A generated text, whole and token by token.
#[derive(Debug)]
pub struct GeneratedText {
    pub generated: String,
    pub tokens: Vec<String>,
}

/// The text of generated tokens, whole and token by token.
pub fn generated_text(tokenizer: &RuntimeTokenizer, ids: &[usize]) -> (r: GeneratedText)
    requires
        *tokenizer matches RuntimeTokenizer::Char(t) ==> forall|i: int|
            0 <= i < ids@.len() ==> (#[trigger] ids@[i]) < t.chars().len(),
    ensures
        tokenizer.decodes(ids@, r.generated@),
        r.tokens@.len() == ids@.len(),
        forall|i: int|
            0 <= i < ids@.len() ==> tokenizer.decodes(seq![ids@[i]], (#[trigger] r.tokens@[i])@),
{
    let generated = tokenizer.decode(ids);
    let mut tokens: Vec<String> = Vec::new();
    let mut i: usize = 0;
    while i < ids.len()
        invariant
            i <= ids@.len(),
            tokens@.len() == i,
            *tokenizer matches RuntimeTokenizer::Char(t) ==> forall|j: int|
                0 <= j < ids@.len() ==> (#[trigger] ids@[j]) < t.chars().len(),
            forall|j: int|
                0 <= j < i ==> tokenizer.decodes(seq![ids@[j]], (#[trigger] tokens@[j])@),
        decreases ids.len() - i,
    {
        let one = [ids[i]];
        assert(one@ =~= seq![ids@[i as int]]);
        let part = tokenizer.decode(&one);
        tokens.push(part);
        i += 1;
    }
    GeneratedText { generated, tokens }
}

// ---------------------------------------------------------------------------------------
// Attention and routing
// ---------------------------------------------------------------------------------------

/// The weights of one attention head: a row for each query, a column for each key.
#[derive(Debug, Clone, PartialEq)]
pub struct AttentionData<T> {
    pub layer: usize,
    pub head: usize,
    pub weights: Vec<Vec<T>>,
}

/// The experts of each token in one layer, and their weights.
#[derive(Debug, Clone, PartialEq)]
pub struct RoutingData<T> {
    pub layer: usize,
    pub experts: Vec<Vec<usize>>,
    pub weights: Vec<Vec<T>>,
}

/// The attention of one layer as the model gives it: its shape, and its values head by head and row
/// by row, or why they could not be read.
#[derive(Debug)]
pub struct LayerAttention<T> {
    pub batch_size: usize,
    pub num_heads: usize,
    pub seq_len: usize,
    pub values: Result<Vec<T>, String>,
}

/// The routing of one layer as the model gives it.
#[derive(Debug)]
pub struct LayerRouting<T> {
    pub batch_size: usize,
    pub seq_len: usize,
    pub top_k: usize,
    pub indices: Result<Vec<i64>, String>,
    pub weights: Result<Vec<T>, String>,
}

/// Part `row` of a table with `width` columns.
pub open spec fn table_row<T>(values: Seq<T>, row: int, width: int) -> Seq<T> {
    values.subrange(row * width, row * width + width)
}

/// Whether `rows` are the rows of a table from row `first` on.
pub open spec fn are_rows<T>(
    rows: Seq<Vec<T>>,
    values: Seq<T>,
    first: int,
    count: int,
    width: int,
) -> bool {
    &&& rows.len() == count
    &&& forall|r: int|
        0 <= r < count ==> (#[trigger] rows[r])@ == table_row(values, first + r, width)
}

fn copy_row<T: Copy>(values: &Vec<T>, start: usize, width: usize) -> (row: Vec<T>)
    requires
        start + width <= values@.len(),
    ensures
        row@ == values@.subrange(start as int, start + width),
{
    let n: usize = values.len();
    let mut row: Vec<T> = Vec::new();
    let mut i: usize = 0;
    while i < width
        invariant
            i <= width,
            n == values@.len(),
            start + width <= n,
            row@ =~= values@.subrange(start as int, start + i),
        decreases width - i,
    {
        row.push(values[start + i]);
        i += 1;
    }
    row
}

fn copy_rows<T: Copy>(values: &Vec<T>, first: usize, count: usize, width: usize) -> (rows: Vec<
    Vec<T>,
>)
    requires
        (first + count) * width <= values@.len(),
        first + count <= usize::MAX,
    ensures
        are_rows(rows@, values@, first as int, count as int, width as int),
{
    let n: usize = values.len();
    let mut rows: Vec<Vec<T>> = Vec::new();
    let mut r: usize = 0;
    while r < count
        invariant
            r <= count,
            n == values@.len(),
            first + count <= usize::MAX,
            (first + count) * width <= n,
            are_rows(rows@, values@, first as int, r as int, width as int),
        decreases count - r,
    {
        assert((first + r) * width + width <= (first + count) * width) by (nonlinear_arith)
            requires
                r + 1 <= count,
        ;
        assert((first + r) * width >= 0) by (nonlinear_arith);
        let row = copy_row(values, (first + r) * width, width);
        rows.push(row);
        r += 1;
    }
    rows
}

/// What is wrong with the attention of a layer, if something is.
pub open spec fn attention_problem<T>(layer: LayerAttention<T>) -> Option<Seq<char>> {
    if layer.batch_size != 1 {
        Some("expected attention batch size 1, got "@ + text::decimal(layer.batch_size as nat))
    } else {
        match layer.values {
            Ok(_) => None,
            Err(message) => Some("failed to serialize attention tensor: "@ + message@),
        }
    }
}

/// Whether the values of a layer fill its shape.
pub open spec fn attention_fills<T>(layer: LayerAttention<T>) -> bool {
    layer.values matches Ok(values) ==> layer.num_heads * layer.seq_len <= usize::MAX
        && layer.num_heads * layer.seq_len * layer.seq_len <= values@.len()
}

/// Whether `data` is head `head` of layer `number`.
pub open spec fn is_head<T>(
    data: AttentionData<T>,
    layer: LayerAttention<T>,
    number: int,
    head: int,
) -> bool {
    &&& data.layer == number
    &&& data.head == head
    &&& layer.values matches Ok(values) && are_rows(
        data.weights@,
        values@,
        head * layer.seq_len,
        layer.seq_len as int,
        layer.seq_len as int,
    )
}

/// How many heads the first `n` layers have together.
pub open spec fn heads_before<T>(layers: Seq<LayerAttention<T>>, n: int) -> int
    decreases n,
{
    if n <= 0 {
        0
    } else {
        heads_before(layers, n - 1) + layers[n - 1].num_heads
    }
}

/// Whether `data` lists every head of the first `n` layers in order.
pub open spec fn lists_heads<T>(
    data: Seq<AttentionData<T>>,
    layers: Seq<LayerAttention<T>>,
    n: int,
) -> bool {
    &&& data.len() == heads_before(layers, n)
    &&& forall|l: int, h: int|
        0 <= l < n && 0 <= h < layers[l].num_heads ==> #[trigger] is_head(
            data[heads_before(layers, l) + h],
            layers[l],
            l,
            h,
        )
}

/// The first layer with a problem, or the number of layers.
pub open spec fn first_bad_layer<T>(layers: Seq<LayerAttention<T>>, n: int) -> bool {
    &&& 0 <= n <= layers.len()
    &&& forall|l: int| 0 <= l < n ==> attention_problem(#[trigger] layers[l]) is None
    &&& n < layers.len() ==> attention_problem(layers[n]) is Some
}

proof fn lemma_heads_before_grows<T>(layers: Seq<LayerAttention<T>>, a: int, b: int)
    requires
        0 <= a <= b <= layers.len(),
    ensures
        0 <= heads_before(layers, a) <= heads_before(layers, b),
    decreases b,
{
    if a < b {
        lemma_heads_before_grows(layers, a, b - 1);
    } else if b > 0 {
        lemma_heads_before_grows(layers, a - 1, b - 1);
    }
}

/// The attention of all layers, one matrix for each layer and head.
pub fn attention_data<T: Copy>(layers: &Vec<LayerAttention<T>>) -> (r: Result<
    Vec<AttentionData<T>>,
    GenerateError,
>)
    requires
        forall|l: int| 0 <= l < layers@.len() ==> attention_fills(#[trigger] layers@[l]),
    ensures
        match r {
            Ok(data) => first_bad_layer(layers@, layers@.len() as int) && lists_heads(
                data@,
                layers@,
                layers@.len() as int,
            ),
            Err(e) => exists|n: int| #[trigger]
                first_bad_layer(layers@, n) && n < layers@.len() && e@
                    == GenerateErrorView::Internal(attention_problem(layers@[n])->Some_0),
        },
{
    let mut data: Vec<AttentionData<T>> = Vec::new();
    let mut l: usize = 0;
    while l < layers.len()
        invariant
            l <= layers@.len(),
            forall|k: int| 0 <= k < layers@.len() ==> attention_fills(#[trigger] layers@[k]),
            forall|k: int| 0 <= k < l ==> attention_problem(#[trigger] layers@[k]) is None,
            lists_heads(data@, layers@, l as int),
        decreases layers.len() - l,
    {
        let layer = &layers[l];
        if layer.batch_size != 1 {
            let mut message = "expected attention batch size 1, got ".to_owned();
            message.append(text::usize_text(layer.batch_size).as_str());
            assert(first_bad_layer(layers@, l as int));
            return Err(GenerateError::Internal(message));
        }
        let values = match &layer.values {
            Ok(values) => values,
            Err(reason) => {
                let mut message = "failed to serialize attention tensor: ".to_owned();
                message.append(reason.as_str());
                assert(first_bad_layer(layers@, l as int));
                return Err(GenerateError::Internal(message));
            },
        };
        let seq_len: usize = layer.seq_len;
        let num_heads: usize = layer.num_heads;
        let ghost before = data@;
        let mut head: usize = 0;
        assert(attention_fills(layers@[l as int]));
        while head < num_heads
            invariant
                head <= num_heads,
                l < layers@.len(),
                layers@[l as int].values == Ok::<Vec<T>, String>(*values),
                layers@[l as int].seq_len == seq_len,
                layers@[l as int].num_heads == num_heads,
                num_heads * seq_len <= usize::MAX,
                num_heads * seq_len * seq_len <= values@.len(),
                before.len() == heads_before(layers@, l as int),
                data@.len() == before.len() + head,
                forall|k: int| 0 <= k < before.len() ==> data@[k] == #[trigger] before[k],
                forall|h: int|
                    0 <= h < head ==> is_head(
                        #[trigger] data@[before.len() + h],
                        layers@[l as int],
                        l as int,
                        h,
                    ),
            decreases num_heads - head,
        {
            proof {
                assert(head * seq_len + seq_len <= num_heads * seq_len) by (nonlinear_arith)
                    requires
                        head + 1 <= num_heads,
                ;
                assert(head * seq_len >= 0) by (nonlinear_arith);
                assert((head * seq_len + seq_len) * seq_len <= num_heads * seq_len * seq_len) by (
                nonlinear_arith)
                    requires
                        head * seq_len + seq_len <= num_heads * seq_len,
                ;
            }
            let weights = copy_rows(values, head * seq_len, seq_len, seq_len);
            data.push(AttentionData { layer: l, head, weights });
            assert(is_head(data@[before.len() + head], layers@[l as int], l as int, head as int));
            head += 1;
        }
        proof {
            assert(heads_before(layers@, l + 1) == heads_before(layers@, l as int) + num_heads);
            assert forall|k: int, h: int|
                0 <= k < l + 1 && 0 <= h < layers@[k].num_heads implies #[trigger] is_head(
                data@[heads_before(layers@, k) + h],
                layers@[k],
                k,
                h,
            ) by {
                if k < l {
                    lemma_heads_before_grows(layers@, k + 1, l as int);
                    lemma_heads_before_grows(layers@, 0, k);
                    let at = heads_before(layers@, k) + h;
                    assert(heads_before(layers@, k + 1) == heads_before(layers@, k)
                        + layers@[k].num_heads);
                    assert(is_head(before[at], layers@[k], k, h));
                    assert(data@[at] == before[at]);
                } else {
                    assert(is_head(data@[before.len() + h], layers@[l as int], l as int, h));
                }
            }
        }
        l += 1;
    }
    Ok(data)
}

/// What is wrong with the routing of a layer, if something is.
pub open spec fn routing_problem<T>(layer: LayerRouting<T>) -> Option<Seq<char>> {
    if layer.batch_size != 1 {
        Some("expected routing batch size 1, got "@ + text::decimal(layer.batch_size as nat))
    } else {
        match layer.indices {
            Err(message) => Some("failed to serialize routing indices: "@ + message@),
            Ok(_) => match layer.weights {
                Err(message) => Some("failed to serialize routing weights: "@ + message@),
                Ok(_) => None,
            },
        }
    }
}

/// Whether the values of a layer fill its shape.
pub open spec fn routing_fills<T>(layer: LayerRouting<T>) -> bool {
    &&& layer.indices matches Ok(indices) ==> layer.seq_len * layer.top_k <= indices@.len()
    &&& layer.weights matches Ok(weights) ==> layer.seq_len * layer.top_k <= weights@.len()
}

/// Expert numbers in the width of an index.
pub open spec fn expert_numbers(indices: Seq<i64>) -> Seq<usize> {
    Seq::new(indices.len(), |i: int| indices[i] as usize)
}

/// Whether `data` tells the routing of layer `number`: for each token a row of experts and a row of
/// their weights.
pub open spec fn is_routing<T>(data: RoutingData<T>, layer: LayerRouting<T>, number: int) -> bool {
    &&& data.layer == number
    &&& layer.indices matches Ok(indices) && are_rows(
        data.experts@,
        expert_numbers(indices@),
        0,
        layer.seq_len as int,
        layer.top_k as int,
    )
    &&& layer.weights matches Ok(weights) && are_rows(
        data.weights@,
        weights@,
        0,
        layer.seq_len as int,
        layer.top_k as int,
    )
}

/// The first layer with a problem, or the number of layers.
pub open spec fn first_bad_routing<T>(layers: Seq<LayerRouting<T>>, n: int) -> bool {
    &&& 0 <= n <= layers.len()
    &&& forall|l: int| 0 <= l < n ==> routing_problem(#[trigger] layers[l]) is None
    &&& n < layers.len() ==> routing_problem(layers[n]) is Some
}

fn to_expert_numbers(indices: &Vec<i64>) -> (numbers: Vec<usize>)
    ensures
        numbers@ == expert_numbers(indices@),
{
    let mut numbers: Vec<usize> = Vec::new();
    let mut i: usize = 0;
    while i < indices.len()
        invariant
            i <= indices@.len(),
            numbers@ =~= expert_numbers(indices@).take(i as int),
        decreases indices.len() - i,
    {
        numbers.push(indices[i] as usize);
        i += 1;
    }
    numbers
}

/// The routing of all layers.
pub fn routing_data<T: Copy>(layers: &Vec<LayerRouting<T>>) -> (r: Result<
    Vec<RoutingData<T>>,
    GenerateError,
>)
    requires
        forall|l: int| 0 <= l < layers@.len() ==> routing_fills(#[trigger] layers@[l]),
    ensures
        match r {
            Ok(data) => {
                &&& first_bad_routing(layers@, layers@.len() as int)
                &&& data@.len() == layers@.len()
                &&& forall|l: int|
                    0 <= l < layers@.len() ==> is_routing(#[trigger] data@[l], layers@[l], l)
            },
            Err(e) => exists|n: int| #[trigger]
                first_bad_routing(layers@, n) && n < layers@.len() && e@
                    == GenerateErrorView::Internal(routing_problem(layers@[n])->Some_0),
        },
{
    let mut data: Vec<RoutingData<T>> = Vec::new();
    let mut l: usize = 0;
    while l < layers.len()
        invariant
            l <= layers@.len(),
            data@.len() == l,
            forall|k: int| 0 <= k < layers@.len() ==> routing_fills(#[trigger] layers@[k]),
            forall|k: int| 0 <= k < l ==> routing_problem(#[trigger] layers@[k]) is None,
            forall|k: int| 0 <= k < l ==> is_routing(#[trigger] data@[k], layers@[k], k),
        decreases layers.len() - l,
    {
        let layer = &layers[l];
        assert(routing_fills(layers@[l as int]));
        if layer.batch_size != 1 {
            let mut message = "expected routing batch size 1, got ".to_owned();
            message.append(text::usize_text(layer.batch_size).as_str());
            assert(first_bad_routing(layers@, l as int));
            return Err(GenerateError::Internal(message));
        }
        let indices = match &layer.indices {
            Ok(indices) => indices,
            Err(reason) => {
                let mut message = "failed to serialize routing indices: ".to_owned();
                message.append(reason.as_str());
                assert(first_bad_routing(layers@, l as int));
                return Err(GenerateError::Internal(message));
            },
        };
        let weights = match &layer.weights {
            Ok(weights) => weights,
            Err(reason) => {
                let mut message = "failed to serialize routing weights: ".to_owned();
                message.append(reason.as_str());
                assert(first_bad_routing(layers@, l as int));
                return Err(GenerateError::Internal(message));
            },
        };
        let numbers = to_expert_numbers(indices);
        let experts = copy_rows(&numbers, 0, layer.seq_len, layer.top_k);
        let rows = copy_rows(weights, 0, layer.seq_len, layer.top_k);
        data.push(RoutingData { layer: l, experts, weights: rows });
        l += 1;
    }
    Ok(data)
}

/// What a client is told about its prompt: the text, whole and token by token, and what the layers
/// of the model did with the part of it that the model can see.
#[derive(Debug)]
pub struct GenerateResponse<T> {
    pub generated: String,
    pub tokens: Vec<String>,
    pub attention: Vec<AttentionData<T>>,
    /// Only of a model that routes its tokens.
    pub routing: Option<Vec<RoutingData<T>>>,
}

/// Whether `data` tells the routing of all layers.
pub open spec fn lists_routing<T>(data: Seq<RoutingData<T>>, layers: Seq<LayerRouting<T>>) -> bool {
    &&& data.len() == layers.len()
    &&& forall|l: int| 0 <= l < layers.len() ==> is_routing(#[trigger] data[l], layers[l], l)
}

/// Whether all layers could be read.
pub open spec fn readable<T>(
    attention: Seq<LayerAttention<T>>,
    routing: Option<Seq<LayerRouting<T>>>,
) -> bool {
    &&& first_bad_layer(attention, attention.len() as int)
    &&& routing matches Some(layers) ==> first_bad_routing(layers, layers.len() as int)
}

/// Whether `message` says what is wrong with the first layer that could not be read. The attention
/// is read before the routing.
pub open spec fn names_first_problem<T>(
    attention: Seq<LayerAttention<T>>,
    routing: Option<Seq<LayerRouting<T>>>,
    message: Seq<char>,
) -> bool {
    if first_bad_layer(attention, attention.len() as int) {
        routing matches Some(layers) && exists|n: int| #[trigger]
            first_bad_routing(layers, n) && n < layers.len() && routing_problem(layers[n]) == Some(
                message,
            )
    } else {
        exists|n: int| #[trigger]
            first_bad_layer(attention, n) && n < attention.len() && attention_problem(attention[n])
                == Some(message)
    }
}

/// The routing of a model, where it has any.
pub open spec fn routing_view<T>(routing: Option<&Vec<LayerRouting<T>>>) -> Option<
    Seq<LayerRouting<T>>,
> {
    match routing {
        Some(layers) => Some(layers@),
        None => None,
    }
}

/// The answer to a request that was served: what the model generated, prompt included, with the
/// attention and the routing of the part that it sees.
pub fn generate_response<T: Copy>(
    tokenizer: &RuntimeTokenizer,
    ids: &[usize],
    attention: &Vec<LayerAttention<T>>,
    routing: Option<&Vec<LayerRouting<T>>>,
) -> (r: Result<GenerateResponse<T>, GenerateError>)
    requires
        *tokenizer matches RuntimeTokenizer::Char(t) ==> forall|i: int|
            0 <= i < ids@.len() ==> (#[trigger] ids@[i]) < t.chars().len(),
        forall|l: int| 0 <= l < attention@.len() ==> attention_fills(#[trigger] attention@[l]),
        routing matches Some(layers) ==> forall|l: int|
            0 <= l < layers@.len() ==> routing_fills(#[trigger] layers@[l]),
    ensures
        match r {
            Ok(response) => {
                &&& readable(attention@, routing_view(routing))
                &&& tokenizer.decodes(ids@, response.generated@)
                &&& response.tokens@.len() == ids@.len()
                &&& forall|i: int|
                    0 <= i < ids@.len() ==> tokenizer.decodes(
                        seq![ids@[i]],
                        (#[trigger] response.tokens@[i])@,
                    )
                &&& lists_heads(response.attention@, attention@, attention@.len() as int)
                &&& match (response.routing, routing_view(routing)) {
                    (Some(data), Some(layers)) => lists_routing(data@, layers),
                    (None, None) => true,
                    _ => false,
                }
            },
            Err(e) => {
                &&& !readable(attention@, routing_view(routing))
                &&& e@ matches GenerateErrorView::Internal(message) && names_first_problem(
                    attention@,
                    routing_view(routing),
                    message,
                )
            },
        },
{
    let heads = match attention_data(attention) {
        Ok(heads) => heads,
        Err(e) => {
            return Err(e);
        },
    };
    let experts = match routing {
        Some(layers) => match routing_data(layers) {
            Ok(experts) => Some(experts),
            Err(e) => {
                return Err(e);
            },
        },
        None => None,
    };
    let text = generated_text(tokenizer, ids);
    Ok(
        GenerateResponse {
            generated: text.generated,
            tokens: text.tokens,
            attention: heads,
            routing: experts,
        },
    )
}

// ---------------------------------------------------------------------------------------
// Info and health
// ---------------------------------------------------------------------------------------

/// Which kind of model is served.
#[derive(Debug, Clone, Copy, PartialEq, Eq, Structural)]
pub enum ServedKind {
    MiniGpt,
    MoeGpt { num_experts: usize, top_k: usize },
}

/// What is told about a served model.
#[derive(Debug, Clone, Copy, PartialEq, Eq, Structural)]
pub struct ServedShape {
    pub kind: ServedKind,
    pub vocab_size: usize,
    pub block_size: usize,
    pub num_layers: usize,
    pub num_heads: usize,
    pub d_model: usize,
}

/// The name of a kind of model.
pub open spec fn kind_label(kind: ServedKind) -> Seq<char> {
    match kind {
        ServedKind::MiniGpt => "minigpt"@,
        ServedKind::MoeGpt { .. } => "moe-gpt"@,
    }
}

/// The number of experts of a model. One without routing has none.
pub open spec fn expert_count(kind: ServedKind) -> usize {
    match kind {
        ServedKind::MiniGpt => 0,
        ServedKind::MoeGpt { num_experts, .. } => num_experts,
    }
}

/// How many experts a token goes to. Without routing none.
pub open spec fn experts_per_token(kind: ServedKind) -> usize {
    match kind {
        ServedKind::MiniGpt => 0,
        ServedKind::MoeGpt { top_k, .. } => top_k,
    }
}

impl ServedShape {
    /// The name of this kind of model.
    pub fn kind(&self) -> (s: &'static str)
        ensures
            s@ == kind_label(self.kind),
    {
        match self.kind {
            ServedKind::MiniGpt => "minigpt",
            ServedKind::MoeGpt { .. } => "moe-gpt",
        }
    }

    /// The number of experts.
    pub fn num_experts(&self) -> (n: usize)
        ensures
            n == expert_count(self.kind),
    {
        match self.kind {
            ServedKind::MiniGpt => 0,
            ServedKind::MoeGpt { num_experts, .. } => num_experts,
        }
    }

    /// How many experts a token goes to.
    pub fn moe_top_k(&self) -> (n: usize)
        ensures
            n == experts_per_token(self.kind),
    {
        match self.kind {
            ServedKind::MiniGpt => 0,
            ServedKind::MoeGpt { top_k, .. } => top_k,
        }
    }
}

/// Where the weights of the served model come from.
#[derive(Debug, Clone, Copy, PartialEq, Eq, Structural)]
pub enum CheckpointSource {
    /// From no checkpoint: the model is new.
    Fresh,
    Explicit,
    Latest,
}

/// The name of a source.
pub open spec fn source_label(source: CheckpointSource) -> Seq<char> {
    match source {
        CheckpointSource::Fresh => "none"@,
        CheckpointSource::Explicit => "explicit"@,
        CheckpointSource::Latest => "latest"@,
    }
}

impl CheckpointSource {
    /// The name of this source.
    pub fn as_str(self) -> (s: &'static str)
        ensures
            s@ == source_label(self),
    {
        match self {
            CheckpointSource::Fresh => "none",
            CheckpointSource::Explicit => "explicit",
            CheckpointSource::Latest => "latest",
        }
    }
}

/// What a server knows of where it comes from.
#[derive(Debug, Clone, PartialEq, Eq)]
pub struct ServerProvenance {
    /// When the server started, in milliseconds of the caller's clock.
    pub started_at_ms: u64,
    pub checkpoint_source: CheckpointSource,
    pub checkpoint_basename: Option<String>,
    pub checkpoint_sha256: Option<String>,
    pub tokenizer_sha256: Option<String>,
}

/// Whether two optional texts say the same.
pub open spec fn says(s: Option<String>, t: Option<Seq<char>>) -> bool {
    match (s, t) {
        (Some(a), Some(b)) => a@ == b,
        (None, None) => true,
        _ => false,
    }
}

fn copy_text(s: &Option<String>) -> (t: Option<String>)
    ensures
        match (*s, t) {
            (Some(a), Some(b)) => a@ == b@,
            (None, None) => true,
            _ => false,
        },
{
    match s {
        Some(a) => Some(a.clone()),
        None => None,
    }
}

/// The last name of the file that a checkpoint lies in.
pub open spec fn checkpoint_basename(checkpoint_path: Seq<char>) -> Option<Seq<char>> {
    path::file_name(path::with_extension(checkpoint_path, "mpk"@))
}

impl ServerProvenance {
    /// A server with a new model.
    pub fn fresh(started_at_ms: u64) -> (p: ServerProvenance)
        ensures
            p.started_at_ms == started_at_ms,
            p.checkpoint_source == CheckpointSource::Fresh,
            p.checkpoint_basename is None,
            p.checkpoint_sha256 is None,
            p.tokenizer_sha256 is None,
    {
        ServerProvenance {
            started_at_ms,
            checkpoint_source: CheckpointSource::Fresh,
            checkpoint_basename: None,
            checkpoint_sha256: None,
            tokenizer_sha256: None,
        }
    }

    /// A server with the given checkpoint and tokenizer. The files are given by their bytes, where
    /// they are there.
    pub fn of_files(
        started_at_ms: u64,
        checkpoint_source: CheckpointSource,
        checkpoint_path: Option<&str>,
        checkpoint_file: &Option<Vec<u8>>,
        tokenizer_file: &Option<Vec<u8>>,
    ) -> (p: ServerProvenance)
        ensures
            p.started_at_ms == started_at_ms,
            p.checkpoint_source == checkpoint_source,
            says(
                p.checkpoint_basename,
                match checkpoint_path {
                    Some(c) => checkpoint_basename(c@),
                    None => None,
                },
            ),
            says(
                p.checkpoint_sha256,
                match checkpoint_path {
                    Some(_) => persistence::file_digest(*checkpoint_file),
                    None => None,
                },
            ),
            says(p.tokenizer_sha256, persistence::file_digest(*tokenizer_file)),
    {
        let (checkpoint_basename, checkpoint_sha256) = match checkpoint_path {
            Some(c) => {
                let file = path::path_with_extension(c, "mpk");
                (
                    path::path_file_name(file.as_str()),
                    persistence::sha256_file_hex(checkpoint_file),
                )
            },
            None => (None, None),
        };
        ServerProvenance {
            started_at_ms,
            checkpoint_source,
            checkpoint_basename,
            checkpoint_sha256,
            tokenizer_sha256: persistence::sha256_file_hex(tokenizer_file),
        }
    }
}

/// What is told about a checkpoint never names a directory.
pub proof fn law_no_directory_is_told(checkpoint_path: Seq<char>, i: int)
    requires
        checkpoint_basename(checkpoint_path) is Some,
        0 <= i < checkpoint_basename(checkpoint_path)->Some_0.len(),
    ensures
        checkpoint_basename(checkpoint_path)->Some_0[i] != '/',
{
    path::lemma_file_name_is_plain(path::with_extension(checkpoint_path, "mpk"@));
}

/// What is told about the model and the tokenizer.
#[derive(Debug, Clone, Copy, PartialEq, Eq)]
pub struct InfoResponse {
    pub model_kind: &'static str,
    pub vocab_size: usize,
    pub num_layers: usize,
    pub num_heads: usize,
    pub block_size: usize,
    pub num_experts: usize,
    pub moe_top_k: usize,
    pub tokenizer_vocab_size: usize,
    pub model_tokenizer_vocab_match: bool,
}

/// What is told about the model and the tokenizer.
pub fn info(model: &ServedShape, tokenizer: &RuntimeTokenizer) -> (r: InfoResponse)
    ensures
        r.model_kind@ == kind_label(model.kind),
        r.vocab_size == model.vocab_size,
        r.num_layers == model.num_layers,
        r.num_heads == model.num_heads,
        r.block_size == model.block_size,
        r.num_experts == expert_count(model.kind),
        r.moe_top_k == experts_per_token(model.kind),
        r.tokenizer_vocab_size == tokenizer.size(),
        r.model_tokenizer_vocab_match == (model.vocab_size == tokenizer.size()),
{
    let tokenizer_vocab_size: usize = tokenizer.vocab_size();
    InfoResponse {
        model_kind: model.kind(),
        vocab_size: model.vocab_size,
        num_layers: model.num_layers,
        num_heads: model.num_heads,
        block_size: model.block_size,
        num_experts: model.num_experts(),
        moe_top_k: model.moe_top_k(),
        tokenizer_vocab_size,
        model_tokenizer_vocab_match: model.vocab_size == tokenizer_vocab_size,
    }
}

/// What a health check is told.
#[derive(Debug, Clone, PartialEq, Eq)]
pub struct HealthResponse {
    pub status: &'static str,
    pub uptime_seconds: u64,
    pub model: HealthModel,
    pub checkpoint: HealthCheckpoint,
    pub tokenizer: HealthTokenizer,
}

/// What a health check is told about the tokenizer.
#[derive(Debug, Clone, PartialEq, Eq)]
pub struct HealthTokenizer {
    pub kind: &'static str,
    pub sha256: Option<String>,
}

/// What a health check is told about the model.
#[derive(Debug, Clone, Copy, PartialEq, Eq)]
pub struct HealthModel {
    pub kind: &'static str,
    pub embed_dim: usize,
    pub num_heads: usize,
    pub num_layers: usize,
    pub block_size: usize,
    pub vocab_size: usize,
    pub num_experts: usize,
    pub moe_top_k: usize,
}

/// What a health check is told about the checkpoint.
#[derive(Debug, Clone, PartialEq, Eq)]
pub struct HealthCheckpoint {
    pub loaded: bool,
    pub source: &'static str,
    pub basename: Option<String>,
    pub sha256: Option<String>,
}

/// The view of an optional text.
pub open spec fn text_of(s: Option<String>) -> Option<Seq<char>> {
    match s {
        Some(t) => Some(t@),
        None => None,
    }
}

/// What a health check is told.
pub fn health(
    provenance: &ServerProvenance,
    model: &ServedShape,
    tokenizer: &RuntimeTokenizer,
    now_ms: u64,
) -> (r: HealthResponse)
    requires
        provenance.started_at_ms <= now_ms,
    ensures
        r.status@ == "ok"@,
        r.uptime_seconds == (now_ms - provenance.started_at_ms) / 1000,
        r.model.kind@ == kind_label(model.kind),
        r.model.embed_dim == model.d_model,
        r.model.num_heads == model.num_heads,
        r.model.num_layers == model.num_layers,
        r.model.block_size == model.block_size,
        r.model.vocab_size == model.vocab_size,
        r.model.num_experts == expert_count(model.kind),
        r.model.moe_top_k == experts_per_token(model.kind),
        r.checkpoint.loaded == (provenance.checkpoint_source != CheckpointSource::Fresh),
        r.checkpoint.source@ == source_label(provenance.checkpoint_source),
        text_of(r.checkpoint.basename) == text_of(provenance.checkpoint_basename),
        text_of(r.checkpoint.sha256) == text_of(provenance.checkpoint_sha256),
        r.tokenizer.kind@ == (match *tokenizer {
            RuntimeTokenizer::Char(_) => "char"@,
            RuntimeTokenizer::Bpe(_) => "bpe"@,
        }),
        text_of(r.tokenizer.sha256) == text_of(provenance.tokenizer_sha256),
{
    let loaded = match provenance.checkpoint_source {
        CheckpointSource::Fresh => false,
        _ => true,
    };
    HealthResponse {
        status: "ok",
        uptime_seconds: (now_ms - provenance.started_at_ms) / 1000,
        model: HealthModel {
            kind: model.kind(),
            embed_dim: model.d_model,
            num_heads: model.num_heads,
            num_layers: model.num_layers,
            block_size: model.block_size,
            vocab_size: model.vocab_size,
            num_experts: model.num_experts(),
            moe_top_k: model.moe_top_k(),
        },
        checkpoint: HealthCheckpoint {
            loaded,
            source: provenance.checkpoint_source.as_str(),
            basename: copy_text(&provenance.checkpoint_basename),
            sha256: copy_text(&provenance.checkpoint_sha256),
        },
        tokenizer: HealthTokenizer {
            kind: tokenizer.kind(),
            sha256: copy_text(&provenance.tokenizer_sha256),
        },
    }
}

/// Where a weight of a head is found among the values of its layer: heads come one after the other,
/// and in each of them the rows of its queries.
pub proof fn law_weights_keep_their_places<T>(
    data: AttentionData<T>,
    layer: LayerAttention<T>,
    number: int,
    head: int,
    query: int,
    key: int,
)
    requires
        is_head(data, layer, number, head),
        attention_fills(layer),
        0 <= head < layer.num_heads,
        0 <= query < layer.seq_len,
        0 <= key < layer.seq_len,
    ensures
        data.layer == number,
        data.head == head,
        data.weights@.len() == layer.seq_len,
        data.weights@[query]@.len() == layer.seq_len,
        data.weights@[query]@[key] == layer.values->Ok_0@[(head * layer.seq_len + query)
            * layer.seq_len + key],
{
    let n = layer.seq_len as int;
    let row = head * n + query;
    let values = layer.values->Ok_0@;
    assert(data.weights@[query]@ == table_row(values, row, n));
    assert(0 <= row * n && row * n + n <= layer.num_heads * n * n) by (nonlinear_arith)
        requires
            row == head * n + query,
            0 <= head < layer.num_heads,
            0 <= query < n,
    ;
}

/// Where the experts of a token and their weights are found among the values of its layer: the
/// tokens come one after the other.
pub proof fn law_routes_keep_their_places<T>(
    data: RoutingData<T>,
    layer: LayerRouting<T>,
    number: int,
    token: int,
    k: int,
)
    requires
        is_routing(data, layer, number),
        routing_fills(layer),
        0 <= token < layer.seq_len,
        0 <= k < layer.top_k,
    ensures
        data.layer == number,
        data.experts@.len() == layer.seq_len,
        data.weights@.len() == layer.seq_len,
        data.experts@[token]@.len() == layer.top_k,
        data.weights@[token]@.len() == layer.top_k,
        data.experts@[token]@[k] == layer.indices->Ok_0@[token * layer.top_k + k] as usize,
        data.weights@[token]@[k] == layer.weights->Ok_0@[token * layer.top_k + k],
{
    let n = layer.top_k as int;
    assert(data.experts@[token]@ == table_row(
        expert_numbers(layer.indices->Ok_0@),
        0 + token,
        n,
    ));
    assert(data.weights@[token]@ == table_row(layer.weights->Ok_0@, 0 + token, n));
    assert(0 <= token * n && token * n + n <= layer.seq_len * n) by (nonlinear_arith)
        requires
            0 <= token < layer.seq_len,
            0 <= n,
    ;
}

/// The heads of layers of equal size are counted through, and a layer can be read exactly where it
/// is of one text and its values are there.
pub proof fn law_heads_are_counted_through<T>(
    layers: Seq<LayerAttention<T>>,
    heads: usize,
    n: int,
    layer: LayerAttention<T>,
    routing: LayerRouting<T>,
)
    requires
        0 <= n <= layers.len(),
        forall|l: int| 0 <= l < layers.len() ==> (#[trigger] layers[l]).num_heads == heads,
    ensures
        heads_before(layers, n) == n * heads,
        attention_problem(layer) is None <==> layer.batch_size == 1 && layer.values is Ok,
        routing_problem(routing) is None <==> routing.batch_size == 1 && routing.indices is Ok
            && routing.weights is Ok,
{
    lemma_heads_before(layers, heads, n);
}

/// The reason of a refusal in the log ends in the number that was asked for, or in the seconds to
/// wait; the reason of any other error is its message.
pub proof fn law_reasons_tell_the_numbers(
    allowed: usize,
    asked: usize,
    seconds: u64,
    message: Seq<char>,
)
    ensures
        text::decimal(asked as nat).is_suffix_of(
            error_reason(
                GenerateErrorView::PromptTooLarge { max_bytes: allowed, actual_bytes: asked },
            ),
        ),
        text::decimal(asked as nat).is_suffix_of(
            error_reason(
                GenerateErrorView::MaxTokensOutOfRange { max_allowed: allowed, requested: asked },
            ),
        ),
        text::decimal(seconds as nat).is_suffix_of(
            error_reason(GenerateErrorView::RateLimited { retry_after_seconds: seconds }),
        ),
        text::decimal(seconds as nat).is_suffix_of(
            error_reason(GenerateErrorView::TrainingInProgress { retry_after_seconds: seconds }),
        ),
        ("prompt_too_large max_bytes="@ + text::decimal(allowed as nat)).is_prefix_of(
            error_reason(
                GenerateErrorView::PromptTooLarge { max_bytes: allowed, actual_bytes: asked },
            ),
        ),
        ("max_tokens_out_of_range max_allowed="@ + text::decimal(allowed as nat)).is_prefix_of(
            error_reason(
                GenerateErrorView::MaxTokensOutOfRange { max_allowed: allowed, requested: asked },
            ),
        ),
        error_reason(GenerateErrorView::BadRequest(message)) == message,
        error_reason(GenerateErrorView::Internal(message)) == message,
{
}

/// A request draws from the bucket of its own peer alone, and where the rate is not limited it
/// draws from none and always goes through.
pub proof fn law_peers_draw_from_their_own_buckets(
    before: RateLimiter,
    after: RateLimiter,
    peer: PeerAddress,
    other: PeerAddress,
    limits: ServerLimits,
    now_ns: u128,
    update: BucketUpdate,
    decision: RateDecision,
)
    requires
        acquired(before, after, peer, limits, now_ns, update, decision),
    ensures
        other != peer ==> after.bucket_of(other) == before.bucket_of(other),
        limits.rate_limit_rps == 0 ==> decision == RateDecision::Allowed && after == before,
        limits.rate_limit_rps != 0 ==> after.bucket_of(peer) is Some && after.bucket_of(
            peer,
        )->Some_0.updated_at_ns == now_ns,
        limits.rate_limit_rps != 0 && before.bucket_of(peer) is None && 0 < limits.rate_limit_burst
            < WHOLE_LIMIT ==> decision == RateDecision::Allowed && after.bucket_of(
            peer,
        )->Some_0.tokens == Some(RequestsLeft::Whole((limits.rate_limit_burst - 1) as u64)),
        limits.rate_limit_rps != 0 && before.bucket_of(peer) is Some && now_ns > before.bucket_of(
            peer,
        )->Some_0.updated_at_ns ==> (decision == RateDecision::Allowed <==> Real {
            bits: ONE,
        }.at_most(update.refilled)) && after.bucket_of(peer)->Some_0.tokens == Some(
            RequestsLeft::Part(
                if decision == RateDecision::Allowed {
                    update.spent
                } else {
                    update.refilled
                },
            ),
        ),
{
}

/// What is told of a model: one without routing has no experts, and one with it has its own.
pub proof fn law_kinds_are_told(num_experts: usize, top_k: usize)
    ensures
        kind_label(ServedKind::MiniGpt) == "minigpt"@,
        expert_count(ServedKind::MiniGpt) == 0 && experts_per_token(ServedKind::MiniGpt) == 0,
        kind_label(ServedKind::MoeGpt { num_experts, top_k }) == "moe-gpt"@,
        expert_count(ServedKind::MoeGpt { num_experts, top_k }) == num_experts,
        experts_per_token(ServedKind::MoeGpt { num_experts, top_k }) == top_k,
{
}

/// Where the attention of a head stands in the answer: behind all heads of the layers before it,
/// and behind the heads before it in its own layer.
pub proof fn law_heads_stand_in_order<T>(
    data: Seq<AttentionData<T>>,
    layers: Seq<LayerAttention<T>>,
    heads: usize,
    layer: int,
    head: int,
)
    requires
        lists_heads(data, layers, layers.len() as int),
        forall|l: int| 0 <= l < layers.len() ==> (#[trigger] layers[l]).num_heads == heads,
        0 <= layer < layers.len(),
        0 <= head < heads,
    ensures
        data.len() == layers.len() * heads,
        data[layer * heads + head].layer == layer,
        data[layer * heads + head].head == head,
        is_head(data[layer * heads + head], layers[layer], layer, head),
{
    lemma_heads_before(layers, heads, layers.len() as int);
    lemma_heads_before(layers, heads, layer);
    assert(is_head(data[heads_before(layers, layer) + head], layers[layer], layer, head));
}

proof fn lemma_heads_before<T>(layers: Seq<LayerAttention<T>>, heads: usize, n: int)
    requires
        0 <= n <= layers.len(),
        forall|l: int| 0 <= l < layers.len() ==> (#[trigger] layers[l]).num_heads == heads,
    ensures
        heads_before(layers, n) == n * heads,
    decreases n,
{
    if n > 0 {
        lemma_heads_before(layers, heads, n - 1);
        assert((n - 1) * heads + heads == n * heads) by (nonlinear_arith);
    } else {
        assert(n * heads == 0) by (nonlinear_arith)
            requires
                n == 0,
        ;
    }
}

/// The routing of each layer stands in the place of the layer.
pub proof fn law_routes_stand_in_order<T>(
    data: Seq<RoutingData<T>>,
    layers: Seq<LayerRouting<T>>,
    layer: int,
)
    requires
        lists_routing(data, layers),
        0 <= layer < layers.len(),
    ensures
        data.len() == layers.len(),
        data[layer].layer == layer,
        is_routing(data[layer], layers[layer], layer),
{
}

/// An answer that fails is explained by the first layer that cannot be read: there is only one such
/// layer, and where there is none the answer does not fail.
pub proof fn law_one_problem_is_told<T>(
    attention: Seq<LayerAttention<T>>,
    routing: Option<Seq<LayerRouting<T>>>,
    a: Seq<char>,
    b: Seq<char>,
)
    ensures
        names_first_problem(attention, routing, a) && names_first_problem(attention, routing, b)
            ==> a == b,
        names_first_problem(attention, routing, a) ==> !readable(attention, routing),
{
    if names_first_problem(attention, routing, a) && names_first_problem(attention, routing, b) {
        if first_bad_layer(attention, attention.len() as int) {
            let layers = routing->Some_0;
            let n = choose|n: int| #[trigger]
                first_bad_routing(layers, n) && n < layers.len() && routing_problem(layers[n])
                    == Some(a);
            let m = choose|m: int| #[trigger]
                first_bad_routing(layers, m) && m < layers.len() && routing_problem(layers[m])
                    == Some(b);
            if n < m {
                assert(routing_problem(layers[n]) is None);
            }
            if m < n {
                assert(routing_problem(layers[m]) is None);
            }
        } else {
            let n = choose|n: int| #[trigger]
                first_bad_layer(attention, n) && n < attention.len() && attention_problem(
                    attention[n],
                ) == Some(a);
            let m = choose|m: int| #[trigger]
                first_bad_layer(attention, m) && m < attention.len() && attention_problem(
                    attention[m],
                ) == Some(b);
            if n < m {
                assert(attention_problem(attention[n]) is None);
            }
            if m < n {
                assert(attention_problem(attention[m]) is None);
            }
        }
    }
    if names_first_problem(attention, routing, a) && readable(attention, routing) {
        let layers = routing->Some_0;
        let n = choose|n: int| #[trigger]
            first_bad_routing(layers, n) && n < layers.len() && routing_problem(layers[n]) == Some(
                a,
            );
        assert(routing_problem(layers[n]) is None);
    }
}

/// Where a model comes from is told by three different words.
pub proof fn law_sources_are_told_apart(a: CheckpointSource, b: CheckpointSource)
    ensures
        source_label(a) == source_label(b) ==> a == b,
        source_label(CheckpointSource::Fresh) == "none"@,
{
    reveal_strlit("none");
    reveal_strlit("explicit");
    reveal_strlit("latest");
    assert("none"@.len() == 4);
    assert("explicit"@.len() == 8);
    assert("latest"@.len() == 6);
}

/// What is told of a checkpoint is the name of the file that its weights lie in.
pub proof fn law_checkpoints_are_told_by_name(directory: Seq<char>, name: Seq<char>)
    requires
        directory.len() == 0 || directory.last() == '/',
        path::is_name(name),
        forall|i: int| 0 <= i < name.len() ==> #[trigger] name[i] != '/',
        forall|i: int| 0 < i < name.len() ==> #[trigger] name[i] != '.',
    ensures
        checkpoint_basename(directory + name) == Some(name.push('.') + "mpk"@),
{
    reveal_strlit("mpk");
    path::law_names_without_extension(directory, name, "mpk"@);
    let whole = name.push('.') + "mpk"@;
    assert(whole.len() >= 5);
    assert forall|i: int| 0 <= i < whole.len() implies #[trigger] whole[i] != '/' by {
        if i < name.len() {
            assert(whole[i] == name[i]);
        }
    }
    path::lemma_name_in_directory(directory, whole);
}

} // verus!

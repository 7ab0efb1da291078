//! Generation benchmarks: their settings, which cases fit a model, and the tokens they run on.
use vstd::prelude::*;

use crate::chance;
use crate::observability::{BenchmarkStats, RuntimeEvent};
use crate::text;

verus! {

pub const DEFAULT_BENCHMARK_WARMUPS: usize = 1;

pub const DEFAULT_BENCHMARK_ITERATIONS: usize = 5;

/// What a generation benchmark runs.
#[derive(Debug, Clone, PartialEq, Eq)]
pub struct BenchmarkConfig {
    pub prompt_lens: Vec<usize>,
    pub gen_lens: Vec<usize>,
    pub warmups: usize,
    pub iterations: usize,
}

/// Why benchmark settings are refused.
#[derive(Debug, Clone, Copy, PartialEq, Eq, Structural)]
pub enum BenchmarkConfigError {
    NoPromptLens,
    NoGenLens,
    ZeroIterations,
    ZeroPromptLen,
    ZeroGenLen,
}

/// The default prompt lengths.
pub open spec fn default_prompt_lens() -> Seq<usize> {
    seq![10, 50, 100]
}

/// The default generation lengths.
pub open spec fn default_gen_lens() -> Seq<usize> {
    seq![50, 100, 200]
}

/// Whether a list holds a zero.
pub open spec fn has_zero(values: Seq<usize>) -> bool {
    exists|i: int| 0 <= i < values.len() && values[i] == 0
}

/// What is wrong with benchmark settings, if anything is.
pub open spec fn benchmark_problem(
    prompt_lens: Seq<usize>,
    gen_lens: Seq<usize>,
    iterations: usize,
) -> Option<BenchmarkConfigError> {
    if prompt_lens.len() == 0 {
        Some(BenchmarkConfigError::NoPromptLens)
    } else if gen_lens.len() == 0 {
        Some(BenchmarkConfigError::NoGenLens)
    } else if iterations == 0 {
        Some(BenchmarkConfigError::ZeroIterations)
    } else if has_zero(prompt_lens) {
        Some(BenchmarkConfigError::ZeroPromptLen)
    } else if has_zero(gen_lens) {
        Some(BenchmarkConfigError::ZeroGenLen)
    } else {
        None
    }
}

/// The message of a benchmark settings error.
pub open spec fn benchmark_config_error_text(e: BenchmarkConfigError) -> Seq<char> {
    match e {
        BenchmarkConfigError::NoPromptLens => "benchmark prompt lengths must not be empty"@,
        BenchmarkConfigError::NoGenLens => "benchmark generation lengths must not be empty"@,
        BenchmarkConfigError::ZeroIterations => "benchmark iterations must be greater than zero"@,
        BenchmarkConfigError::ZeroPromptLen => {
            "benchmark prompt lengths must be greater than zero"@
        },
        BenchmarkConfigError::ZeroGenLen => {
            "benchmark generation lengths must be greater than zero"@
        },
    }
}

impl BenchmarkConfigError {
    /// The message of this error.
    pub fn message(self) -> (s: &'static str)
        ensures
            s@ == benchmark_config_error_text(self),
    {
        match self {
            BenchmarkConfigError::NoPromptLens => "benchmark prompt lengths must not be empty",
            BenchmarkConfigError::NoGenLens => "benchmark generation lengths must not be empty",
            BenchmarkConfigError::ZeroIterations => {
                "benchmark iterations must be greater than zero"
            },
            BenchmarkConfigError::ZeroPromptLen => {
                "benchmark prompt lengths must be greater than zero"
            },
            BenchmarkConfigError::ZeroGenLen => {
                "benchmark generation lengths must be greater than zero"
            },
        }
    }
}

fn contains_zero(values: &Vec<usize>) -> (yes: bool)
    ensures
        yes == has_zero(values@),
{
    let mut i: usize = 0;
    while i < values.len()
        invariant
            i <= values@.len(),
            forall|j: int| 0 <= j < i ==> values@[j] != 0,
        decreases values.len() - i,
    {
        if values[i] == 0 {
            assert(values@[i as int] == 0);
            return true;
        }
        i += 1;
    }
    false
}

impl Default for BenchmarkConfig {
    fn default() -> (config: BenchmarkConfig)
        ensures
            config.prompt_lens@ == default_prompt_lens(),
            config.gen_lens@ == default_gen_lens(),
            config.warmups == DEFAULT_BENCHMARK_WARMUPS,
            config.iterations == DEFAULT_BENCHMARK_ITERATIONS,
    {
        let config = BenchmarkConfig {
            prompt_lens: vec![10, 50, 100],
            gen_lens: vec![50, 100, 200],
            warmups: DEFAULT_BENCHMARK_WARMUPS,
            iterations: DEFAULT_BENCHMARK_ITERATIONS,
        };
        assert(config.prompt_lens@ == default_prompt_lens());
        assert(config.gen_lens@ == default_gen_lens());
        config
    }
}

impl BenchmarkConfig {
    /// What is wrong with these settings, if anything is.
    pub open spec fn problem(self) -> Option<BenchmarkConfigError> {
        benchmark_problem(self.prompt_lens@, self.gen_lens@, self.iterations)
    }

    /// Refuses settings that would measure nothing.
    pub fn validate(&self) -> (r: Result<(), BenchmarkConfigError>)
        ensures
            match r {
                Ok(_) => self.problem() is None,
                Err(e) => self.problem() == Some(e),
            },
    {
        if self.prompt_lens.len() == 0 {
            return Err(BenchmarkConfigError::NoPromptLens);
        }
        if self.gen_lens.len() == 0 {
            return Err(BenchmarkConfigError::NoGenLens);
        }
        if self.iterations == 0 {
            return Err(BenchmarkConfigError::ZeroIterations);
        }
        if contains_zero(&self.prompt_lens) {
            return Err(BenchmarkConfigError::ZeroPromptLen);
        }
        if contains_zero(&self.gen_lens) {
            return Err(BenchmarkConfigError::ZeroGenLen);
        }
        Ok(())
    }
}

// ---------------------------------------------------------------------------------------
// Lists of numbers
// ---------------------------------------------------------------------------------------

/// Why a list of numbers is refused.
#[derive(Debug, Clone, PartialEq, Eq)]
pub enum NumberListError {
    /// A part is no number.
    Invalid { label: String, error: text::NumberError },
    /// There is no number.
    Empty { label: String },
    /// A number is zero.
    Zero { label: String },
}

/// The parts of a list that count: what stands between commas, without whitespace around it,
/// where anything is left.
pub open spec fn list_parts(parts: Seq<Seq<char>>) -> Seq<Seq<char>>
    decreases parts.len(),
{
    if parts.len() == 0 {
        Seq::empty()
    } else {
        let rest = list_parts(parts.drop_last());
        let part = text::trim(parts.last());
        if part.len() == 0 {
            rest
        } else {
            rest.push(part)
        }
    }
}

/// The texts of a comma-separated list.
pub open spec fn list_texts(value: Seq<char>) -> Seq<Seq<char>> {
    list_parts(text::split(value, ','))
}

/// The position of the first text that is no number, or the number of texts.
pub open spec fn first_bad(texts: Seq<Seq<char>>) -> nat
    decreases texts.len(),
{
    if texts.len() == 0 || text::usize_value(texts[0]) is None {
        0
    } else {
        1 + first_bad(texts.skip(1))
    }
}

/// The numbers that the texts write.
pub open spec fn list_numbers(texts: Seq<Seq<char>>) -> Seq<usize> {
    Seq::new(texts.len(), |i: int| text::usize_value(texts[i])->Some_0)
}

/// The numbers of a comma-separated list, where it is accepted.
pub open spec fn accepted_list(value: Seq<char>) -> Option<Seq<usize>> {
    let texts = list_texts(value);
    if first_bad(texts) == texts.len() && texts.len() > 0 && !has_zero(list_numbers(texts)) {
        Some(list_numbers(texts))
    } else {
        None
    }
}

/// Whether `r` is what reading a comma-separated list comes to.
pub open spec fn list_outcome(value: Seq<char>, r: Result<Vec<usize>, NumberListError>, label: Seq<
    char,
>) -> bool {
    let texts = list_texts(value);
    let bad = first_bad(texts) as int;
    if bad < texts.len() {
        r matches Err(NumberListError::Invalid { label: l, error }) && l@ == label && error
            == text::number_error(texts[bad], usize::MAX as nat)
    } else if texts.len() == 0 {
        r matches Err(NumberListError::Empty { label: l }) && l@ == label
    } else if has_zero(list_numbers(texts)) {
        r matches Err(NumberListError::Zero { label: l }) && l@ == label
    } else {
        r matches Ok(numbers) && numbers@ == list_numbers(texts)
    }
}

/// What is wrong with a comma-separated list that is refused.
pub open spec fn list_error_text(value: Seq<char>, label: Seq<char>) -> Seq<char> {
    let texts = list_texts(value);
    let bad = first_bad(texts) as int;
    if bad < texts.len() {
        "invalid "@ + label + ": "@ + text::number_error_text(
            text::number_error(texts[bad], usize::MAX as nat),
        )
    } else if texts.len() == 0 {
        label + " must include at least one integer"@
    } else {
        label + " values must be greater than zero"@
    }
}

/// The message of a list error.
pub open spec fn number_list_error_text(e: NumberListError) -> Seq<char> {
    match e {
        NumberListError::Invalid { label, error } => {
            "invalid "@ + label@ + ": "@ + text::number_error_text(error)
        },
        NumberListError::Empty { label } => label@ + " must include at least one integer"@,
        NumberListError::Zero { label } => label@ + " values must be greater than zero"@,
    }
}

impl NumberListError {
    /// The message of this error.
    pub fn to_text(&self) -> (s: String)
        ensures
            s@ == number_list_error_text(*self),
    {
        match self {
            NumberListError::Invalid { label, error } => {
                let mut s = "invalid ".to_owned();
                s.append(label.as_str());
                s.append(": ");
                s.append(error.message());
                s
            },
            NumberListError::Empty { label } => {
                let mut s = label.clone();
                s.append(" must include at least one integer");
                s
            },
            NumberListError::Zero { label } => {
                let mut s = label.clone();
                s.append(" values must be greater than zero");
                s
            },
        }
    }
}

proof fn lemma_first_bad_is(texts: Seq<Seq<char>>, k: int)
    requires
        0 <= k <= texts.len(),
        forall|j: int| 0 <= j < k ==> text::usize_value(#[trigger] texts[j]) is Some,
        k < texts.len() ==> text::usize_value(texts[k]) is None,
    ensures
        first_bad(texts) == k,
    decreases texts.len(),
{
    if k > 0 {
        assert(text::usize_value(texts[0]) is Some);
        assert forall|j: int| 0 <= j < k - 1 implies text::usize_value(
            #[trigger] texts.skip(1)[j],
        ) is Some by {
            assert(texts.skip(1)[j] == texts[j + 1]);
        }
        lemma_first_bad_is(texts.skip(1), k - 1);
    }
}

fn counting_texts(value: &str) -> (texts: Vec<String>)
    ensures
        text::text_views(texts@) == list_texts(value@),
{
    let chars = text::to_chars(value);
    let parts = text::split_chars(chars.as_slice(), ',');
    let ghost views = text::char_views(parts@);
    let mut texts: Vec<String> = Vec::new();
    let mut i: usize = 0;
    assert(views.take(0) == Seq::<Seq<char>>::empty());
    while i < parts.len()
        invariant
            i <= parts@.len(),
            views == text::char_views(parts@),
            text::text_views(texts@) == list_parts(views.take(i as int)),
        decreases parts.len() - i,
    {
        let part = text::trim_chars(parts[i].as_slice());
        let ghost before = texts@;
        proof {
            assert(views.take(i as int + 1).drop_last() == views.take(i as int));
            assert(views.take(i as int + 1).last() == parts@[i as int]@);
        }
        if part.len() > 0 {
            texts.push(text::from_chars(part.as_slice()));
            assert(text::text_views(texts@) == text::text_views(before).push(part@));
        }
        i += 1;
    }
    assert(views.take(views.len() as int) == views);
    texts
}

/// Reads a comma-separated list of positive numbers: see [`list_outcome`].
pub fn parse_usize_list(value: &str, label: &str) -> (r: Result<Vec<usize>, NumberListError>)
    ensures
        list_outcome(value@, r, label@),
        match r {
            Ok(numbers) => accepted_list(value@) == Some(numbers@),
            Err(e) => accepted_list(value@) is None && number_list_error_text(e)
                == list_error_text(value@, label@),
        },
{
    let texts = counting_texts(value);
    let ghost views = text::text_views(texts@);
    let mut numbers: Vec<usize> = Vec::new();
    let mut i: usize = 0;
    while i < texts.len()
        invariant
            i <= texts@.len(),
            views == text::text_views(texts@),
            views == list_texts(value@),
            numbers@.len() == i,
            forall|j: int|
                0 <= j < i ==> text::usize_value(#[trigger] views[j]) == Some(numbers@[j]),
        decreases texts.len() - i,
    {
        let item = texts[i].as_str();
        assert(views[i as int] == item@);
        match text::parse_usize(item) {
            Some(n) => {
                numbers.push(n);
            },
            None => {
                proof {
                    lemma_first_bad_is(views, i as int);
                }
                return Err(
                    NumberListError::Invalid {
                        label: label.to_owned(),
                        error: text::usize_error(item),
                    },
                );
            },
        }
        i += 1;
    }
    proof {
        lemma_first_bad_is(views, views.len() as int);
        assert(numbers@ == list_numbers(views));
    }
    if numbers.len() == 0 {
        return Err(NumberListError::Empty { label: label.to_owned() });
    }
    if contains_zero(&numbers) {
        return Err(NumberListError::Zero { label: label.to_owned() });
    }
    Ok(numbers)
}

// ---------------------------------------------------------------------------------------
// Cases
// ---------------------------------------------------------------------------------------

/// One prompt and generation length, and whether a model can run it.
#[derive(Debug, Clone, PartialEq, Eq)]
pub enum GenerationBenchmarkCase {
    /// To be measured.
    Measured { prompt_len: usize, gen_len: usize, warmups: usize, iterations: usize },
    /// Too long for the model.
    Skipped(GenerationBenchmarkSkipped),
}

/// A case that a model is too small for.
#[derive(Debug, Clone, PartialEq, Eq)]
pub struct GenerationBenchmarkSkipped {
    pub prompt_len: usize,
    pub gen_len: usize,
    pub reason: String,
}

/// Whether `case` is what a pair of lengths comes to on a model with the given context length.
pub open spec fn case_of(
    case: GenerationBenchmarkCase,
    prompt_len: usize,
    gen_len: usize,
    config: BenchmarkConfig,
    block_size: usize,
) -> bool {
    if prompt_len + gen_len > block_size {
        case matches GenerationBenchmarkCase::Skipped(skipped) && skipped.prompt_len == prompt_len
            && skipped.gen_len == gen_len && skipped.reason@
            == "cached generation needs block_size >= "@ + text::decimal(
            (prompt_len + gen_len) as nat,
        )
    } else {
        case == (GenerationBenchmarkCase::Measured {
            prompt_len,
            gen_len,
            warmups: config.warmups,
            iterations: config.iterations,
        })
    }
}

/// Whether `cases` are all pairs of a prompt length and a generation length, the generation
/// lengths running fastest.
pub open spec fn all_cases(
    cases: Seq<GenerationBenchmarkCase>,
    config: BenchmarkConfig,
    block_size: usize,
) -> bool {
    let n = config.gen_lens@.len() as int;
    &&& cases.len() == config.prompt_lens@.len() * n
    &&& forall|i: int, j: int|
        #![trigger config.prompt_lens@[i], config.gen_lens@[j]]
        0 <= i < config.prompt_lens@.len() && 0 <= j < n ==> case_of(
            cases[i * n + j],
            config.prompt_lens@[i],
            config.gen_lens@[j],
            config,
            block_size,
        )
}

/// The case of one pair of lengths.
pub fn benchmark_case(
    prompt_len: usize,
    gen_len: usize,
    config: &BenchmarkConfig,
    block_size: usize,
) -> (case: GenerationBenchmarkCase)
    requires
        prompt_len + gen_len <= usize::MAX,
    ensures
        case_of(case, prompt_len, gen_len, *config, block_size),
{
    let needed: usize = prompt_len + gen_len;
    if needed > block_size {
        let mut reason = "cached generation needs block_size >= ".to_owned();
        reason.append(text::usize_text(needed).as_str());
        GenerationBenchmarkCase::Skipped(GenerationBenchmarkSkipped { prompt_len, gen_len, reason })
    } else {
        GenerationBenchmarkCase::Measured {
            prompt_len,
            gen_len,
            warmups: config.warmups,
            iterations: config.iterations,
        }
    }
}

/// The cases of a benchmark on a model with the given context length, in the order in which
/// they run.
pub fn benchmark_generation_cases(config: &BenchmarkConfig, block_size: usize) -> (r: Result<
    Vec<GenerationBenchmarkCase>,
    BenchmarkConfigError,
>)
    requires
        forall|i: int, j: int|
            0 <= i < config.prompt_lens@.len() && 0 <= j < config.gen_lens@.len()
                ==> #[trigger] config.prompt_lens@[i] + #[trigger] config.gen_lens@[j]
                <= usize::MAX,
    ensures
        match r {
            Ok(cases) => config.problem() is None && all_cases(
                cases@,
                *config,
                block_size,
            ),
            Err(e) => config.problem() == Some(e),
        },
{
    match config.validate() {
        Ok(_) => {},
        Err(e) => {
            return Err(e);
        },
    }
    let ghost n = config.gen_lens@.len() as int;
    let mut cases: Vec<GenerationBenchmarkCase> = Vec::new();
    let mut i: usize = 0;
    while i < config.prompt_lens.len()
        invariant
            i <= config.prompt_lens@.len(),
            n == config.gen_lens@.len(),
            cases@.len() == i * n,
            forall|a: int, b: int|
                0 <= a < config.prompt_lens@.len() && 0 <= b < n
                    ==> #[trigger] config.prompt_lens@[a] + #[trigger] config.gen_lens@[b]
                    <= usize::MAX,
            forall|a: int, b: int|
                #![trigger config.prompt_lens@[a], config.gen_lens@[b]]
                0 <= a < i && 0 <= b < n ==> case_of(
                    cases@[a * n + b],
                    config.prompt_lens@[a],
                    config.gen_lens@[b],
                    *config,
                    block_size,
                ),
        decreases config.prompt_lens.len() - i,
    {
        let mut j: usize = 0;
        while j < config.gen_lens.len()
            invariant
                i < config.prompt_lens@.len(),
                j <= n,
                n == config.gen_lens@.len(),
                cases@.len() == i * n + j,
                forall|a: int, b: int|
                    0 <= a < config.prompt_lens@.len() && 0 <= b < n
                        ==> #[trigger] config.prompt_lens@[a] + #[trigger] config.gen_lens@[b]
                        <= usize::MAX,
                forall|a: int, b: int|
                    #![trigger config.prompt_lens@[a], config.gen_lens@[b]]
                    0 <= a <= i && 0 <= b < n && (a < i || b < j) ==> case_of(
                        cases@[a * n + b],
                        config.prompt_lens@[a],
                        config.gen_lens@[b],
                        *config,
                        block_size,
                    ),
            decreases n - j,
        {
            let ghost before = cases@;
            let case = benchmark_case(config.prompt_lens[i], config.gen_lens[j], config, block_size);
            cases.push(case);
            proof {
                assert forall|a: int, b: int|
                    #![trigger config.prompt_lens@[a], config.gen_lens@[b]]
                    0 <= a <= i && 0 <= b < n && (a < i || b < j + 1) implies case_of(
                    cases@[a * n + b],
                    config.prompt_lens@[a],
                    config.gen_lens@[b],
                    *config,
                    block_size,
                ) by {
                    if a < i {
                        assert(a * n + b < i * n) by (nonlinear_arith)
                            requires
                                a + 1 <= i,
                                b < n,
                                0 <= n,
                        ;
                        assert(0 <= a * n) by (nonlinear_arith)
                            requires
                                0 <= a,
                                0 <= n,
                        ;
                        assert(cases@[a * n + b] == before[a * n + b]);
                    } else if b < j {
                        assert(0 <= a * n) by (nonlinear_arith)
                            requires
                                0 <= a,
                                0 <= n,
                        ;
                        assert(cases@[a * n + b] == before[a * n + b]);
                    }
                }
            }
            j += 1;
        }
        assert((i + 1) * n == i * n + n) by (nonlinear_arith);
        i += 1;
    }
    Ok(cases)
}

/// Random tokens of a vocabulary. Which ones is left to chance.
pub fn random_tokens(len: usize, vocab_size: usize) -> (tokens: Vec<usize>)
    requires
        vocab_size > 0,
    ensures
        tokens@.len() == len,
        forall|i: int| 0 <= i < len ==> #[trigger] tokens@[i] < vocab_size,
{
    let mut tokens: Vec<usize> = Vec::new();
    let mut i: usize = 0;
    while i < len
        invariant
            i <= len,
            vocab_size > 0,
            tokens@.len() == i,
            forall|j: int| 0 <= j < i ==> #[trigger] tokens@[j] < vocab_size,
        decreases len - i,
    {
        tokens.push(chance::random_below(vocab_size));
        i += 1;
    }
    tokens
}

/// The position of a percentile among `len` sorted values, by nearest rank: the smallest
/// position with at least `percent` percent of the values at or before it.
pub fn percentile_rank(len: usize, percent: usize) -> (rank: usize)
    requires
        len > 0,
        percent <= 100,
    ensures
        rank < len,
        (rank + 1) * 100 >= len * percent,
        rank > 0 ==> rank * 100 < len * percent,
        percent == 100 ==> rank == len - 1,
        percent == 0 ==> rank == 0,
{
    assert(0 <= len * percent <= len * 100) by (nonlinear_arith)
        requires
            percent <= 100,
    ;
    let product: u128 = len as u128 * percent as u128;
    let ceiling: u128 = (product + 99) / 100;
    if ceiling == 0 {
        0
    } else {
        (ceiling - 1) as usize
    }
}

/// What a measured case came to, with the speedup as it is printed.
#[derive(Debug)]
pub struct GenerationBenchmarkResult {
    pub naive: BenchmarkStats,
    pub cached: BenchmarkStats,
    pub speedup: String,
}

/// What is logged about a case that could not be run.
pub fn skipped_event(skipped: &GenerationBenchmarkSkipped) -> (event: RuntimeEvent)
    ensures
        event matches RuntimeEvent::BenchmarkSkipped { prompt_len, gen_len, reason } && prompt_len
            == skipped.prompt_len && gen_len == skipped.gen_len && reason@ == skipped.reason@,
{
    RuntimeEvent::BenchmarkSkipped {
        prompt_len: skipped.prompt_len,
        gen_len: skipped.gen_len,
        reason: skipped.reason.clone(),
    }
}

/// What is logged about a case that was measured.
pub fn result_event(
    config: &BenchmarkConfig,
    prompt_len: usize,
    gen_len: usize,
    result: GenerationBenchmarkResult,
) -> (event: RuntimeEvent)
    ensures
        event == (RuntimeEvent::BenchmarkResult {
            prompt_len,
            gen_len,
            warmups: config.warmups,
            iterations: config.iterations,
            naive: result.naive,
            cached: result.cached,
            speedup: result.speedup,
        }),
{
    RuntimeEvent::BenchmarkResult {
        prompt_len,
        gen_len,
        warmups: config.warmups,
        iterations: config.iterations,
        naive: result.naive,
        cached: result.cached,
        speedup: result.speedup,
    }
}

/// Benchmark settings are accepted exactly where there is something to measure: lengths of both
/// kinds, none of them zero, and at least one iteration.
pub proof fn law_benchmarks_measure_something(
    prompt_lens: Seq<usize>,
    gen_lens: Seq<usize>,
    iterations: usize,
)
    ensures
        benchmark_problem(prompt_lens, gen_lens, iterations) is None <==> prompt_lens.len() > 0
            && gen_lens.len() > 0 && iterations > 0 && (forall|i: int|
            0 <= i < prompt_lens.len() ==> #[trigger] prompt_lens[i] > 0) && (forall|i: int|
            0 <= i < gen_lens.len() ==> #[trigger] gen_lens[i] > 0),
{
    if !(forall|i: int| 0 <= i < prompt_lens.len() ==> #[trigger] prompt_lens[i] > 0) {
        let i = choose|i: int| 0 <= i < prompt_lens.len() && !(#[trigger] prompt_lens[i] > 0);
        assert(has_zero(prompt_lens));
    }
    if !(forall|i: int| 0 <= i < gen_lens.len() ==> #[trigger] gen_lens[i] > 0) {
        let i = choose|i: int| 0 <= i < gen_lens.len() && !(#[trigger] gen_lens[i] > 0);
        assert(has_zero(gen_lens));
    }
}

/// A pair of lengths is measured exactly where both together fit into the model.
pub proof fn law_cases_that_fit_are_measured(
    case: GenerationBenchmarkCase,
    prompt_len: usize,
    gen_len: usize,
    config: BenchmarkConfig,
    block_size: usize,
)
    requires
        case_of(case, prompt_len, gen_len, config, block_size),
    ensures
        case is Measured <==> prompt_len + gen_len <= block_size,
        case matches GenerationBenchmarkCase::Measured {
            prompt_len: p,
            gen_len: g,
            warmups,
            iterations,
        } ==> p == prompt_len && g == gen_len && warmups == config.warmups && iterations
            == config.iterations,
{
}

/// The numbers in decimal notation.
pub open spec fn written(numbers: Seq<usize>) -> Seq<Seq<char>> {
    Seq::new(numbers.len(), |i: int| text::decimal(numbers[i] as nat))
}

proof fn lemma_written_number(n: usize)
    ensures
        text::decimal(n as nat).len() > 0,
        text::trim(text::decimal(n as nat)) == text::decimal(n as nat),
        text::usize_value(text::decimal(n as nat)) == Some(n),
        forall|j: int|
            0 <= j < text::decimal(n as nat).len() ==> #[trigger] text::decimal(n as nat)[j] != ',',
{
    let digits = text::decimal(n as nat);
    text::lemma_decimal_reads_back(n as nat, usize::MAX as nat);
    assert(text::is_digit(digits[0]));
    assert(text::is_digit(digits.last()));
    let nothing = Seq::<char>::empty();
    text::law_trimming_takes_the_ends(nothing, digits, nothing);
    assert(nothing + digits + nothing == digits);
    assert forall|j: int| 0 <= j < digits.len() implies #[trigger] digits[j] != ',' by {
        assert(text::is_digit(digits[j]));
    }
}

proof fn lemma_written_parts(numbers: Seq<usize>)
    ensures
        list_parts(written(numbers)) == written(numbers),
    decreases numbers.len(),
{
    if numbers.len() > 0 {
        lemma_written_parts(numbers.drop_last());
        lemma_written_number(numbers.last());
        assert(written(numbers).drop_last() == written(numbers.drop_last()));
        assert(written(numbers.drop_last()).push(written(numbers).last()) == written(numbers));
    }
}

proof fn lemma_written_are_good(numbers: Seq<usize>)
    ensures
        first_bad(written(numbers)) == numbers.len(),
    decreases numbers.len(),
{
    if numbers.len() > 0 {
        lemma_written_number(numbers[0]);
        lemma_written_are_good(numbers.skip(1));
        assert(written(numbers).skip(1) == written(numbers.skip(1)));
    }
}

/// A list of positive numbers that is written with commas is read as it was.
pub proof fn law_lists_read_back(numbers: Seq<usize>)
    requires
        numbers.len() > 0,
        forall|i: int| 0 <= i < numbers.len() ==> #[trigger] numbers[i] > 0,
    ensures
        accepted_list(text::join(written(numbers), ',')) == Some(numbers),
{
    let texts = written(numbers);
    assert forall|i: int, j: int|
        0 <= i < texts.len() && 0 <= j < texts[i].len() implies #[trigger] texts[i][j] != ',' by {
        lemma_written_number(numbers[i]);
    }
    text::law_joined_parts_split_again(texts, ',');
    lemma_written_parts(numbers);
    lemma_written_are_good(numbers);
    assert forall|i: int| 0 <= i < numbers.len() implies list_numbers(texts)[i] == numbers[i] by {
        lemma_written_number(numbers[i]);
    }
    assert(list_numbers(texts) == numbers);
}

/// A benchmark runs every pair of lengths once, the generation lengths running fastest.
pub proof fn law_all_pairs_are_run(
    cases: Seq<GenerationBenchmarkCase>,
    config: BenchmarkConfig,
    block_size: usize,
    i: int,
    j: int,
)
    requires
        all_cases(cases, config, block_size),
        0 <= i < config.prompt_lens@.len(),
        0 <= j < config.gen_lens@.len(),
    ensures
        cases.len() == config.prompt_lens@.len() * config.gen_lens@.len(),
        match cases[i * config.gen_lens@.len() + j] {
            GenerationBenchmarkCase::Measured { prompt_len, gen_len, warmups, iterations } => {
                &&& prompt_len == config.prompt_lens@[i]
                &&& gen_len == config.gen_lens@[j]
                &&& warmups == config.warmups
                &&& iterations == config.iterations
                &&& prompt_len + gen_len <= block_size
            },
            GenerationBenchmarkCase::Skipped(skipped) => {
                &&& skipped.prompt_len == config.prompt_lens@[i]
                &&& skipped.gen_len == config.gen_lens@[j]
                &&& skipped.prompt_len + skipped.gen_len > block_size
            },
        },
{
    let p = config.prompt_lens@[i];
    let g = config.gen_lens@[j];
}

/// A list is read exactly where it is accepted, as the numbers that it holds; and the refusal of
/// any other says whether a part is no number, there is none at all, or one is zero.
pub proof fn law_lists_are_read_where_accepted(
    value: Seq<char>,
    r: Result<Vec<usize>, NumberListError>,
    label: Seq<char>,
)
    requires
        list_outcome(value, r, label),
    ensures
        r is Ok <==> accepted_list(value) is Some,
        r matches Ok(numbers) ==> accepted_list(value) == Some(numbers@),
        r matches Err(NumberListError::Empty { .. }) ==> list_texts(value).len() == 0,
        r matches Err(NumberListError::Zero { .. }) ==> list_texts(value).len() > 0,
        r matches Err(e) ==> number_list_error_text(e) == list_error_text(value, label),
{
    lemma_first_bad_fits(list_texts(value));
}

proof fn lemma_first_bad_fits(texts: Seq<Seq<char>>)
    ensures
        first_bad(texts) <= texts.len(),
    decreases texts.len(),
{
    if texts.len() > 0 {
        lemma_first_bad_fits(texts.skip(1));
    }
}

} // verus!

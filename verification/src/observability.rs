//! Log lines: the two formats, the events, and the plain text of each event.
use vstd::prelude::*;

use crate::reals::Real;
use crate::text;

verus! {

/// How log lines are written.
#[derive(Debug, Clone, Copy, PartialEq, Eq, Structural)]
pub enum LogFormat {
    Plain,
    Json,
}

/// A log format name that is neither `plain` nor `json`.
#[derive(Debug, Clone, PartialEq, Eq)]
pub struct UnsupportedLogFormat {
    pub value: String,
}

/// The name of a log format.
pub open spec fn log_format_name(format: LogFormat) -> Seq<char> {
    match format {
        LogFormat::Plain => "plain"@,
        LogFormat::Json => "json"@,
    }
}

/// The message about an unknown log format name.
pub open spec fn unsupported_log_format_text(value: Seq<char>) -> Seq<char> {
    "unsupported log format '"@ + value + "'; expected plain or json"@
}

/// The format of the given name, where there is one.
pub open spec fn log_format_of(value: Seq<char>) -> Option<LogFormat> {
    if value == "plain"@ {
        Some(LogFormat::Plain)
    } else if value == "json"@ {
        Some(LogFormat::Json)
    } else {
        None
    }
}

impl UnsupportedLogFormat {
    /// The message of this error.
    pub fn to_text(&self) -> (s: String)
        ensures
            s@ == unsupported_log_format_text(self.value@),
    {
        let mut s = "unsupported log format '".to_owned();
        s.append(self.value.as_str());
        s.append("'; expected plain or json");
        s
    }
}

impl LogFormat {
    /// The format of the given name.
    pub fn parse(value: &str) -> (r: Result<LogFormat, UnsupportedLogFormat>)
        ensures
            match r {
                Ok(format) => log_format_of(value@) == Some(format),
                Err(e) => log_format_of(value@) is None && e.value@ == value@,
            },
    {
        if text::same_text(value, "plain") {
            Ok(LogFormat::Plain)
        } else if text::same_text(value, "json") {
            Ok(LogFormat::Json)
        } else {
            Err(UnsupportedLogFormat { value: value.to_owned() })
        }
    }

    /// The name of this format.
    pub fn as_str(self) -> (s: &'static str)
        ensures
            s@ == log_format_name(self),
    {
        match self {
            LogFormat::Plain => "plain",
            LogFormat::Json => "json",
        }
    }
}

/// Measured generation speed. What is printed of it stands here as text.
#[derive(Debug, Clone, PartialEq, Eq)]
pub struct BenchmarkStats {
    pub min_ms: Real,
    pub max_ms: Real,
    /// Mean milliseconds, with three decimals.
    pub mean_ms: String,
    pub p50_ms: Real,
    pub p95_ms: Real,
    /// Generated tokens per second, with two decimals.
    pub tokens_per_second: String,
}

/// What is worth a log line. A measured value stands here as it is printed.
#[derive(Debug, Clone, PartialEq, Eq)]
pub enum RuntimeEvent {
    AppConfigured {
        backend: String,
        model: String,
        input_path: String,
        tokenizer_path: String,
        checkpoint_path: String,
        log_format: LogFormat,
        serve: bool,
        benchmark_generation: bool,
    },
    RuntimeBatchPrepared {
        vocab_size: usize,
        input_chars: usize,
        encoded_tokens: usize,
        batch_size: usize,
        block_size: usize,
        dropout: String,
    },
    ModelForwardCompleted {
        model: String,
        logits_shape: Vec<usize>,
        input_shape: Vec<usize>,
        target_shape: Vec<usize>,
    },
    ServerStarted { addr: String, backend: String, vocab_size: usize, block_size: usize },
    TrainingStarted {
        backend: String,
        model: String,
        vocab_size: usize,
        batch_size: usize,
        block_size: usize,
        total_steps: usize,
    },
    TrainingProgress {
        backend: String,
        model: String,
        step: usize,
        total_steps: usize,
        /// Four decimals.
        training_loss: String,
        /// Four decimals.
        value_loss: String,
        /// Four decimals.
        value_perplexity: String,
        /// Six decimals.
        learning_rate: String,
        elapsed_ms: u128,
        /// Two decimals.
        tokens_per_second: String,
        /// Four decimals.
        steps_per_second: String,
        /// Two decimals.
        step_ms_mean: String,
    },
    TrainingCompleted {
        backend: String,
        model: String,
        total_steps: usize,
        elapsed_ms: u128,
        /// Four decimals.
        final_value_loss: String,
        /// Four decimals.
        final_perplexity: String,
    },
    CheckpointLoaded { path: String, elapsed_ms: u128 },
    CheckpointSaved { path: String, elapsed_ms: u128 },
    GenerateRequestAccepted { max_tokens: usize, temperature: String, prompt_chars: usize },
    GenerateRequestRejected { status: u16, reason: String, elapsed_ms: u128 },
    GenerateRequestCompleted {
        status: u16,
        prompt_tokens: usize,
        generated_tokens: usize,
        elapsed_ms: u128,
    },
    BenchmarkSkipped { prompt_len: usize, gen_len: usize, reason: String },
    BenchmarkResult {
        prompt_len: usize,
        gen_len: usize,
        warmups: usize,
        iterations: usize,
        naive: BenchmarkStats,
        cached: BenchmarkStats,
        /// Two decimals.
        speedup: String,
    },
}

/// Numbers separated by commas.
pub open spec fn comma_list(numbers: Seq<usize>) -> Seq<char>
    decreases numbers.len(),
{
    if numbers.len() == 0 {
        Seq::empty()
    } else if numbers.len() == 1 {
        text::decimal(numbers[0] as nat)
    } else {
        comma_list(numbers.drop_last()) + ", "@ + text::decimal(numbers.last() as nat)
    }
}

/// A tensor shape in brackets.
pub open spec fn shape_chars(shape: Seq<usize>) -> Seq<char> {
    "["@ + comma_list(shape) + "]"@
}

/// A tensor shape in brackets: see [`shape_chars`].
pub fn shape_text(shape: &Vec<usize>) -> (s: String)
    ensures
        s@ == shape_chars(shape@),
{
    let mut list = String::new();
    let mut i: usize = 0;
    while i < shape.len()
        invariant
            i <= shape@.len(),
            list@ == comma_list(shape@.take(i as int)),
        decreases shape.len() - i,
    {
        proof {
            assert(shape@.take(i as int + 1).drop_last() == shape@.take(i as int));
            assert(shape@.take(i as int + 1).last() == shape@[i as int]);
        }
        if i == 0 {
            list = text::usize_text(shape[i]);
        } else {
            list.append(", ");
            list.append(text::usize_text(shape[i]).as_str());
        }
        i += 1;
    }
    assert(shape@.take(shape@.len() as int) == shape@);
    let mut s = "[".to_owned();
    s.append(list.as_str());
    s.append("]");
    s
}

/// The plain log line of an event.
pub open spec fn plain_text(event: RuntimeEvent) -> Seq<char> {
    match event {
        RuntimeEvent::AppConfigured {
            backend,
            model,
            input_path,
            tokenizer_path,
            checkpoint_path,
            log_format,
            serve,
            benchmark_generation,
        } => {
            "Configured app: backend="@ + backend@ + ", model="@ + model@ + ", input="@
                + input_path@ + ", tokenizer="@ + tokenizer_path@ + ", checkpoint="@
                + checkpoint_path@ + ", log_format="@ + log_format_name(log_format) + ", serve="@
                + text::bool_chars(serve) + ", benchmark_generation="@ + text::bool_chars(
                benchmark_generation,
            )
        },
        RuntimeEvent::RuntimeBatchPrepared {
            vocab_size,
            input_chars,
            encoded_tokens,
            batch_size,
            block_size,
            dropout,
        } => {
            "Prepared runtime batch: vocab_size="@ + text::decimal(vocab_size as nat)
                + ", input_chars="@ + text::decimal(input_chars as nat) + ", encoded_tokens="@
                + text::decimal(encoded_tokens as nat) + ", batch_size="@ + text::decimal(
                batch_size as nat,
            ) + ", block_size="@ + text::decimal(block_size as nat) + ", dropout="@ + dropout@
        },
        RuntimeEvent::ModelForwardCompleted { model, logits_shape, input_shape, target_shape } => {
            model@ + " forward pass: logits_shape="@ + shape_chars(logits_shape@) + ", x_shape="@
                + shape_chars(input_shape@) + ", y_shape="@ + shape_chars(target_shape@)
        },
        RuntimeEvent::ServerStarted { addr, backend, vocab_size, block_size } => {
            "Serving GPT API on http://"@ + addr@ + " (backend="@ + backend@ + ", vocab_size="@
                + text::decimal(vocab_size as nat) + ", block_size="@ + text::decimal(
                block_size as nat,
            ) + ")"@
        },
        RuntimeEvent::TrainingStarted {
            backend,
            model,
            vocab_size,
            batch_size,
            block_size,
            total_steps,
        } => {
            "Training "@ + model@ + " model on "@ + backend@ + ": vocab_size="@ + text::decimal(
                vocab_size as nat,
            ) + ", batch_size="@ + text::decimal(batch_size as nat) + ", block_size="@
                + text::decimal(block_size as nat) + ", total_steps="@ + text::decimal(
                total_steps as nat,
            )
        },
        RuntimeEvent::TrainingProgress {
            backend: _,
            model: _,
            step,
            total_steps,
            training_loss,
            value_loss,
            value_perplexity,
            learning_rate,
            elapsed_ms,
            tokens_per_second,
            steps_per_second,
            step_ms_mean,
        } => {
            "Step "@ + text::decimal(step as nat) + "/"@ + text::decimal(total_steps as nat)
                + ": training loss = "@ + training_loss@ + ", value loss = "@ + value_loss@
                + ", perplexity="@ + value_perplexity@ + ", learning_rate="@ + learning_rate@
                + ", elapsed="@ + text::decimal(elapsed_ms as nat) + "ms, tokens_per_second="@
                + tokens_per_second@ + ", steps_per_second="@ + steps_per_second@
                + ", step_ms_mean="@ + step_ms_mean@
        },
        RuntimeEvent::TrainingCompleted {
            backend,
            model,
            total_steps,
            elapsed_ms,
            final_value_loss,
            final_perplexity,
        } => {
            "Completed "@ + model@ + " training on "@ + backend@ + ": total_steps="@
                + text::decimal(total_steps as nat) + ", final_value_loss="@ + final_value_loss@
                + ", final_perplexity="@ + final_perplexity@ + ", elapsed="@ + text::decimal(
                elapsed_ms as nat,
            ) + "ms"@
        },
        RuntimeEvent::CheckpointLoaded { path, elapsed_ms } => {
            "Loaded minigpt checkpoint from "@ + path@ + " in "@ + text::decimal(elapsed_ms as nat)
                + "ms"@
        },
        RuntimeEvent::CheckpointSaved { path, elapsed_ms } => {
            "Saved minigpt checkpoint to "@ + path@ + " in "@ + text::decimal(elapsed_ms as nat)
                + "ms"@
        },
        RuntimeEvent::GenerateRequestAccepted { max_tokens, temperature, prompt_chars } => {
            "Accepted generation request: prompt_chars="@ + text::decimal(prompt_chars as nat)
                + ", max_tokens="@ + text::decimal(max_tokens as nat) + ", temperature="@
                + temperature@
        },
        RuntimeEvent::GenerateRequestRejected { status, reason, elapsed_ms } => {
            "Rejected generation request: status="@ + text::decimal(status as nat) + ", reason="@
                + reason@ + ", elapsed="@ + text::decimal(elapsed_ms as nat) + "ms"@
        },
        RuntimeEvent::GenerateRequestCompleted {
            status,
            prompt_tokens,
            generated_tokens,
            elapsed_ms,
        } => {
            "Completed generation request: status="@ + text::decimal(status as nat)
                + ", prompt_tokens="@ + text::decimal(prompt_tokens as nat)
                + ", generated_tokens="@ + text::decimal(generated_tokens as nat) + ", elapsed="@
                + text::decimal(elapsed_ms as nat) + "ms"@
        },
        RuntimeEvent::BenchmarkSkipped { prompt_len, gen_len, reason } => {
            "Benchmark skipped: prompt="@ + text::decimal(prompt_len as nat) + ", gen="@
                + text::decimal(gen_len as nat) + ", reason="@ + reason@
        },
        RuntimeEvent::BenchmarkResult {
            prompt_len,
            gen_len,
            warmups,
            iterations,
            naive,
            cached,
            speedup,
        } => {
            "Benchmark prompt="@ + text::decimal(prompt_len as nat) + ", gen="@ + text::decimal(
                gen_len as nat,
            ) + ", warmups="@ + text::decimal(warmups as nat) + ", iterations="@ + text::decimal(
                iterations as nat,
            ) + ": naive mean "@ + naive.mean_ms@ + "ms ("@ + naive.tokens_per_second@
                + " tok/s), cached mean "@ + cached.mean_ms@ + "ms ("@ + cached.tokens_per_second@
                + " tok/s), speedup "@ + speedup@ + "x"@
        },
    }
}

/// The line that stands for an event whose JSON could not be written.
pub open spec fn structured_error_text(error: Seq<char>) -> Seq<char> {
    "{\"event\":\"structured_log_error\",\"error\":\""@ + error + "\"}"@
}

/// The log line of an event. `json` is what writing the event as JSON gave: the text, or the
/// writer's message.
pub open spec fn rendered(
    event: RuntimeEvent,
    format: LogFormat,
    json: Result<String, String>,
) -> Seq<char> {
    match format {
        LogFormat::Plain => plain_text(event),
        LogFormat::Json => match json {
            Ok(line) => line@,
            Err(error) => structured_error_text(error@),
        },
    }
}

fn push_number(s: &mut String, n: usize)
    ensures
        final(s)@ == old(s)@ + text::decimal(n as nat),
{
    let number = text::usize_text(n);
    s.append(number.as_str());
}

fn push_millis(s: &mut String, n: u128)
    ensures
        final(s)@ == old(s)@ + text::decimal(n as nat),
{
    let number = text::u128_text(n);
    s.append(number.as_str());
}

impl RuntimeEvent {
    /// The log line of this event: see [`rendered`].
    pub fn render(&self, format: LogFormat, json: &Result<String, String>) -> (line: String)
        ensures
            line@ == rendered(*self, format, *json),
    {
        match format {
            LogFormat::Plain => self.to_plain(),
            LogFormat::Json => match json {
                Ok(line) => line.clone(),
                Err(error) => {
                    let mut s = "{\"event\":\"structured_log_error\",\"error\":\"".to_owned();
                    s.append(error.as_str());
                    s.append("\"}");
                    s
                },
            },
        }
    }

    /// The plain log line of this event: see [`plain_text`].
    pub fn to_plain(&self) -> (s: String)
        ensures
            s@ == plain_text(*self),
    {
        match self {
            RuntimeEvent::AppConfigured {
                backend,
                model,
                input_path,
                tokenizer_path,
                checkpoint_path,
                log_format,
                serve,
                benchmark_generation,
            } => {
                let mut s = "Configured app: backend=".to_owned();
                s.append(backend.as_str());
                s.append(", model=");
                s.append(model.as_str());
                s.append(", input=");
                s.append(input_path.as_str());
                s.append(", tokenizer=");
                s.append(tokenizer_path.as_str());
                s.append(", checkpoint=");
                s.append(checkpoint_path.as_str());
                s.append(", log_format=");
                s.append(log_format.as_str());
                s.append(", serve=");
                s.append(text::bool_text(*serve));
                s.append(", benchmark_generation=");
                s.append(text::bool_text(*benchmark_generation));
                s
            },
            RuntimeEvent::RuntimeBatchPrepared {
                vocab_size,
                input_chars,
                encoded_tokens,
                batch_size,
                block_size,
                dropout,
            } => {
                let mut s = "Prepared runtime batch: vocab_size=".to_owned();
                push_number(&mut s, *vocab_size);
                s.append(", input_chars=");
                push_number(&mut s, *input_chars);
                s.append(", encoded_tokens=");
                push_number(&mut s, *encoded_tokens);
                s.append(", batch_size=");
                push_number(&mut s, *batch_size);
                s.append(", block_size=");
                push_number(&mut s, *block_size);
                s.append(", dropout=");
                s.append(dropout.as_str());
                s
            },
            RuntimeEvent::ModelForwardCompleted {
                model,
                logits_shape,
                input_shape,
                target_shape,
            } => {
                let mut s = model.clone();
                s.append(" forward pass: logits_shape=");
                s.append(shape_text(logits_shape).as_str());
                s.append(", x_shape=");
                s.append(shape_text(input_shape).as_str());
                s.append(", y_shape=");
                s.append(shape_text(target_shape).as_str());
                s
            },
            RuntimeEvent::ServerStarted { addr, backend, vocab_size, block_size } => {
                let mut s = "Serving GPT API on http://".to_owned();
                s.append(addr.as_str());
                s.append(" (backend=");
                s.append(backend.as_str());
                s.append(", vocab_size=");
                push_number(&mut s, *vocab_size);
                s.append(", block_size=");
                push_number(&mut s, *block_size);
                s.append(")");
                s
            },
            RuntimeEvent::TrainingStarted {
                backend,
                model,
                vocab_size,
                batch_size,
                block_size,
                total_steps,
            } => {
                let mut s = "Training ".to_owned();
                s.append(model.as_str());
                s.append(" model on ");
                s.append(backend.as_str());
                s.append(": vocab_size=");
                push_number(&mut s, *vocab_size);
                s.append(", batch_size=");
                push_number(&mut s, *batch_size);
                s.append(", block_size=");
                push_number(&mut s, *block_size);
                s.append(", total_steps=");
                push_number(&mut s, *total_steps);
                s
            },
            RuntimeEvent::TrainingProgress {
                backend: _,
                model: _,
                step,
                total_steps,
                training_loss,
                value_loss,
                value_perplexity,
                learning_rate,
                elapsed_ms,
                tokens_per_second,
                steps_per_second,
                step_ms_mean,
            } => {
                let mut s = "Step ".to_owned();
                push_number(&mut s, *step);
                s.append("/");
                push_number(&mut s, *total_steps);
                s.append(": training loss = ");
                s.append(training_loss.as_str());
                s.append(", value loss = ");
                s.append(value_loss.as_str());
                s.append(", perplexity=");
                s.append(value_perplexity.as_str());
                s.append(", learning_rate=");
                s.append(learning_rate.as_str());
                s.append(", elapsed=");
                push_millis(&mut s, *elapsed_ms);
                s.append("ms, tokens_per_second=");
                s.append(tokens_per_second.as_str());
                s.append(", steps_per_second=");
                s.append(steps_per_second.as_str());
                s.append(", step_ms_mean=");
                s.append(step_ms_mean.as_str());
                s
            },
            RuntimeEvent::TrainingCompleted {
                backend,
                model,
                total_steps,
                elapsed_ms,
                final_value_loss,
                final_perplexity,
            } => {
                let mut s = "Completed ".to_owned();
                s.append(model.as_str());
                s.append(" training on ");
                s.append(backend.as_str());
                s.append(": total_steps=");
                push_number(&mut s, *total_steps);
                s.append(", final_value_loss=");
                s.append(final_value_loss.as_str());
                s.append(", final_perplexity=");
                s.append(final_perplexity.as_str());
                s.append(", elapsed=");
                push_millis(&mut s, *elapsed_ms);
                s.append("ms");
                s
            },
            RuntimeEvent::CheckpointLoaded { path, elapsed_ms } => {
                let mut s = "Loaded minigpt checkpoint from ".to_owned();
                s.append(path.as_str());
                s.append(" in ");
                push_millis(&mut s, *elapsed_ms);
                s.append("ms");
                s
            },
            RuntimeEvent::CheckpointSaved { path, elapsed_ms } => {
                let mut s = "Saved minigpt checkpoint to ".to_owned();
                s.append(path.as_str());
                s.append(" in ");
                push_millis(&mut s, *elapsed_ms);
                s.append("ms");
                s
            },
            RuntimeEvent::GenerateRequestAccepted { max_tokens, temperature, prompt_chars } => {
                let mut s = "Accepted generation request: prompt_chars=".to_owned();
                push_number(&mut s, *prompt_chars);
                s.append(", max_tokens=");
                push_number(&mut s, *max_tokens);
                s.append(", temperature=");
                s.append(temperature.as_str());
                s
            },
            RuntimeEvent::GenerateRequestRejected { status, reason, elapsed_ms } => {
                let mut s = "Rejected generation request: status=".to_owned();
                push_number(&mut s, *status as usize);
                s.append(", reason=");
                s.append(reason.as_str());
                s.append(", elapsed=");
                push_millis(&mut s, *elapsed_ms);
                s.append("ms");
                s
            },
            RuntimeEvent::GenerateRequestCompleted {
                status,
                prompt_tokens,
                generated_tokens,
                elapsed_ms,
            } => {
                let mut s = "Completed generation request: status=".to_owned();
                push_number(&mut s, *status as usize);
                s.append(", prompt_tokens=");
                push_number(&mut s, *prompt_tokens);
                s.append(", generated_tokens=");
                push_number(&mut s, *generated_tokens);
                s.append(", elapsed=");
                push_millis(&mut s, *elapsed_ms);
                s.append("ms");
                s
            },
            RuntimeEvent::BenchmarkSkipped { prompt_len, gen_len, reason } => {
                let mut s = "Benchmark skipped: prompt=".to_owned();
                push_number(&mut s, *prompt_len);
                s.append(", gen=");
                push_number(&mut s, *gen_len);
                s.append(", reason=");
                s.append(reason.as_str());
                s
            },
            RuntimeEvent::BenchmarkResult {
                prompt_len,
                gen_len,
                warmups,
                iterations,
                naive,
                cached,
                speedup,
            } => {
                let mut s = "Benchmark prompt=".to_owned();
                push_number(&mut s, *prompt_len);
                s.append(", gen=");
                push_number(&mut s, *gen_len);
                s.append(", warmups=");
                push_number(&mut s, *warmups);
                s.append(", iterations=");
                push_number(&mut s, *iterations);
                s.append(": naive mean ");
                s.append(naive.mean_ms.as_str());
                s.append("ms (");
                s.append(naive.tokens_per_second.as_str());
                s.append(" tok/s), cached mean ");
                s.append(cached.mean_ms.as_str());
                s.append("ms (");
                s.append(cached.tokens_per_second.as_str());
                s.append(" tok/s), speedup ");
                s.append(speedup.as_str());
                s.append("x");
                s
            },
        }
    }
}

/// Writes events to a sink, in one format.
#[derive(Clone)]
pub struct EventLogger<S> {
    format: LogFormat,
    sink: S,
}

impl<S: Fn(String)> EventLogger<S> {
    /// The format of the lines.
    pub closed spec fn spec_format(&self) -> LogFormat {
        self.format
    }

    /// Where the lines go.
    pub closed spec fn spec_sink(&self) -> S {
        self.sink
    }

    /// A logger that hands every line to `sink`.
    pub fn with_sink(format: LogFormat, sink: S) -> (logger: EventLogger<S>)
        ensures
            logger.spec_format() == format,
            logger.spec_sink() == sink,
    {
        EventLogger { format, sink }
    }

    /// The format of the lines.
    pub fn format(&self) -> (format: LogFormat)
        ensures
            format == self.spec_format(),
    {
        self.format
    }

    /// Hands the line of `event` to the sink. `json` is what writing the event as JSON gave.
    pub fn log(&self, event: &RuntimeEvent, json: &Result<String, String>)
        requires
            forall|line: String| #[trigger] call_requires(self.spec_sink(), (line,)),
        ensures
            exists|line: String|
                line@ == rendered(*event, self.spec_format(), *json) && #[trigger] call_ensures(
                    self.spec_sink(),
                    (line,),
                    (),
                ),
    {
        let line = event.render(self.format, json);
        assert(self.spec_sink() == self.sink);
        (self.sink)(line);
    }
}

/// Each log format is known by its own name, and by no other.
pub proof fn law_log_formats_are_known_by_their_names(format: LogFormat, value: Seq<char>)
    ensures
        log_format_of(log_format_name(format)) == Some(format),
        log_format_of(value) == Some(format) ==> value == log_format_name(format),
        log_format_of(value) is Some <==> value == "plain"@ || value == "json"@,
{
    reveal_strlit("plain");
    reveal_strlit("json");
    assert("plain"@.len() != "json"@.len());
}

/// Whether a piece stands somewhere in a line.
pub open spec fn holds(line: Seq<char>, piece: Seq<char>) -> bool {
    exists|i: int|
        0 <= i <= line.len() - piece.len() && #[trigger] line.subrange(i, i + piece.len()) == piece
}

broadcast proof fn lemma_holds_in_front(a: Seq<char>, b: Seq<char>, piece: Seq<char>)
    requires
        holds(a, piece),
    ensures
        #[trigger] holds(a + b, piece),
{
    let i = choose|i: int|
        0 <= i <= a.len() - piece.len() && #[trigger] a.subrange(i, i + piece.len()) == piece;
    assert((a + b).subrange(i, i + piece.len()) == a.subrange(i, i + piece.len()));
}

broadcast proof fn lemma_holds_behind(a: Seq<char>, b: Seq<char>)
    ensures
        #[trigger] holds(a + b, b),
{
    let i = a.len() as int;
    assert((a + b).subrange(i, i + b.len()) == b);
}

proof fn lemma_holds_itself(a: Seq<char>, b: Seq<char>)
    ensures
        holds(a + b, a),
{
    assert((a + b).subrange(0int, 0int + a.len()) == a);
}

/// Whether a line tells a number.
pub open spec fn tells(line: Seq<char>, n: nat) -> bool {
    holds(line, text::decimal(n))
}

/// The plain line of an event tells every number and every text that the event is logged with.
pub proof fn law_lines_tell_what_happened(event: RuntimeEvent)
    ensures
        ({
            let line = plain_text(event);
            match event {
                RuntimeEvent::AppConfigured {
                    backend,
                    model,
                    input_path,
                    tokenizer_path,
                    checkpoint_path,
                    log_format,
                    serve,
                    benchmark_generation,
                } => {
                    &&& holds(line, backend@) && holds(line, model@) && holds(line, input_path@)
                    &&& holds(line, tokenizer_path@) && holds(line, checkpoint_path@)
                    &&& holds(line, log_format_name(log_format))
                    &&& holds(line, text::bool_chars(serve)) && holds(
                        line,
                        text::bool_chars(benchmark_generation),
                    )
                },
                RuntimeEvent::RuntimeBatchPrepared {
                    vocab_size,
                    input_chars,
                    encoded_tokens,
                    batch_size,
                    block_size,
                    dropout,
                } => {
                    &&& tells(line, vocab_size as nat) && tells(line, input_chars as nat)
                    &&& tells(line, encoded_tokens as nat) && tells(line, batch_size as nat)
                    &&& tells(line, block_size as nat) && holds(line, dropout@)
                },
                RuntimeEvent::ModelForwardCompleted {
                    model,
                    logits_shape,
                    input_shape,
                    target_shape,
                } => {
                    &&& holds(line, model@) && holds(line, shape_chars(logits_shape@))
                    &&& holds(line, shape_chars(input_shape@)) && holds(
                        line,
                        shape_chars(target_shape@),
                    )
                },
                RuntimeEvent::ServerStarted { addr, backend, vocab_size, block_size } => {
                    &&& holds(line, addr@) && holds(line, backend@)
                    &&& tells(line, vocab_size as nat) && tells(line, block_size as nat)
                },
                RuntimeEvent::TrainingStarted {
                    backend,
                    model,
                    vocab_size,
                    batch_size,
                    block_size,
                    total_steps,
                } => {
                    &&& holds(line, backend@) && holds(line, model@)
                    &&& tells(line, vocab_size as nat) && tells(line, batch_size as nat)
                    &&& tells(line, block_size as nat) && tells(line, total_steps as nat)
                },
                RuntimeEvent::TrainingProgress {
                    backend: _,
                    model: _,
                    step,
                    total_steps,
                    training_loss,
                    value_loss,
                    value_perplexity,
                    learning_rate,
                    elapsed_ms,
                    tokens_per_second,
                    steps_per_second,
                    step_ms_mean,
                } => {
                    &&& tells(line, step as nat) && tells(line, total_steps as nat)
                    &&& holds(line, training_loss@) && holds(line, value_loss@)
                    &&& holds(line, value_perplexity@) && holds(line, learning_rate@)
                    &&& tells(line, elapsed_ms as nat) && holds(line, tokens_per_second@)
                    &&& holds(line, steps_per_second@) && holds(line, step_ms_mean@)
                },
                RuntimeEvent::TrainingCompleted {
                    backend,
                    model,
                    total_steps,
                    elapsed_ms,
                    final_value_loss,
                    final_perplexity,
                } => {
                    &&& holds(line, backend@) && holds(line, model@)
                    &&& tells(line, total_steps as nat) && tells(line, elapsed_ms as nat)
                    &&& holds(line, final_value_loss@) && holds(line, final_perplexity@)
                },
                RuntimeEvent::CheckpointLoaded { path, elapsed_ms } => holds(line, path@) && tells(
                    line,
                    elapsed_ms as nat,
                ),
                RuntimeEvent::CheckpointSaved { path, elapsed_ms } => holds(line, path@) && tells(
                    line,
                    elapsed_ms as nat,
                ),
                RuntimeEvent::GenerateRequestAccepted {
                    max_tokens,
                    temperature,
                    prompt_chars,
                } => tells(line, max_tokens as nat) && holds(line, temperature@) && tells(
                    line,
                    prompt_chars as nat,
                ),
                RuntimeEvent::GenerateRequestRejected { status, reason, elapsed_ms } => tells(
                    line,
                    status as nat,
                ) && holds(line, reason@) && tells(line, elapsed_ms as nat),
                RuntimeEvent::GenerateRequestCompleted {
                    status,
                    prompt_tokens,
                    generated_tokens,
                    elapsed_ms,
                } => {
                    &&& tells(line, status as nat) && tells(line, prompt_tokens as nat)
                    &&& tells(line, generated_tokens as nat) && tells(line, elapsed_ms as nat)
                },
                RuntimeEvent::BenchmarkSkipped { prompt_len, gen_len, reason } => tells(
                    line,
                    prompt_len as nat,
                ) && tells(line, gen_len as nat) && holds(line, reason@),
                RuntimeEvent::BenchmarkResult {
                    prompt_len,
                    gen_len,
                    warmups,
                    iterations,
                    naive,
                    cached,
                    speedup,
                } => {
                    &&& tells(line, prompt_len as nat) && tells(line, gen_len as nat)
                    &&& tells(line, warmups as nat) && tells(line, iterations as nat)
                    &&& holds(line, naive.mean_ms@) && holds(line, naive.tokens_per_second@)
                    &&& holds(line, cached.mean_ms@) && holds(line, cached.tokens_per_second@)
                    &&& holds(line, speedup@)
                },
            }
        }),
{
    broadcast use lemma_holds_in_front, lemma_holds_behind;

    if let RuntimeEvent::ModelForwardCompleted { model, .. } = event {
        lemma_holds_itself(model@, " forward pass: logits_shape="@);
    }
}

/// A shape tells the size of every dimension.
pub proof fn law_shapes_tell_their_sizes(shape: Seq<usize>, i: int)
    requires
        0 <= i < shape.len(),
    ensures
        tells(shape_chars(shape), shape[i] as nat),
{
    broadcast use lemma_holds_in_front, lemma_holds_behind;

    lemma_list_tells(shape, i);
    let inner = comma_list(shape);
    let piece = text::decimal(shape[i] as nat);
    let k = choose|k: int|
        0 <= k <= inner.len() - piece.len() && #[trigger] inner.subrange(k, k + piece.len())
            == piece;
    let open = "["@ + inner;
    let n = "["@.len();
    assert(open.subrange(n + k, n + k + piece.len()) == inner.subrange(k, k + piece.len()));
}

proof fn lemma_list_tells(shape: Seq<usize>, i: int)
    requires
        0 <= i < shape.len(),
    ensures
        tells(comma_list(shape), shape[i] as nat),
    decreases shape.len(),
{
    broadcast use lemma_holds_in_front, lemma_holds_behind;

    if shape.len() == 1 {
        let piece = text::decimal(shape[0] as nat);
        assert(piece.subrange(0int, 0int + piece.len()) == piece);
    } else if i < shape.len() - 1 {
        lemma_list_tells(shape.drop_last(), i);
    }
}

/// A plain logger writes the plain line, whatever came of the JSON; the other writes the JSON, and
/// where there is none it tells why.
pub proof fn law_lines_follow_the_format(event: RuntimeEvent, json: Result<String, String>)
    ensures
        rendered(event, LogFormat::Plain, json) == plain_text(event),
        json matches Ok(line) ==> rendered(event, LogFormat::Json, json) == line@,
        json matches Err(error) ==> holds(rendered(event, LogFormat::Json, json), error@),
{
    broadcast use lemma_holds_in_front, lemma_holds_behind;

}

/// Numbers are listed in their order, with a comma and a space between each two of them.
pub proof fn law_lists_are_written_in_order(a: Seq<usize>, b: Seq<usize>)
    requires
        a.len() > 0,
        b.len() > 0,
    ensures
        comma_list(a + b) == comma_list(a) + ", "@ + comma_list(b),
    decreases b.len(),
{
    let whole = a + b;
    assert(whole.last() == b.last());
    if b.len() == 1 {
        assert(whole.drop_last() == a);
        assert(b[0] == b.last());
    } else {
        let less = b.drop_last();
        law_lists_are_written_in_order(a, less);
        assert(whole.drop_last() == a + less);
        let last = text::decimal(b.last() as nat);
        assert(comma_list(a) + ", "@ + comma_list(less) + ", "@ + last == comma_list(a) + ", "@ + (
        comma_list(less) + ", "@ + last));
    }
}

} // verus!

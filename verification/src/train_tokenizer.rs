//! The command that trains a byte pair tokenizer.
use vstd::prelude::*;

use crate::failure;
use crate::failure::{Failure, FailureView};
use crate::text;

verus! {

/// The number of single bytes: a vocabulary holds at least these.
pub const SMALLEST_VOCAB: usize = 256;

/// What to train on, how large the vocabulary is to be, and where the tokenizer goes.
#[derive(Debug, PartialEq, Eq)]
pub struct Config {
    pub corpus: String,
    pub vocab_size: usize,
    pub output: String,
}

/// What a [`Config`] says.
pub struct ConfigView {
    pub corpus: Seq<char>,
    pub vocab_size: usize,
    pub output: Seq<char>,
}

impl View for Config {
    type V = ConfigView;

    open spec fn view(&self) -> ConfigView {
        ConfigView {
            corpus: self.corpus@,
            vocab_size: self.vocab_size,
            output: self.output@,
        }
    }
}

/// What the settings come to once all arguments are read.
pub open spec fn settled(
    corpus: Option<Seq<char>>,
    vocab_size: Option<usize>,
    output: Option<Seq<char>>,
) -> Result<ConfigView, FailureView> {
    match (corpus, vocab_size, output) {
        (None, _, _) => Err(failure::said("--corpus is required"@)),
        (_, None, _) => Err(failure::said("--vocab-size is required"@)),
        (_, _, None) => Err(failure::said("--output is required"@)),
        (Some(c), Some(v), Some(o)) => if v < SMALLEST_VOCAB {
            Err(failure::said("--vocab-size must be at least 256"@))
        } else {
            Ok(ConfigView { corpus: c, vocab_size: v, output: o })
        },
    }
}

/// What arguments from place `i` on come to, after those before it gave the three settings: the
/// configuration, or a message about the first argument that is wrong.
pub open spec fn parsed_from(
    args: Seq<Seq<char>>,
    i: int,
    corpus: Option<Seq<char>>,
    vocab_size: Option<usize>,
    output: Option<Seq<char>>,
) -> Result<ConfigView, FailureView>
    decreases args.len() - i,
{
    if i >= args.len() {
        settled(corpus, vocab_size, output)
    } else if args[i] == "--corpus"@ {
        if i + 1 < args.len() {
            parsed_from(args, i + 2, Some(args[i + 1]), vocab_size, output)
        } else {
            Err(failure::said("--corpus requires a path to a text file"@))
        }
    } else if args[i] == "--vocab-size"@ {
        if i + 1 < args.len() {
            match text::usize_value(args[i + 1]) {
                Some(n) => parsed_from(args, i + 2, corpus, Some(n), output),
                None => Err(
                    failure::because(
                        "invalid --vocab-size value: "@ + args[i + 1],
                        text::usize_cause(args[i + 1]),
                    ),
                ),
            }
        } else {
            Err(failure::said("--vocab-size requires an integer"@))
        }
    } else if args[i] == "--output"@ {
        if i + 1 < args.len() {
            parsed_from(args, i + 2, corpus, vocab_size, Some(args[i + 1]))
        } else {
            Err(failure::said("--output requires a tokenizer JSON path"@))
        }
    } else if args[i] == "-h"@ || args[i] == "--help"@ {
        Err(failure::said("Usage: train-tokenizer --corpus <path> --vocab-size <n> --output <path>"@))
    } else {
        Err(failure::said("unsupported argument: "@ + args[i]))
    }
}

spec fn seen(s: Option<String>) -> Option<Seq<char>> {
    match s {
        Some(x) => Some(x@),
        None => None,
    }
}

fn settle(corpus: Option<String>, vocab_size: Option<usize>, output: Option<String>) -> (r: Result<
    Config,
    Failure,
>)
    ensures
        match r {
            Ok(config) => settled(seen(corpus), vocab_size, seen(output)) == Ok::<
                ConfigView,
                FailureView,
            >(config@),
            Err(e) => settled(seen(corpus), vocab_size, seen(output)) == Err::<
                ConfigView,
                FailureView,
            >(e@),
        },
{
    let corpus = match corpus {
        Some(c) => c,
        None => {
            return Err(Failure::new("--corpus is required"));
        },
    };
    let vocab_size: usize = match vocab_size {
        Some(v) => v,
        None => {
            return Err(Failure::new("--vocab-size is required"));
        },
    };
    let output = match output {
        Some(o) => o,
        None => {
            return Err(Failure::new("--output is required"));
        },
    };
    if vocab_size < SMALLEST_VOCAB {
        return Err(Failure::new("--vocab-size must be at least 256"));
    }
    Ok(Config { corpus, vocab_size, output })
}

/// Reads the arguments: see [`parsed_from`].
pub fn parse_args(args: &Vec<String>) -> (r: Result<Config, Failure>)
    requires
        args@.len() < usize::MAX,
    ensures
        match r {
            Ok(config) => parsed_from(text::text_views(args@), 0, None, None, None) == Ok::<
                ConfigView,
                FailureView,
            >(config@),
            Err(e) => parsed_from(text::text_views(args@), 0, None, None, None) == Err::<
                ConfigView,
                FailureView,
            >(e@),
        },
{
    let ghost views = text::text_views(args@);
    let mut corpus: Option<String> = None;
    let mut vocab_size: Option<usize> = None;
    let mut output: Option<String> = None;
    let mut i: usize = 0;
    while i < args.len()
        invariant
            i <= args@.len() < usize::MAX,
            views == text::text_views(args@),
            parsed_from(views, 0, None, None, None) == parsed_from(
                views,
                i as int,
                seen(corpus),
                vocab_size,
                seen(output),
            ),
        decreases args.len() - i,
    {
        let arg = args[i].as_str();
        if text::same_text(arg, "--corpus") {
            if i + 1 >= args.len() {
                return Err(Failure::new("--corpus requires a path to a text file"));
            }
            corpus = Some(args[i + 1].clone());
            i += 2;
        } else if text::same_text(arg, "--vocab-size") {
            if i + 1 >= args.len() {
                return Err(Failure::new("--vocab-size requires an integer"));
            }
            match text::parse_usize(args[i + 1].as_str()) {
                Some(n) => {
                    vocab_size = Some(n);
                },
                None => {
                    let mut message = "invalid --vocab-size value: ".to_owned();
                    message.append(args[i + 1].as_str());
                    let cause = text::usize_cause_text(args[i + 1].as_str());
                    return Err(Failure::caused(message, cause));
                },
            }
            i += 2;
        } else if text::same_text(arg, "--output") {
            if i + 1 >= args.len() {
                return Err(Failure::new("--output requires a tokenizer JSON path"));
            }
            output = Some(args[i + 1].clone());
            i += 2;
        } else if text::same_text(arg, "-h") || text::same_text(arg, "--help") {
            return Err(
                Failure::new(
                    "Usage: train-tokenizer --corpus <path> --vocab-size <n> --output <path>",
                ),
            );
        } else {
            let mut message = "unsupported argument: ".to_owned();
            message.append(arg);
            return Err(Failure::of(message));
        }
    }
    settle(corpus, vocab_size, output)
}

/// Options are read in any place, each takes the argument behind it, and of two the later one
/// counts. A vocabulary that could not hold all bytes is refused, and so is a missing option.
pub proof fn law_options_are_read(
    corpus: Seq<char>,
    vocab_size: usize,
    output: Seq<char>,
    earlier: Seq<char>,
)
    ensures
        vocab_size >= 256 ==> parsed_from(
            seq![
                "--corpus"@,
                corpus,
                "--vocab-size"@,
                text::decimal(vocab_size as nat),
                "--output"@,
                output,
            ],
            0,
            None,
            None,
            None,
        ) == Ok::<ConfigView, FailureView>(ConfigView { corpus, vocab_size, output }),
        vocab_size >= 256 ==> parsed_from(
            seq![
                "--output"@,
                earlier,
                "--vocab-size"@,
                text::decimal(vocab_size as nat),
                "--output"@,
                output,
                "--corpus"@,
                corpus,
            ],
            0,
            None,
            None,
            None,
        ) == Ok::<ConfigView, FailureView>(ConfigView { corpus, vocab_size, output }),
        vocab_size < 256 ==> settled(Some(corpus), Some(vocab_size), Some(output)) is Err,
        settled(None, Some(vocab_size), Some(output)) is Err,
        settled(Some(corpus), None, Some(output)) is Err,
        settled(Some(corpus), Some(vocab_size), None) is Err,
{
    reveal_with_fuel(parsed_from, 5);
    reveal_strlit("--corpus");
    reveal_strlit("--vocab-size");
    reveal_strlit("--output");
    assert("--corpus"@[2] != "--output"@[2]);
    assert("--vocab-size"@.len() == 12);
    assert("--corpus"@.len() == 8);
    assert("--output"@.len() == 8);
    text::lemma_decimal_reads_back(vocab_size as nat, usize::MAX as nat);
    assert(text::usize_value(text::decimal(vocab_size as nat)) == Some(vocab_size));
}

/// An option takes the place of what was given for it before, and leaves the others as they are.
pub proof fn law_later_options_count(
    args: Seq<Seq<char>>,
    i: int,
    corpus: Option<Seq<char>>,
    vocab_size: Option<usize>,
    output: Option<Seq<char>>,
)
    requires
        0 <= i < args.len() - 1,
    ensures
        args[i] == "--corpus"@ ==> parsed_from(args, i, corpus, vocab_size, output) == parsed_from(
            args,
            i + 2,
            Some(args[i + 1]),
            vocab_size,
            output,
        ),
        args[i] == "--output"@ ==> parsed_from(args, i, corpus, vocab_size, output) == parsed_from(
            args,
            i + 2,
            corpus,
            vocab_size,
            Some(args[i + 1]),
        ),
        args[i] == "--vocab-size"@ ==> (text::usize_value(args[i + 1]) matches Some(n)
            ==> parsed_from(args, i, corpus, vocab_size, output) == parsed_from(
            args,
            i + 2,
            corpus,
            Some(n),
            output,
        )),
        args[i] == "--vocab-size"@ && text::usize_value(args[i + 1]) is None ==> parsed_from(
            args,
            i,
            corpus,
            vocab_size,
            output,
        ) is Err,
{
    reveal_strlit("--corpus");
    reveal_strlit("--vocab-size");
    reveal_strlit("--output");
    assert("--corpus"@[2] != "--output"@[2]);
    assert("--vocab-size"@.len() == 12);
    assert("--corpus"@.len() == 8);
    assert("--output"@.len() == 8);
}

} // verus!

# rusty-gpt

A small GPT that is trained, talked with and served over HTTP, with its rules proved in Verus.

- `src/` is the verified library: tokenizers, batches, settings, checkpoints and their sidecars,
  training runs, generation turns, the requests and answers of the HTTP API, dataset loading, log
  lines. Every function states what it returns; functions named `law_..` state what holds of
  several of them together.
- `app/` is the program around it: the command line, files, the network, threads, signals, and all
  that computes with floating point (the tensors of the models, losses, sampling weights, timings).
- `tests/` runs the library on concrete values.

A real number is held in the library by its bits (`reals::Real`, `reals::ShortReal`): the library
orders and compares such numbers, and leaves their arithmetic to `app/`. Where a real is printed,
the caller hands the printed text in.

What the library takes from other crates stands behind a few functions that are marked
`external_body` and say in their comments what is relied on.

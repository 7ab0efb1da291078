//! Text, tokenizer, dataset, checkpoint and server rules of a small GPT, each stated as a
//! contract and proved.
use vstd::prelude::*;

mod chance;
pub mod collect_source;
pub mod digest;
pub mod failure;
pub mod loader;
pub mod model;
pub mod observability;
pub mod path;
pub mod path_order;
pub mod ranking;
pub mod reals;
pub mod retention_laws;
pub mod runtime_assets;
pub mod runtime_config;
pub mod runtime_orchestration;
pub mod runtime_signals;
pub mod runtime_training;
pub mod server;
pub mod text;
pub mod tokenizer;
pub mod training_run;
pub mod train_tokenizer;
pub mod utils;

verus! {

} // verus!

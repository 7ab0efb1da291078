//! Where training text comes from: local files and Hugging Face datasets, and the batches that
//! are cut from it.
pub mod data;
pub mod huggingface;
pub mod input_source;

pub use input_source::{InputSource, InputSourceError, DEFAULT_MAX_LOCAL_INPUT_BYTES};

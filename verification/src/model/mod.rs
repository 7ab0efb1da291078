//! Rules around the models: training steps, checkpoints, context windows and shapes.
pub mod attention;
pub mod definitions;
pub mod generation;
pub mod moe;
pub mod persistence;
pub mod training;

pub use definitions::{MiniGptConfig, MoeGptConfig};
pub use generation::GenerationOptions;
pub use training::{
    LearningRateSchedule, TrainingLogContext, TrainingMetrics, TrainingOutcome, TrainingParams,
};

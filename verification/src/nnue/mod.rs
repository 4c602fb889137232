//! Efficiently updatable neural network evaluation: the network file, the
//! king-relative features, the accumulators and the layers.
pub mod accum;
pub mod features;
pub mod inference;
pub mod layers;
pub mod loader;
pub mod messages;
pub mod mirror;
pub mod numbering;
pub mod position;
pub mod refusal;
pub mod transformer;

pub use inference::NnueEvaluator;

//! Musical key detection with the MusicalKeyCNN model: the verified core.
//!
//! The numeric signal processing and the neural network run outside this
//! library; what stands here is the logic that decides around them: the
//! Camelot key labels, the validation of model outputs and PCM input, the
//! ranking of class probabilities, the partition of a spectrogram into model
//! windows, the stacking of constant-Q octaves and the choice of backend.
use vstd::prelude::*;

pub mod backend;
pub mod chunk;
pub mod detector;
pub mod estimate;
pub mod framing;
pub mod ieee;
pub mod key;
pub mod magnitude;

pub use detector::{KeyDetector, KeyPreprocessor};
pub use key::{CamelotKey, KeyMode};

verus! {

/// Number of key classes the model distinguishes (12 minor and 12 major keys).
pub const CLASS_COUNT: usize = 24;

/// Smallest time dimension that survives the model's three 2x2 pooling stages.
pub const MIN_MODEL_FRAMES: usize = 8;

/// Maximum variable time dimension supported by the compiled Core ML graph.
pub const MAX_COREML_FRAMES: usize = 4096;

/// The errors of key detection.
#[derive(Debug)]
pub enum Error {
    /// The PCM input (or a batch of prepared tracks) cannot be analysed.
    InvalidAudio(String),
    /// The inference runtime failed; the runtime's report, with its causes.
    Model(String),
    /// The model produced something that is not a valid key distribution.
    InvalidModelOutput(String),
}

/// The result of key detection.
pub type Result<T> = core::result::Result<T, Error>;

} // verus!

//! Linguistic structuring and acoustic alignment for a statistical speech
//! synthesizer.
//!
//! The crate turns a flat sequence of per-phoneme full-context labels into a
//! hierarchical linguistic structure (phoneme, mora, accent phrase, breath
//! group, utterance), flattens that structure into a model-facing
//! representation, and keeps exact positional correspondence between the
//! structure and the flat numeric arrays exchanged with three statistical
//! models (duration, pitch, waveform).  The models themselves are external
//! request/response services; their 32-bit numeric values pass through the
//! library opaquely as [`scalar::Scalar`] bit patterns, and the caller
//! performs the arithmetic on them at the service boundary.

pub mod align;
pub mod duration;
pub mod error;
pub mod label;
pub mod model;
pub mod mora_text;
pub mod ojt_phoneme;
pub mod pitch;
pub mod scalar;
pub mod structure;
pub mod text;
pub mod wave;

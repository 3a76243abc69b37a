//! The streaming engine of a text-to-speech synthesizer.
//!
//! A session on a voice model turns a text into a stream of audio chunks, one
//! for each sentence, in one of three ways: lazily, sentence by sentence as
//! the consumer pulls; in parallel, with workers computing ahead and the
//! stream putting their results back in order; or in real time, with a job
//! that sends each chunk through a channel as soon as it is made.
//!
//! The model's inference is not part of this library. Where the engine needs
//! it, the caller hands in a function that performs it, or the result of a
//! call that it made itself.

pub mod audio;
mod channel;
pub mod error;
pub mod laws;
pub mod lazy;
pub mod model;
pub mod parallel;
pub mod realtime;
pub mod session;
pub mod stream;

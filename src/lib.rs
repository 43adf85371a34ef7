//! Audio stream plumbing: a small expression language for sources and sinks,
//! the evaluators that turn expressions into plans, sample chunks with
//! channel normalization, a multi-source mixer, rate-conversion bookkeeping,
//! and the byte formats of the Ogg Opus and WAV containers.
pub mod ast;
pub mod input;
pub mod mixer;
pub mod oggopus;
pub mod output;
pub mod parser;
pub mod plan;
pub mod resample;
pub mod text;
pub mod wav;

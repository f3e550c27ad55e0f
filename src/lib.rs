//! A metrics pipeline: sources feed an engine that runs a transformer chain
//! and fans metrics out to filtered sinks, one of which batches series for a
//! remote monitoring backend.
pub mod text;
pub mod tags;
pub mod event;
pub mod filter;
pub mod transform;
pub mod config;
pub mod engine;
pub mod value;
pub mod stackdriver;
pub mod settings;
pub mod sinks;
pub mod sources;

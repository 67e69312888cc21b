//! Ingest core for physiological waveform telemetry: batch validation,
//! per-session bookkeeping and acknowledgment folding.

pub mod binary64;
pub mod config;
pub mod ingest_service;
pub mod process;
pub mod state;
pub mod text;

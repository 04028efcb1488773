//! Call analytics: behavioural metrics over recognised calls, rule-based
//! scoring, transcript assembly for phrase search, and the task lifecycle
//! that drives them.

pub mod audio_metrics;
pub mod auxiliary;
pub mod config;
pub mod dictionary;
pub mod entity;
pub mod error;
pub mod metadata;
pub mod metrics;
pub mod search;
pub mod settings;
pub mod settings_metrics;
pub mod settings_overview;
pub mod task;
pub mod transcript;

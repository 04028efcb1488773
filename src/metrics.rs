//! The per-task metrics row.

use vstd::prelude::*;

use crate::entity::EmotionKind;

verus! {

/// Metrics of one call. Offsets and durations are milliseconds, ratios are
/// hundredths of a percent, speech rates are words per minute.
#[derive(Clone, Debug, PartialEq, Eq, Structural)]
pub struct CallMetrics {
    pub task_id: u128,
    pub call_duration: u64,
    pub time_to_answer: u64,
    pub total_employee_speech: u64,
    pub total_client_speech: u64,
    pub employee_client_speech_ratio: u64,
    pub employee_speech_ratio: u64,
    pub client_speech_ratio: u64,
    pub call_holds_count: u64,
    pub silence_pause_count: u64,
    pub total_employee_silence: u64,
    pub client_interruptions_count: u64,
    pub total_client_interruptions_duration: u64,
    pub avg_employee_words_per_min: u64,
    pub avg_client_words_per_min: u64,
    pub script_score: u64,
    pub employee_quality_score: u64,
    pub emotion_mode: Option<EmotionKind>,
    pub emotion_start_mode: Option<EmotionKind>,
    pub emotion_end_mode: Option<EmotionKind>,
}

} // verus!

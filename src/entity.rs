//! Recognition data as it enters the library. Offsets are whole milliseconds
//! from the start of the recording.

use vstd::prelude::*;

verus! {

/// Which side of the call a channel, segment or dictionary belongs to.
#[derive(Clone, Copy, Debug, PartialEq, Eq, Structural, Hash)]
pub enum ParticipantKind {
    Employee,
    Client,
}

/// An emotion label produced for one stretch of the call.
#[derive(Clone, Copy, Debug, PartialEq, Eq, Structural, Hash)]
pub enum EmotionKind {
    Neutral,
    Positive,
    Angry,
    Sad,
    Other,
}

/// A half-open stretch `[start, end)` of the recording, in milliseconds.
#[derive(Clone, Copy, Debug, PartialEq, Eq, Structural)]
pub struct Interval {
    pub start: u64,
    pub end: u64,
}

impl Interval {
    /// Length of the interval; an interval whose end precedes its start is empty.
    pub open spec fn duration(self) -> nat {
        if self.end >= self.start {
            (self.end - self.start) as nat
        } else {
            0
        }
    }
}

/// One recognised utterance.
#[derive(Clone, Debug)]
pub struct SpeechRecognition {
    pub text: String,
    pub timestamps: Interval,
    pub speaker: ParticipantKind,
}

/// Stretches of the call spent on hold, with music or in silence.
#[derive(Clone, Debug)]
pub struct CallHolds {
    pub music: Vec<Interval>,
    pub silent: Vec<Interval>,
}

/// Speech intervals of each side of the call.
#[derive(Clone, Debug)]
pub struct PhraseTimestamps {
    pub client: Vec<Interval>,
    pub employee: Vec<Interval>,
}

/// Everything the recognition service reports for one call.
#[derive(Clone, Debug)]
pub struct RecognitionData {
    pub call_holds: CallHolds,
    pub emotion_recognition_result: Vec<EmotionKind>,
    pub phrase_timestamps: PhraseTimestamps,
    pub speech_recognition_result: Vec<SpeechRecognition>,
}

} // verus!

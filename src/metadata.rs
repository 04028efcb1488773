//! Facts about a recording and the transcription request made from them.

use vstd::prelude::*;
use vstd::string::StringExecFns;

use crate::entity::ParticipantKind;

verus! {

/// What is known about a recorded call before it is processed. Instants are
/// milliseconds since the Unix epoch; the duration is in milliseconds.
#[derive(Clone, Debug)]
pub struct CallMetadata {
    pub metadata_id: u128,
    pub call_id: i64,
    pub performed_at: i64,
    pub uploaded_at: i64,
    pub file_hash: String,
    pub file_url: String,
    pub file_name: String,
    pub duration: u64,
    pub left_channel: ParticipantKind,
    pub right_channel: ParticipantKind,
    pub client_name: String,
    pub employee_name: String,
    pub inbound: bool,
}

/// The body of a transcription request.
#[derive(Clone, Debug)]
pub struct TranscribeRequest {
    pub file_url: String,
    pub operator_channel: String,
    pub tasks: Vec<String>,
}

/// `L` when the employee is on the left channel, else `R`.
pub open spec fn operator_channel_of(left_channel: ParticipantKind) -> Seq<char> {
    if left_channel == ParticipantKind::Employee {
        seq!['L']
    } else {
        seq!['R']
    }
}

impl TranscribeRequest {
    /// The request for a call: its file, the channel that carries the employee,
    /// and both recognition tasks.
    pub fn from_metadata(metadata: &CallMetadata) -> (r: TranscribeRequest)
        ensures
            r.file_url@ == metadata.file_url@,
            r.operator_channel@ == operator_channel_of(metadata.left_channel),
            r.tasks@.len() == 2,
            r.tasks@[0]@ == "speech_recognition"@,
            r.tasks@[1]@ == "emotion_recognition"@,
    {
        proof {
            reveal_strlit("L");
            reveal_strlit("R");
        }
        let mut operator_channel = String::new();
        if metadata.left_channel == ParticipantKind::Employee {
            operator_channel.append("L");
        } else {
            operator_channel.append("R");
        }
        let mut speech = String::new();
        speech.append("speech_recognition");
        let mut emotion = String::new();
        emotion.append("emotion_recognition");
        let mut tasks: Vec<String> = Vec::new();
        tasks.push(speech);
        tasks.push(emotion);
        TranscribeRequest { file_url: metadata.file_url.clone(), operator_channel, tasks }
    }
}

} // verus!

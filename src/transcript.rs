//! Plain-text rendering of a transcript, one line per utterance.

use vstd::prelude::*;
use vstd::string::StringExecFns;

use crate::entity::{ParticipantKind, RecognitionData, SpeechRecognition};

verus! {

/// The character of a decimal digit.
pub open spec fn digit_char(d: nat) -> char {
    if d == 0 {
        '0'
    } else if d == 1 {
        '1'
    } else if d == 2 {
        '2'
    } else if d == 3 {
        '3'
    } else if d == 4 {
        '4'
    } else if d == 5 {
        '5'
    } else if d == 6 {
        '6'
    } else if d == 7 {
        '7'
    } else if d == 8 {
        '8'
    } else {
        '9'
    }
}

/// Decimal notation of `n`, without leading zeros.
pub open spec fn decimal(n: nat) -> Seq<char>
    decreases n,
{
    if n < 10 {
        seq![digit_char(n)]
    } else {
        decimal(n / 10) + seq![digit_char(n % 10)]
    }
}

/// Decimal notation of `n`, padded with a zero to at least two digits.
pub open spec fn two_digits(n: nat) -> Seq<char> {
    if n < 10 {
        seq!['0', digit_char(n)]
    } else {
        decimal(n)
    }
}

/// `HH:MM:SS` for a number of seconds; hours may take more than two digits.
pub open spec fn clock(seconds: nat) -> Seq<char> {
    two_digits(seconds / 3600) + seq![':'] + two_digits((seconds / 60) % 60) + seq![':']
        + two_digits(seconds % 60)
}

/// The name a participant is shown under.
pub open spec fn participant_name(kind: ParticipantKind) -> Seq<char> {
    match kind {
        ParticipantKind::Employee => seq!['E', 'm', 'p', 'l', 'o', 'y', 'e', 'e'],
        ParticipantKind::Client => seq!['C', 'l', 'i', 'e', 'n', 't'],
    }
}

/// `[Speaker | HH:MM:SS - HH:MM:SS]: text` and a line break, times in whole
/// seconds rounded down.
pub open spec fn transcript_line(segment: SpeechRecognition) -> Seq<char> {
    seq!['['] + participant_name(segment.speaker) + seq![' ', '|', ' '] + clock(
        (segment.timestamps.start / 1000) as nat,
    ) + seq![' ', '-', ' '] + clock((segment.timestamps.end / 1000) as nat) + seq![']', ':', ' ']
        + segment.text@ + seq!['\n']
}

/// The lines of all segments, in order.
pub open spec fn transcript_lines(segments: Seq<SpeechRecognition>) -> Seq<char>
    decreases segments.len(),
{
    if segments.len() == 0 {
        Seq::empty()
    } else {
        transcript_lines(segments.drop_last()) + transcript_line(segments.last())
    }
}

fn digit_str(d: u64) -> (r: &'static str)
    requires
        d < 10,
    ensures
        r@ == seq![digit_char(d as nat)],
{
    proof {
        reveal_strlit("0");
        reveal_strlit("1");
        reveal_strlit("2");
        reveal_strlit("3");
        reveal_strlit("4");
        reveal_strlit("5");
        reveal_strlit("6");
        reveal_strlit("7");
        reveal_strlit("8");
        reveal_strlit("9");
    }
    if d == 0 {
        "0"
    } else if d == 1 {
        "1"
    } else if d == 2 {
        "2"
    } else if d == 3 {
        "3"
    } else if d == 4 {
        "4"
    } else if d == 5 {
        "5"
    } else if d == 6 {
        "6"
    } else if d == 7 {
        "7"
    } else if d == 8 {
        "8"
    } else {
        "9"
    }
}

fn push_decimal(out: &mut String, n: u64)
    ensures
        final(out)@ == old(out)@ + decimal(n as nat),
    decreases n,
{
    if n >= 10 {
        push_decimal(out, n / 10);
    }
    out.append(digit_str(n % 10));
    proof {
        if n < 10 {
            assert(n % 10 == n);
        }
    }
}

fn push_two_digits(out: &mut String, n: u64)
    ensures
        final(out)@ == old(out)@ + two_digits(n as nat),
{
    if n < 10 {
        out.append("0");
        proof {
            reveal_strlit("0");
        }
    }
    push_decimal(out, n);
    proof {
        if n < 10 {
            assert(final(out)@ =~= old(out)@ + two_digits(n as nat));
        }
    }
}

fn push_clock(out: &mut String, seconds: u64)
    ensures
        final(out)@ == old(out)@ + clock(seconds as nat),
{
    proof {
        reveal_strlit(":");
    }
    push_two_digits(out, seconds / 3600);
    out.append(":");
    push_two_digits(out, (seconds / 60) % 60);
    out.append(":");
    push_two_digits(out, seconds % 60);
    assert(final(out)@ =~= old(out)@ + clock(seconds as nat));
}

/// `HH:MM:SS` for a number of seconds, each part padded to two digits.
pub fn format_seconds(duration: u64) -> (r: String)
    ensures
        r@ == clock(duration as nat),
{
    let mut out = String::new();
    push_clock(&mut out, duration);
    assert(out@ =~= clock(duration as nat));
    out
}

impl ParticipantKind {
    /// The name the participant is shown under.
    pub fn name(&self) -> (r: &'static str)
        ensures
            r@ == participant_name(*self),
    {
        proof {
            reveal_strlit("Employee");
            reveal_strlit("Client");
        }
        match self {
            ParticipantKind::Employee => "Employee",
            ParticipantKind::Client => "Client",
        }
    }
}

fn push_transcript_line(out: &mut String, segment: &SpeechRecognition)
    ensures
        final(out)@ == old(out)@ + transcript_line(*segment),
{
    proof {
        reveal_strlit("[");
        reveal_strlit(" | ");
        reveal_strlit(" - ");
        reveal_strlit("]: ");
        reveal_strlit("\n");
    }
    out.append("[");
    out.append(segment.speaker.name());
    out.append(" | ");
    push_clock(out, segment.timestamps.start / 1000);
    out.append(" - ");
    push_clock(out, segment.timestamps.end / 1000);
    out.append("]: ");
    out.append(segment.text.as_str());
    out.append("\n");
    assert(final(out)@ =~= old(out)@ + transcript_line(*segment));
}

/// The transcript as text: one line per utterance, in order.
pub fn transcript_text(recog_data: &RecognitionData) -> (r: String)
    ensures
        r@ == transcript_lines(recog_data.speech_recognition_result@),
{
    let segments = &recog_data.speech_recognition_result;
    let mut out = String::new();
    let mut i: usize = 0;
    while i < segments.len()
        invariant
            i <= segments@.len(),
            out@ == transcript_lines(segments@.subrange(0, i as int)),
        decreases segments@.len() - i,
    {
        assert(segments@.subrange(0, i + 1).drop_last() =~= segments@.subrange(0, i as int));
        push_transcript_line(&mut out, &segments[i]);
        i += 1;
    }
    assert(segments@.subrange(0, i as int) =~= segments@);
    out
}

} // verus!

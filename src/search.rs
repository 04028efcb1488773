//! What the search index stores for a task, and how a phrase becomes a query.
//! The index itself, its tokenizer (simple splitting with lowercase folding on
//! both paths) and its storage live outside the library.

use vstd::prelude::*;
use vstd::string::StringExecFns;

use crate::entity::{ParticipantKind, RecognitionData, SpeechRecognition};

verus! {

/// The words of a text as `str::split_whitespace` yields them, in order.
pub uninterp spec fn whitespace_words(text: Seq<char>) -> Seq<Seq<char>>;

/// Relies on `str::split_whitespace`: the words of a text, in order, depend on
/// the text alone; an empty text has none.
#[verifier::external_body]
pub(crate) fn count_words(text: &str) -> (r: usize)
    ensures
        r == whitespace_words(text@).len(),
        text@.len() == 0 ==> r == 0,
{
    text.split_whitespace().count()
}

/// Relies on `str::split_whitespace`: the words of a text, in order, each
/// copied into a `String`.
#[verifier::external_body]
fn split_words(text: &str) -> (r: Vec<String>)
    ensures
        r@.map_values(|w: String| w@) == whitespace_words(text@),
{
    text.split_whitespace().map(String::from).collect()
}

/// A query over one channel of the index.
#[derive(Clone, Debug)]
pub enum SearchQuery {
    /// Documents holding the word.
    Term(String),
    /// Documents holding the words next to each other, in this order.
    Phrase(Vec<String>),
}

/// The query for a phrase already split into words: a single word is a term
/// query, several words a phrase query, and no word no query.
pub fn query_from_words(words: Vec<String>) -> (r: Option<SearchQuery>)
    ensures
        words@.len() == 0 ==> r is None,
        words@.len() == 1 ==> r == Some(SearchQuery::Term(words@[0])),
        words@.len() > 1 ==> r == Some(SearchQuery::Phrase(words)),
{
    if words.len() == 0 {
        None
    } else if words.len() == 1 {
        let mut words = words;
        match words.pop() {
            Some(word) => Some(SearchQuery::Term(word)),
            None => None,
        }
    } else {
        Some(SearchQuery::Phrase(words))
    }
}

/// The query that looks for `phrase`: its whitespace-separated words as a term
/// or phrase query; `None` for a phrase without words.
pub fn phrase_query(phrase: &str) -> (r: Option<SearchQuery>)
    ensures
        whitespace_words(phrase@).len() == 0 <==> r is None,
        whitespace_words(phrase@).len() == 1 ==> exists|w: String|
            r == Some(SearchQuery::Term(w)) && w@ == whitespace_words(phrase@)[0],
        whitespace_words(phrase@).len() > 1 ==> exists|ws: Vec<String>|
            r == Some(SearchQuery::Phrase(ws)) && ws@.map_values(|w: String| w@)
                == whitespace_words(phrase@),
{
    let words = split_words(phrase);
    let ghost seen = words@;
    assert(seen.map_values(|w: String| w@).len() == seen.len());
    let r = query_from_words(words);
    proof {
        if seen.len() == 1 {
            assert(seen.map_values(|w: String| w@)[0] == seen[0]@);
        }
    }
    r
}

/// One channel of the transcript: the texts of the speaker's segments, in
/// order, each preceded by a space.
pub open spec fn channel_text(segments: Seq<SpeechRecognition>, speaker: ParticipantKind) -> Seq<
    char,
>
    decreases segments.len(),
{
    if segments.len() == 0 {
        Seq::empty()
    } else {
        let rest = channel_text(segments.drop_last(), speaker);
        if segments.last().speaker == speaker {
            rest + seq![' '] + segments.last().text@
        } else {
            rest
        }
    }
}

/// The transcript channel of `speaker`.
pub fn channel_transcript(segments: &[SpeechRecognition], speaker: ParticipantKind) -> (r: String)
    ensures
        r@ == channel_text(segments@, speaker),
{
    let mut out = String::new();
    let mut i: usize = 0;
    while i < segments.len()
        invariant
            i <= segments@.len(),
            out@ == channel_text(segments@.subrange(0, i as int), speaker),
        decreases segments@.len() - i,
    {
        assert(segments@.subrange(0, i + 1).drop_last() =~= segments@.subrange(0, i as int));
        let segment = &segments[i];
        if segment.speaker == speaker {
            proof {
                reveal_strlit(" ");
            }
            out.append(" ");
            out.append(segment.text.as_str());
        }
        i += 1;
    }
    assert(segments@.subrange(0, i as int) =~= segments@);
    out
}

/// What the index stores for one task besides the raw payload.
#[derive(Clone, Debug)]
pub struct IndexDocument {
    pub task_id: u128,
    pub employee_transcript: String,
    pub client_transcript: String,
}

/// The document indexed for a task: both transcript channels.
pub fn index_document(task_id: u128, recog_data: &RecognitionData) -> (r: IndexDocument)
    ensures
        r.task_id == task_id,
        r.employee_transcript@ == channel_text(
            recog_data.speech_recognition_result@,
            ParticipantKind::Employee,
        ),
        r.client_transcript@ == channel_text(
            recog_data.speech_recognition_result@,
            ParticipantKind::Client,
        ),
{
    let segments = recog_data.speech_recognition_result.as_slice();
    IndexDocument {
        task_id,
        employee_transcript: channel_transcript(segments, ParticipantKind::Employee),
        client_transcript: channel_transcript(segments, ParticipantKind::Client),
    }
}

/// Every utterance appears whole, preceded by a space, in its speaker's channel.
pub proof fn lemma_channel_holds_segment(segments: Seq<SpeechRecognition>, i: int)
    requires
        0 <= i < segments.len(),
    ensures
        ({
            let text = channel_text(segments, segments[i].speaker);
            exists|at: int|
                0 <= at && at + 1 + segments[i].text@.len() <= text.len() && #[trigger] text.subrange(
                    at,
                    at + 1 + segments[i].text@.len(),
                ) == seq![' '] + segments[i].text@
        }),
    decreases segments.len(),
{
    let speaker = segments[i].speaker;
    let text = channel_text(segments, speaker);
    let piece = seq![' '] + segments[i].text@;
    if i == segments.len() - 1 {
        let rest = channel_text(segments.drop_last(), speaker);
        assert(segments.last() == segments[i]);
        assert(text == rest + piece);
        assert(text.subrange(rest.len() as int, (rest.len() + piece.len()) as int) =~= piece);
    } else {
        let prefix = segments.drop_last();
        assert(prefix[i] == segments[i]);
        lemma_channel_holds_segment(prefix, i);
        let rest = channel_text(prefix, speaker);
        let at = choose|at: int|
            0 <= at && at + 1 + prefix[i].text@.len() <= rest.len() && #[trigger] rest.subrange(
                at,
                at + 1 + prefix[i].text@.len(),
            ) == seq![' '] + prefix[i].text@;
        assert(rest.is_prefix_of(text)) by {
            if segments.last().speaker == speaker {
                assert(text == rest + seq![' '] + segments.last().text@);
            }
        }
        assert(text.subrange(at, at + 1 + segments[i].text@.len()) =~= rest.subrange(
            at,
            at + 1 + prefix[i].text@.len(),
        ));
    }
}

} // verus!

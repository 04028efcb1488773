use call_analytics::dictionary::{plan_dictionary_lookups, Dictionary, DictionaryMatcher, Phrase};
use call_analytics::entity::{Interval, ParticipantKind, SpeechRecognition};
use call_analytics::search::{channel_transcript, phrase_query, query_from_words, SearchQuery};
use call_analytics::auxiliary::group_by;
use call_analytics::task::TaskToDict;

fn segment(text: &str, speaker: ParticipantKind) -> SpeechRecognition {
    SpeechRecognition {
        text: text.to_string(),
        timestamps: Interval { start: 0, end: 1000 },
        speaker,
    }
}

fn phrase(id: i64, dictionary_id: i32, text: &str) -> Phrase {
    Phrase {
        id,
        dictionary_id,
        text: text.to_string(),
    }
}

#[test]
fn channels_join_texts_of_one_speaker() {
    let segments = vec![
        segment("Hello there", ParticipantKind::Client),
        segment("Good morning", ParticipantKind::Employee),
        segment("I need help", ParticipantKind::Client),
    ];
    assert_eq!(
        channel_transcript(&segments, ParticipantKind::Client),
        " Hello there I need help"
    );
    assert_eq!(
        channel_transcript(&segments, ParticipantKind::Employee),
        " Good morning"
    );
    assert_eq!(channel_transcript(&[], ParticipantKind::Employee), "");
}

#[test]
fn phrase_becomes_term_or_phrase_query() {
    match phrase_query("  refund  ") {
        Some(SearchQuery::Term(word)) => assert_eq!(word, "refund"),
        other => panic!("unexpected {other:?}"),
    }
    match phrase_query("money\tback please") {
        Some(SearchQuery::Phrase(words)) => assert_eq!(words, vec!["money", "back", "please"]),
        other => panic!("unexpected {other:?}"),
    }
    assert!(phrase_query("   ").is_none());
    assert!(phrase_query("").is_none());
    assert!(query_from_words(vec![]).is_none());
}

#[test]
fn phrases_group_by_dictionary_in_first_seen_order() {
    let groups = group_by(vec![
        phrase(1, 7, "a"),
        phrase(2, 3, "b"),
        phrase(3, 7, "c"),
    ]);
    let keys: Vec<i128> = groups.iter().map(|g| g.0).collect();
    assert_eq!(keys, vec![7, 3]);
    let texts: Vec<&str> = groups[0].1.iter().map(|p| p.text.as_str()).collect();
    assert_eq!(texts, vec!["a", "c"]);
}

#[test]
fn lookups_skip_unknown_dictionaries_and_stop_at_first_hit() {
    let dicts = vec![
        Dictionary {
            id: 3,
            name: "greetings".to_string(),
            participant: ParticipantKind::Employee,
        },
        Dictionary {
            id: 7,
            name: "complaints".to_string(),
            participant: ParticipantKind::Client,
        },
    ];
    let phrases = vec![
        phrase(1, 7, "refund"),
        phrase(2, 9, "orphan"),
        phrase(3, 7, "manager"),
        phrase(4, 3, "good morning"),
    ];
    let lookups = plan_dictionary_lookups(phrases, &dicts);
    assert_eq!(lookups.len(), 2);
    assert_eq!(lookups[0].dictionary_id, 7);
    assert_eq!(lookups[0].participant, ParticipantKind::Client);
    assert_eq!(lookups[0].phrases, vec!["refund", "manager"]);
    assert_eq!(lookups[1].dictionary_id, 3);

    let mut matcher = DictionaryMatcher::new(5, lookups);
    let mut asked = vec![];
    while let Some((text, _speaker)) = matcher.next_search() {
        let hit = text == "refund";
        asked.push(text);
        matcher.record(hit);
    }
    assert_eq!(asked, vec!["refund", "good morning"]);
    assert_eq!(
        matcher.finish(),
        vec![
            TaskToDict {
                task_id: 5,
                dictionary_id: 7,
                contains: true
            },
            TaskToDict {
                task_id: 5,
                dictionary_id: 3,
                contains: false
            },
        ]
    );
}

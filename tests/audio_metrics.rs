use call_analytics::audio_metrics::{
    calculate_words_per_minute, call_emotional_mode, count_pauses, count_speaker_words,
    find_interruptions, interval_duration, intervals_overlap, is_interruption, process_metrics,
    speech_percentage, time_to_answer, total_speech_duration,
};
use call_analytics::entity::{
    CallHolds, EmotionKind, Interval, ParticipantKind, PhraseTimestamps, RecognitionData,
    SpeechRecognition,
};

/// An interval given in seconds.
fn secs(start: f64, end: f64) -> Interval {
    Interval {
        start: (start * 1000.0) as u64,
        end: (end * 1000.0) as u64,
    }
}

fn no_holds() -> CallHolds {
    CallHolds {
        music: vec![],
        silent: vec![],
    }
}

fn segment(text: &str, speaker: ParticipantKind, start: f64, end: f64) -> SpeechRecognition {
    SpeechRecognition {
        text: String::from(text),
        speaker,
        timestamps: secs(start, end),
    }
}

#[test]
fn test_intervals_overlap() {
    let interval1 = secs(0.0, 5.0);
    let interval2 = secs(5.0, 10.0);
    assert!(!intervals_overlap(&interval1, &interval2));

    let interval1 = secs(0.0, 10.0);
    let interval2 = secs(2.0, 8.0);
    assert!(intervals_overlap(&interval1, &interval2));
}

#[test]
fn test_is_interruption() {
    let employee = secs(7.0, 10.0);
    let client = secs(5.0, 15.0);
    assert!(is_interruption(&employee, &client));

    let employee = secs(5.0, 10.0);
    let client = secs(6.0, 12.0);
    assert!(!is_interruption(&employee, &client));

    let employee = secs(0.0, 5.0);
    let client = secs(6.0, 10.0);
    assert!(!is_interruption(&employee, &client));
}

#[test]
fn test_find_interruptions() {
    let employee_intervals = vec![secs(2.0, 4.0), secs(9.0, 12.0), secs(18.0, 22.0)];
    let client_intervals = vec![secs(5.0, 10.0), secs(15.0, 20.0)];
    let interruptions = find_interruptions(&employee_intervals, &client_intervals);
    assert_eq!(interruptions, (7000, 2));
}

#[test]
fn test_time_to_answer() {
    let employee_intervals = vec![secs(10.0, 15.0)];
    let result = time_to_answer(&employee_intervals);
    assert_eq!(result, Some(10000));

    let employee_intervals = vec![];
    let result = time_to_answer(&employee_intervals);
    assert_eq!(result, None);
}

#[test]
fn test_total_speech_duration() {
    let intervals = vec![];
    let result = total_speech_duration(&intervals);
    assert_eq!(result, 0);

    let intervals = vec![secs(0.0, 5.0), secs(10.0, 15.0)];
    let result = total_speech_duration(&intervals);
    assert_eq!(result, 10000);
}

#[test]
fn test_speech_percentage() {
    let total_speech = 10000;
    let total_call_duration = 50000;
    // 20 percent, in hundredths of a percent.
    assert_eq!(speech_percentage(total_speech, total_call_duration), 2000);
}

#[test]
fn test_count_pauses() {
    let employee_intervals = vec![secs(0.0, 2.0), secs(15.0, 17.0)];
    let client_intervals = vec![secs(2.0, 15.0)];
    let result = count_pauses(&employee_intervals, &client_intervals, &no_holds());
    assert_eq!(result, (0, 0));

    let employee_intervals = vec![
        secs(0.0, 2.0),
        secs(8.0, 15.0),
        secs(25.0, 30.0),
        secs(50.0, 60.0),
    ];
    let client_intervals = vec![secs(30.0, 40.0)];
    let result = count_pauses(&employee_intervals, &client_intervals, &no_holds());
    assert_eq!(result, (2, 16000));

    let employee_intervals = vec![];
    let client_intervals = vec![secs(0.0, 5.0)];
    let result = count_pauses(&employee_intervals, &client_intervals, &no_holds());
    assert_eq!(result, (0, 0));

    let employee_intervals = vec![secs(0.0, 2.0), secs(12.0, 22.0)];
    let client_intervals = vec![];
    let result = count_pauses(&employee_intervals, &client_intervals, &no_holds());
    assert_eq!(result, (0, 0));

    // Not pause, but call hold
    let employee_intervals = vec![secs(0.0, 2.0), secs(10.0, 15.0)];
    let client_intervals = vec![secs(5.0, 7.0)];
    let holds = CallHolds {
        music: vec![secs(8.0, 12.0)],
        silent: vec![],
    };
    let result = count_pauses(&employee_intervals, &client_intervals, &holds);
    assert_eq!(result, (0, 0));

    // No pauses
    let employee_intervals = vec![secs(0.0, 2.0), secs(3.0, 4.0)];
    let client_intervals = vec![secs(2.0, 3.0)];
    let result = count_pauses(&employee_intervals, &client_intervals, &no_holds());
    assert_eq!(result, (0, 0));
}

#[test]
fn test_calculate_wpm() {
    let transcriptions = vec![
        segment("Hello this is a test.", ParticipantKind::Employee, 0.0, 20.0),
        segment("This is another test.", ParticipantKind::Employee, 25.0, 55.0),
        segment("And another one.", ParticipantKind::Employee, 60.0, 70.0),
    ];

    let wpm = calculate_words_per_minute(&transcriptions, 60000, ParticipantKind::Employee);
    assert_eq!(wpm, 12);
}

#[test]
fn test_call_emotional_mode() {
    let emotions = vec![];
    assert_eq!(call_emotional_mode(&emotions), None);

    let emotions = vec![
        EmotionKind::Positive,
        EmotionKind::Neutral,
        EmotionKind::Positive,
        EmotionKind::Positive,
        EmotionKind::Neutral,
    ];
    assert_eq!(call_emotional_mode(&emotions), Some(EmotionKind::Positive));

    // Equal frequency of amount of emotions
    let emotions = vec![
        EmotionKind::Positive,
        EmotionKind::Neutral,
        EmotionKind::Positive,
        EmotionKind::Neutral,
    ];
    let result = call_emotional_mode(&emotions);
    assert!(result == Some(EmotionKind::Positive) || result == Some(EmotionKind::Neutral));
}

#[test]
fn emotional_mode_ties_go_to_first_label() {
    let emotions = vec![
        EmotionKind::Sad,
        EmotionKind::Angry,
        EmotionKind::Angry,
        EmotionKind::Sad,
    ];
    assert_eq!(call_emotional_mode(&emotions), Some(EmotionKind::Sad));
    assert_eq!(call_emotional_mode(&vec![EmotionKind::Other]), Some(EmotionKind::Other));
}

#[test]
fn short_overlaps_are_not_interruptions() {
    // 0.9 s of overlap: below the one-second threshold.
    let employee_intervals = vec![secs(9.1, 12.0)];
    let client_intervals = vec![secs(5.0, 10.0)];
    assert_eq!(find_interruptions(&employee_intervals, &client_intervals), (0, 0));
    // Exactly one second counts.
    let employee_intervals = vec![secs(9.0, 12.0)];
    assert_eq!(find_interruptions(&employee_intervals, &client_intervals), (3000, 1));
}

#[test]
fn interruption_counts_each_employee_interval_once() {
    let employee_intervals = vec![secs(6.0, 30.0)];
    let client_intervals = vec![secs(5.0, 10.0), secs(5.5, 20.0)];
    assert_eq!(find_interruptions(&employee_intervals, &client_intervals), (24000, 1));
}

#[test]
fn pauses_are_zero_without_either_speaker() {
    let holds = no_holds();
    assert_eq!(count_pauses(&[], &[], &holds), (0, 0));
    assert_eq!(count_pauses(&[secs(0.0, 1.0), secs(20.0, 21.0)], &[], &holds), (0, 0));
    assert_eq!(count_pauses(&[], &[secs(0.0, 1.0)], &holds), (0, 0));
}

#[test]
fn hold_covering_gap_suppresses_pause() {
    let employee_intervals = vec![secs(0.0, 2.0), secs(20.0, 22.0)];
    let client_intervals = vec![secs(30.0, 31.0)];
    assert_eq!(
        count_pauses(&employee_intervals, &client_intervals, &no_holds()),
        (1, 18000)
    );
    let music = CallHolds {
        music: vec![secs(10.0, 11.0)],
        silent: vec![],
    };
    assert_eq!(count_pauses(&employee_intervals, &client_intervals, &music), (0, 0));
    let silent = CallHolds {
        music: vec![],
        silent: vec![secs(24.0, 26.0)],
    };
    // Widened by five seconds the silence starts at 19 s, inside the gap.
    assert_eq!(count_pauses(&employee_intervals, &client_intervals, &silent), (0, 0));
    let far = CallHolds {
        music: vec![secs(40.0, 41.0)],
        silent: vec![],
    };
    assert_eq!(
        count_pauses(&employee_intervals, &client_intervals, &far),
        (1, 18000)
    );
}

#[test]
fn pause_needs_five_seconds() {
    let client_intervals = vec![secs(30.0, 31.0)];
    let employee_intervals = vec![secs(0.0, 2.0), secs(6.9, 8.0)];
    assert_eq!(count_pauses(&employee_intervals, &client_intervals, &no_holds()), (0, 0));
    let employee_intervals = vec![secs(0.0, 2.0), secs(7.0, 8.0)];
    assert_eq!(count_pauses(&employee_intervals, &client_intervals, &no_holds()), (1, 5000));
}

#[test]
fn pause_scenario_with_client_between() {
    let employee_intervals = vec![secs(0.0, 2.0), secs(15.0, 17.0)];
    let client_intervals = vec![secs(2.0, 15.0)];
    assert_eq!(count_pauses(&employee_intervals, &client_intervals, &no_holds()), (0, 0));
}

#[test]
fn speech_percentage_of_empty_call_is_zero() {
    assert_eq!(speech_percentage(0, 0), 0);
    assert_eq!(speech_percentage(12345, 0), 0);
    assert_eq!(speech_percentage(u64::MAX, 0), 0);
    assert_eq!(speech_percentage(1, 3), 3333);
    assert_eq!(speech_percentage(u64::MAX, 1), u64::MAX);
}

#[test]
fn words_per_minute_rounds_and_handles_no_speech() {
    let transcriptions = vec![
        segment("one two three", ParticipantKind::Client, 0.0, 1.0),
        segment("four", ParticipantKind::Employee, 1.0, 2.0),
    ];
    assert_eq!(count_speaker_words(&transcriptions, ParticipantKind::Client), 3);
    assert_eq!(count_speaker_words(&transcriptions, ParticipantKind::Employee), 1);
    // 3 words in 40 s is 4.5 words per minute, rounded up.
    assert_eq!(calculate_words_per_minute(&transcriptions, 40000, ParticipantKind::Client), 5);
    assert_eq!(calculate_words_per_minute(&transcriptions, 0, ParticipantKind::Client), 0);
}

#[test]
fn durations_of_reversed_intervals_are_zero() {
    assert_eq!(interval_duration(&secs(5.0, 3.0)), 0);
    assert_eq!(interval_duration(&secs(3.0, 5.5)), 2500);
    assert_eq!(total_speech_duration(&[secs(5.0, 3.0), secs(0.0, 1.0)]), 1000);
}

#[test]
fn metrics_of_a_call() {
    let recog_data = RecognitionData {
        call_holds: CallHolds {
            music: vec![secs(40.0, 45.0)],
            silent: vec![],
        },
        emotion_recognition_result: vec![
            EmotionKind::Neutral,
            EmotionKind::Angry,
            EmotionKind::Angry,
            EmotionKind::Positive,
        ],
        phrase_timestamps: PhraseTimestamps {
            client: vec![secs(0.0, 10.0), secs(20.0, 30.0)],
            employee: vec![secs(5.0, 15.0), secs(31.0, 36.0)],
        },
        speech_recognition_result: vec![
            segment("hello there", ParticipantKind::Client, 0.0, 10.0),
            segment("good day to you", ParticipantKind::Employee, 5.0, 15.0),
            segment("bye", ParticipantKind::Client, 20.0, 30.0),
            segment("goodbye now", ParticipantKind::Employee, 31.0, 36.0),
        ],
    };
    let metrics = process_metrics(&recog_data);
    assert_eq!(metrics.task_id, 0);
    assert_eq!(metrics.call_duration, 36000);
    assert_eq!(metrics.time_to_answer, 5000);
    assert_eq!(metrics.total_employee_speech, 15000);
    assert_eq!(metrics.total_client_speech, 20000);
    assert_eq!(metrics.employee_client_speech_ratio, 7500);
    assert_eq!(metrics.employee_speech_ratio, 4166);
    assert_eq!(metrics.client_speech_ratio, 5555);
    assert_eq!(metrics.call_holds_count, 1);
    assert_eq!(metrics.silence_pause_count, 0);
    assert_eq!(metrics.total_employee_silence, 0);
    assert_eq!(metrics.client_interruptions_count, 1);
    assert_eq!(metrics.total_client_interruptions_duration, 10000);
    // 6 words over 15 s and 3 words over 20 s.
    assert_eq!(metrics.avg_employee_words_per_min, 24);
    assert_eq!(metrics.avg_client_words_per_min, 9);
    assert_eq!(metrics.script_score, 0);
    assert_eq!(metrics.employee_quality_score, 0);
    assert_eq!(metrics.emotion_mode, Some(EmotionKind::Angry));
    assert_eq!(metrics.emotion_start_mode, Some(EmotionKind::Neutral));
    assert_eq!(metrics.emotion_end_mode, Some(EmotionKind::Positive));
}

#[test]
fn metrics_of_an_empty_call() {
    let recog_data = RecognitionData {
        call_holds: no_holds(),
        emotion_recognition_result: vec![],
        phrase_timestamps: PhraseTimestamps {
            client: vec![],
            employee: vec![],
        },
        speech_recognition_result: vec![],
    };
    let metrics = process_metrics(&recog_data);
    assert_eq!(metrics.call_duration, 0);
    assert_eq!(metrics.time_to_answer, 0);
    assert_eq!(metrics.employee_speech_ratio, 0);
    assert_eq!(metrics.avg_employee_words_per_min, 0);
    assert_eq!(metrics.emotion_mode, None);
    assert_eq!(metrics.emotion_start_mode, None);
    assert_eq!(metrics.emotion_end_mode, None);
}

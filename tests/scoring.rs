use call_analytics::metrics::CallMetrics;
use call_analytics::settings::{
    Settings, SettingsDictItem, SettingsItem, SettingsItemKind, SettingsKind,
};
use call_analytics::settings_metrics::{
    calculate_settings_metrics, dict_rule_holds, ScoringError,
};
use call_analytics::task::TaskToDict;

fn metrics() -> CallMetrics {
    CallMetrics {
        task_id: 7,
        call_duration: 60000,
        time_to_answer: 1000,
        total_employee_speech: 20000,
        total_client_speech: 20000,
        employee_client_speech_ratio: 10000,
        employee_speech_ratio: 3333,
        client_speech_ratio: 3333,
        call_holds_count: 0,
        silence_pause_count: 2,
        total_employee_silence: 12000,
        client_interruptions_count: 0,
        total_client_interruptions_duration: 0,
        avg_employee_words_per_min: 100,
        avg_client_words_per_min: 90,
        script_score: 0,
        employee_quality_score: 0,
        emotion_mode: None,
        emotion_start_mode: None,
        emotion_end_mode: None,
    }
}

fn settings(id: u128, kind: SettingsKind) -> Settings {
    Settings {
        id,
        project_id: 1,
        kind,
    }
}

fn item(id: u128, settings_id: u128, kind: SettingsItemKind, weight: u32) -> SettingsItem {
    SettingsItem {
        id,
        settings_id,
        settings_immutable: false,
        kind,
        name: String::from("rule"),
        score_weight: weight,
    }
}

fn binding(item_id: u128, dictionary_id: i32, contains: bool) -> SettingsDictItem {
    SettingsDictItem {
        id: 0,
        settings_item_id: item_id,
        dictionary_id,
        contains,
    }
}

fn found(dictionary_id: i32, contains: bool) -> TaskToDict {
    TaskToDict {
        task_id: 7,
        dictionary_id,
        contains,
    }
}

#[test]
fn script_dictionary_rule_scores_full_marks() {
    let mut call_metrics = metrics();
    let result = calculate_settings_metrics(
        vec![found(3, true)],
        &mut call_metrics,
        vec![settings(10, SettingsKind::Script)],
        vec![item(20, 10, SettingsItemKind::Dictionary, 1)],
        vec![binding(20, 3, true)],
    )
    .unwrap();
    assert_eq!(result.len(), 1);
    assert_eq!(result[0].items.len(), 1);
    assert_eq!(result[0].items[0].score, 100);
    assert_eq!(result[0].total_score, 100);
    assert_eq!(call_metrics.script_score, 100);
    assert_eq!(call_metrics.employee_quality_score, 0);
}

#[test]
fn threshold_rules_and_rounding() {
    let mut call_metrics = metrics();
    let result = calculate_settings_metrics(
        vec![],
        &mut call_metrics,
        vec![settings(10, SettingsKind::Quality)],
        vec![
            item(1, 10, SettingsItemKind::CallHolds, 1),
            item(2, 10, SettingsItemKind::SilencePauses, 1),
            item(3, 10, SettingsItemKind::Interruptions, 1),
            item(4, 10, SettingsItemKind::SpeechRateRatio, 0),
        ],
        vec![],
    )
    .unwrap();
    let scores: Vec<u64> = result[0].items.iter().map(|m| m.score).collect();
    // 100 / 3 = 33.3 points per matching rule.
    assert_eq!(scores, vec![33, 0, 33, 0]);
    assert_eq!(result[0].total_score, 66);
    assert_eq!(call_metrics.employee_quality_score, 66);
    assert_eq!(call_metrics.script_score, 0);
}

#[test]
fn speech_rate_ratio_bounds() {
    for (ratio, expected) in [(7999u64, 0u64), (8000, 100), (12000, 100), (12001, 0)] {
        let mut call_metrics = metrics();
        call_metrics.employee_client_speech_ratio = ratio;
        let result = calculate_settings_metrics(
            vec![],
            &mut call_metrics,
            vec![settings(10, SettingsKind::Quality)],
            vec![item(1, 10, SettingsItemKind::SpeechRateRatio, 5)],
            vec![],
        )
        .unwrap();
        assert_eq!(result[0].total_score, expected);
    }
}

#[test]
fn halves_round_up() {
    let mut call_metrics = metrics();
    let result = calculate_settings_metrics(
        vec![],
        &mut call_metrics,
        vec![settings(10, SettingsKind::Script)],
        vec![
            item(1, 10, SettingsItemKind::CallHolds, 1),
            item(2, 10, SettingsItemKind::SilencePauses, 7),
        ],
        vec![],
    )
    .unwrap();
    // 1 of 8 is 12.5 points.
    assert_eq!(result[0].items[0].score, 13);
    assert_eq!(result[0].total_score, 13);
}

#[test]
fn empty_or_weightless_category_fails() {
    let mut call_metrics = metrics();
    let result = calculate_settings_metrics(
        vec![],
        &mut call_metrics,
        vec![
            settings(10, SettingsKind::Script),
            settings(11, SettingsKind::Quality),
        ],
        vec![item(1, 10, SettingsItemKind::CallHolds, 1)],
        vec![],
    );
    assert!(matches!(
        result,
        Err(ScoringError::UnweightedCategory {
            settings_id: 11,
            kind: SettingsKind::Quality
        })
    ));
    assert_eq!(call_metrics, metrics());

    let result = calculate_settings_metrics(
        vec![],
        &mut call_metrics,
        vec![settings(10, SettingsKind::Script)],
        vec![item(1, 10, SettingsItemKind::CallHolds, 0)],
        vec![],
    );
    assert!(matches!(
        result,
        Err(ScoringError::UnweightedCategory {
            settings_id: 10,
            kind: SettingsKind::Script
        })
    ));
}

#[test]
fn scores_are_written_once() {
    let mut call_metrics = metrics();
    let rubric = || {
        (
            vec![settings(10, SettingsKind::Script)],
            vec![item(20, 10, SettingsItemKind::Dictionary, 1)],
            vec![binding(20, 3, true)],
        )
    };
    let (s, i, d) = rubric();
    calculate_settings_metrics(vec![found(3, true)], &mut call_metrics, s, i, d).unwrap();
    assert_eq!(call_metrics.script_score, 100);
    let after_first = call_metrics.clone();
    let (s, i, d) = rubric();
    calculate_settings_metrics(vec![found(3, true)], &mut call_metrics, s, i, d).unwrap();
    assert_eq!(call_metrics, after_first);
    // A later, different result does not overwrite a nonzero score either.
    let (s, i, d) = rubric();
    let result = calculate_settings_metrics(vec![found(3, false)], &mut call_metrics, s, i, d).unwrap();
    assert_eq!(result[0].total_score, 0);
    assert_eq!(call_metrics.script_score, 100);
}

#[test]
fn zero_score_leaves_field_open_for_next_category() {
    let mut call_metrics = metrics();
    calculate_settings_metrics(
        vec![],
        &mut call_metrics,
        vec![
            settings(10, SettingsKind::Script),
            settings(11, SettingsKind::Script),
        ],
        vec![
            item(1, 10, SettingsItemKind::SilencePauses, 1),
            item(2, 11, SettingsItemKind::CallHolds, 1),
        ],
        vec![],
    )
    .unwrap();
    assert_eq!(call_metrics.script_score, 100);
}

#[test]
fn dictionary_bindings_presence_and_absence() {
    // Presence only: any agreeing binding suffices; unobserved does not agree.
    assert!(dict_rule_holds(&[found(1, false), found(2, true)], &[binding(9, 1, true), binding(9, 2, true)]));
    assert!(!dict_rule_holds(&[found(1, false)], &[binding(9, 1, true), binding(9, 2, true)]));
    // With an absence binding every binding must agree; unobserved agrees.
    assert!(dict_rule_holds(&[found(1, false)], &[binding(9, 1, false), binding(9, 2, true)]));
    assert!(!dict_rule_holds(&[found(1, true)], &[binding(9, 1, false)]));
    assert!(!dict_rule_holds(&[found(1, false), found(2, false)], &[binding(9, 1, false), binding(9, 2, true)]));
    // No bindings never match.
    assert!(!dict_rule_holds(&[found(1, true)], &[]));
    // The last observation of a dictionary counts.
    assert!(dict_rule_holds(&[found(1, false), found(1, true)], &[binding(9, 1, true)]));
}

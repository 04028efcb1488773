use call_analytics::dictionary::Dictionary;
use call_analytics::entity::ParticipantKind;
use call_analytics::error::ErrorKind;
use call_analytics::settings::{
    Settings, SettingsDictItem, SettingsItem, SettingsItemKind, SettingsKind,
};
use call_analytics::settings_overview::{script_category_for, settings_overview};

fn settings(id: u128, kind: SettingsKind) -> Settings {
    Settings {
        id,
        project_id: 0,
        kind,
    }
}

fn item(id: u128, settings_id: u128, name: &str) -> SettingsItem {
    SettingsItem {
        id,
        settings_id,
        settings_immutable: false,
        kind: SettingsItemKind::Dictionary,
        name: name.to_string(),
        score_weight: 1,
    }
}

fn binding(item_id: u128, dictionary_id: i32) -> SettingsDictItem {
    SettingsDictItem {
        id: 0,
        settings_item_id: item_id,
        dictionary_id,
        contains: true,
    }
}

fn dict(id: i32, name: &str) -> Dictionary {
    Dictionary {
        id,
        name: name.to_string(),
        participant: ParticipantKind::Employee,
    }
}

#[test]
fn overview_lists_rules_with_their_dictionaries() {
    let all_settings = vec![settings(1, SettingsKind::Quality), settings(2, SettingsKind::Script)];
    let items = vec![item(10, 2, "greeting"), item(11, 1, "fillers"), item(12, 2, "farewell")];
    let bindings = vec![binding(10, 100), binding(12, 101), binding(10, 102), binding(11, 999)];
    let dicts = vec![dict(100, "hello"), dict(101, "bye"), dict(102, "welcome")];
    let overview = settings_overview(&all_settings, &items, &bindings, &dicts).unwrap();
    let script: Vec<(&str, Vec<&str>)> = overview
        .script
        .iter()
        .map(|e| (e.item.name.as_str(), e.dicts.iter().map(|d| d.name.as_str()).collect()))
        .collect();
    assert_eq!(
        script,
        vec![("greeting", vec!["hello", "welcome"]), ("farewell", vec!["bye"])]
    );
    assert_eq!(overview.quality.len(), 1);
    assert_eq!(overview.quality[0].item.name, "fillers");
    // The binding to a missing dictionary is left out.
    assert!(overview.quality[0].dicts.is_empty());
}

#[test]
fn overview_needs_both_categories() {
    let err = settings_overview(&[settings(2, SettingsKind::Script)], &[], &[], &[]).unwrap_err();
    assert_eq!(err.kind, ErrorKind::EntityNotFound);
    let err = settings_overview(&[settings(1, SettingsKind::Quality)], &[], &[], &[]).unwrap_err();
    assert_eq!(err.kind, ErrorKind::EntityNotFound);
}

#[test]
fn rules_change_only_in_script_category() {
    let all_settings = vec![settings(1, SettingsKind::Quality), settings(2, SettingsKind::Script)];
    assert_eq!(script_category_for(&all_settings, 2).unwrap().id, 2);
    assert_eq!(
        script_category_for(&all_settings, 1).unwrap_err().kind,
        ErrorKind::InvalidSettingsRequest
    );
    assert_eq!(
        script_category_for(&all_settings[..1], 1).unwrap_err().kind,
        ErrorKind::EntityNotFound
    );
}

//! A project's scoring rubric: categories, their weighted rules, and the
//! dictionaries the rules are bound to.

use vstd::prelude::*;

verus! {

/// The two scoring categories a project has.
#[derive(Clone, Copy, Debug, PartialEq, Eq, Structural, Hash)]
pub enum SettingsKind {
    Quality,
    Script,
}

/// One scoring category of a project.
#[derive(Clone, Copy, Debug, PartialEq, Eq, Structural)]
pub struct Settings {
    pub id: u128,
    pub project_id: u128,
    pub kind: SettingsKind,
}

/// What a rule checks. The first four test a metric; the others are bound to
/// dictionaries.
#[derive(Clone, Copy, Debug, PartialEq, Eq, Structural, Hash)]
pub enum SettingsItemKind {
    SpeechRateRatio,
    CallHolds,
    SilencePauses,
    Interruptions,
    LackingInfoDict,
    FillerWordsDict,
    SlurredSpeechDict,
    ProfanitySpeechDict,
    Dictionary,
}

/// One weighted rule of a category.
#[derive(Clone, Debug)]
pub struct SettingsItem {
    pub id: u128,
    pub settings_id: u128,
    pub settings_immutable: bool,
    pub kind: SettingsItemKind,
    pub name: String,
    pub score_weight: u32,
}

impl SettingsItem {
    /// A copy of the rule, equal to it in every field.
    pub fn duplicate(&self) -> (r: SettingsItem)
        ensures
            r == *self,
    {
        SettingsItem {
            id: self.id,
            settings_id: self.settings_id,
            settings_immutable: self.settings_immutable,
            kind: self.kind,
            name: self.name.clone(),
            score_weight: self.score_weight,
        }
    }
}

/// Binds a rule to a dictionary: whether the dictionary's phrases must occur
/// (`contains`) or must not.
#[derive(Clone, Copy, Debug, PartialEq, Eq, Structural)]
pub struct SettingsDictItem {
    pub id: u128,
    pub settings_item_id: u128,
    pub dictionary_id: i32,
    pub contains: bool,
}

} // verus!

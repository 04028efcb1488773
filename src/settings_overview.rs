//! A project's rubric as shown to users: the rules of each category, each with
//! the dictionaries it is bound to.

use vstd::prelude::*;
use vstd::string::StringExecFns;

use crate::dictionary::{find_dictionary, find_dictionary_exec, Dictionary};
use crate::error::{Error, ErrorKind};
use crate::settings::{Settings, SettingsDictItem, SettingsItem, SettingsKind};
use crate::settings_metrics::{bound_dict_items, bound_to, category_items, items_of};

verus! {

/// A rule with the dictionaries it is bound to.
#[derive(Clone, Debug)]
pub struct SettingsItemWithDicts {
    pub item: SettingsItem,
    pub dicts: Vec<Dictionary>,
}

/// The rules of both categories of a project.
#[derive(Clone, Debug)]
pub struct SettingsResponse {
    pub quality: Vec<SettingsItemWithDicts>,
    pub script: Vec<SettingsItemWithDicts>,
}

/// The first category of the kind, if any.
pub open spec fn first_of_kind(settings: Seq<Settings>, kind: SettingsKind) -> Option<Settings>
    decreases settings.len(),
{
    if settings.len() == 0 {
        None
    } else {
        match first_of_kind(settings.drop_last(), kind) {
            Some(s) => Some(s),
            None => if settings.last().kind == kind {
                Some(settings.last())
            } else {
                None
            },
        }
    }
}

/// The dictionaries the bindings name, in binding order; bindings to a
/// missing dictionary are left out.
pub open spec fn bound_dictionaries(bindings: Seq<SettingsDictItem>, dicts: Seq<Dictionary>) -> Seq<
    Dictionary,
>
    decreases bindings.len(),
{
    if bindings.len() == 0 {
        Seq::empty()
    } else {
        let rest = bound_dictionaries(bindings.drop_last(), dicts);
        match find_dictionary(dicts, bindings.last().dictionary_id) {
            Some(d) => rest.push(d),
            None => rest,
        }
    }
}

/// A rule shown with its dictionaries.
pub open spec fn shown(item: SettingsItem, bindings: Seq<SettingsDictItem>, dicts: Seq<Dictionary>) -> (
    SettingsItem,
    Seq<Dictionary>,
) {
    (item, bound_dictionaries(bound_to(bindings, item.id), dicts))
}

/// How a listed rule is seen.
pub open spec fn entry_view(e: SettingsItemWithDicts) -> (SettingsItem, Seq<Dictionary>) {
    (e.item, e.dicts@)
}

/// Position of the first category of the kind, if any.
pub fn find_category(settings: &[Settings], kind: SettingsKind) -> (r: Option<usize>)
    ensures
        r matches Some(j) ==> j < settings@.len() && first_of_kind(settings@, kind) == Some(settings@[j as int]),
        r is None ==> first_of_kind(settings@, kind) is None,
{
    let mut i: usize = 0;
    while i < settings.len()
        invariant
            i <= settings@.len(),
            first_of_kind(settings@.subrange(0, i as int), kind) is None,
        decreases settings@.len() - i,
    {
        assert(settings@.subrange(0, i + 1).drop_last() =~= settings@.subrange(0, i as int));
        if settings[i].kind == kind {
            proof {
                lemma_first_of_kind_prefix(settings@, i as int + 1, kind);
            }
            return Some(i);
        }
        i += 1;
    }
    assert(settings@.subrange(0, i as int) =~= settings@);
    None
}

proof fn lemma_first_of_kind_prefix(settings: Seq<Settings>, n: int, kind: SettingsKind)
    requires
        0 <= n <= settings.len(),
        first_of_kind(settings.subrange(0, n), kind) is Some,
    ensures
        first_of_kind(settings, kind) == first_of_kind(settings.subrange(0, n), kind),
    decreases settings.len() - n,
{
    if n < settings.len() {
        assert(settings.subrange(0, n + 1).drop_last() =~= settings.subrange(0, n));
        lemma_first_of_kind_prefix(settings, n + 1, kind);
    } else {
        assert(settings.subrange(0, n) =~= settings);
    }
}

fn dictionaries_of(bindings: &[SettingsDictItem], dicts: &[Dictionary]) -> (r: Vec<Dictionary>)
    ensures
        r@ == bound_dictionaries(bindings@, dicts@),
{
    let mut out: Vec<Dictionary> = Vec::new();
    let mut i: usize = 0;
    while i < bindings.len()
        invariant
            i <= bindings@.len(),
            out@ == bound_dictionaries(bindings@.subrange(0, i as int), dicts@),
        decreases bindings@.len() - i,
    {
        assert(bindings@.subrange(0, i + 1).drop_last() =~= bindings@.subrange(0, i as int));
        match find_dictionary_exec(dicts, bindings[i].dictionary_id) {
            Some(j) => out.push(dicts[j].duplicate()),
            None => {},
        }
        i += 1;
    }
    assert(bindings@.subrange(0, i as int) =~= bindings@);
    out
}

fn show_items(items: &[SettingsItem], bindings: &[SettingsDictItem], dicts: &[Dictionary]) -> (r: Vec<
    SettingsItemWithDicts,
>)
    ensures
        r@.len() == items@.len(),
        forall|k: int|
            0 <= k < items@.len() ==> entry_view(#[trigger] r@[k]) == shown(items@[k], bindings@, dicts@),
{
    let mut out: Vec<SettingsItemWithDicts> = Vec::new();
    let mut i: usize = 0;
    while i < items.len()
        invariant
            i <= items@.len(),
            out@.len() == i,
            forall|k: int|
                0 <= k < i ==> entry_view(#[trigger] out@[k]) == shown(items@[k], bindings@, dicts@),
        decreases items@.len() - i,
    {
        let item = &items[i];
        let own = bound_dict_items(bindings, item.id);
        let found = dictionaries_of(own.as_slice(), dicts);
        out.push(SettingsItemWithDicts { item: item.duplicate(), dicts: found });
        i += 1;
    }
    out
}

fn missing(message: &str) -> (r: Error)
    ensures
        r.kind == ErrorKind::EntityNotFound,
{
    let mut text = String::new();
    text.append(message);
    Error::new(ErrorKind::EntityNotFound, text)
}

/// The rules of the project's first quality and first script category, in
/// order, each with its bound dictionaries. Fails with `EntityNotFound` when
/// the project lacks either category.
pub fn settings_overview(
    settings: &[Settings],
    items: &[SettingsItem],
    bindings: &[SettingsDictItem],
    dicts: &[Dictionary],
) -> (r: Result<SettingsResponse, Error>)
    ensures
        (first_of_kind(settings@, SettingsKind::Quality) is None || first_of_kind(
            settings@,
            SettingsKind::Script,
        ) is None) <==> r is Err,
        r matches Err(e) ==> e.kind == ErrorKind::EntityNotFound,
        r matches Ok(resp) ==> {
            let quality = items_of(items@, first_of_kind(settings@, SettingsKind::Quality)->0.id);
            let script = items_of(items@, first_of_kind(settings@, SettingsKind::Script)->0.id);
            &&& resp.quality@.len() == quality.len()
            &&& resp.script@.len() == script.len()
            &&& forall|k: int|
                0 <= k < quality.len() ==> entry_view(#[trigger] resp.quality@[k]) == shown(
                    quality[k],
                    bindings@,
                    dicts@,
                )
            &&& forall|k: int|
                0 <= k < script.len() ==> entry_view(#[trigger] resp.script@[k]) == shown(
                    script[k],
                    bindings@,
                    dicts@,
                )
        },
{
    let quality_id = match find_category(settings, SettingsKind::Quality) {
        Some(j) => settings[j].id,
        None => return Err(missing("related quality settings id not found")),
    };
    let script_id = match find_category(settings, SettingsKind::Script) {
        Some(j) => settings[j].id,
        None => return Err(missing("related script settings id not found")),
    };
    let quality_items = category_items(items, quality_id);
    let script_items = category_items(items, script_id);
    Ok(SettingsResponse {
        quality: show_items(quality_items.as_slice(), bindings, dicts),
        script: show_items(script_items.as_slice(), bindings, dicts),
    })
}

/// The script category that a rule may be added to or removed from: fails with
/// `EntityNotFound` when the project has no script category, and with
/// `InvalidSettingsRequest` when the rule's category is not the first script
/// category.
pub fn script_category_for(settings: &[Settings], item_settings_id: u128) -> (r: Result<Settings, Error>)
    ensures
        first_of_kind(settings@, SettingsKind::Script) is None ==> (r matches Err(e) && e.kind
            == ErrorKind::EntityNotFound),
        first_of_kind(settings@, SettingsKind::Script) matches Some(s) ==> if s.id
            == item_settings_id {
            r == Ok::<Settings, Error>(s)
        } else {
            (r matches Err(e) && e.kind == ErrorKind::InvalidSettingsRequest)
        },
{
    let script = match find_category(settings, SettingsKind::Script) {
        Some(j) => settings[j],
        None => return Err(missing("related script settings id not found")),
    };
    if script.id != item_settings_id {
        let mut text = String::new();
        text.append("settings item does not belong to the script settings");
        return Err(Error::new(ErrorKind::InvalidSettingsRequest, text));
    }
    Ok(script)
}

} // verus!

//! Scores a task's metrics and dictionary matches against a project's rubric.

use vstd::prelude::*;

use crate::metrics::CallMetrics;
use crate::settings::{Settings, SettingsDictItem, SettingsItem, SettingsItemKind, SettingsKind};
use crate::task::TaskToDict;

verus! {

/// Lowest employee-to-client speech ratio, in hundredths of a percent, that a
/// speech-rate rule accepts.
pub const SPEECH_RATIO_MIN: u64 = 8000;

/// Highest employee-to-client speech ratio, in hundredths of a percent, that a
/// speech-rate rule accepts.
pub const SPEECH_RATIO_MAX: u64 = 12000;

/// A rule together with the points it earned.
#[derive(Clone, Debug)]
pub struct TaskSettingsItemMetric {
    pub settings_item: SettingsItem,
    pub score: u64,
}

/// A category together with its rules' points and their total.
#[derive(Clone, Debug)]
pub struct TaskSettingsMetrics {
    pub settings: Settings,
    pub total_score: u64,
    pub items: Vec<TaskSettingsItemMetric>,
}

/// Why a rubric could not be scored.
#[derive(Clone, Copy, Debug, PartialEq, Eq, Structural)]
pub enum ScoringError {
    /// The category has no rules, or its rules' weights sum to zero.
    UnweightedCategory { settings_id: u128, kind: SettingsKind },
}

/// `x` clamped into the range of `u64`.
pub open spec fn clamp(x: nat) -> u64 {
    if x > u64::MAX {
        u64::MAX
    } else {
        x as u64
    }
}

/// The containment last reported for a dictionary, if any.
pub open spec fn observed(task_to_dicts: Seq<TaskToDict>, dictionary_id: i32) -> Option<bool>
    decreases task_to_dicts.len(),
{
    if task_to_dicts.len() == 0 {
        None
    } else if task_to_dicts.last().dictionary_id == dictionary_id {
        Some(task_to_dicts.last().contains)
    } else {
        observed(task_to_dicts.drop_last(), dictionary_id)
    }
}

/// The binding agrees with what was observed; `absent` is the answer for a
/// dictionary without an observation.
pub open spec fn agrees(task_to_dicts: Seq<TaskToDict>, binding: SettingsDictItem, absent: bool) -> bool {
    match observed(task_to_dicts, binding.dictionary_id) {
        Some(contains) => contains == binding.contains,
        None => absent,
    }
}

/// A dictionary-bound rule holds: when some binding asks for absence, every
/// binding must agree (an unobserved dictionary agrees); otherwise some binding
/// must agree (an unobserved dictionary does not).
pub open spec fn dict_rule_matches(task_to_dicts: Seq<TaskToDict>, bindings: Seq<SettingsDictItem>) -> bool {
    if exists|k: int| 0 <= k < bindings.len() && !(#[trigger] bindings[k]).contains {
        forall|k: int| 0 <= k < bindings.len() ==> agrees(task_to_dicts, #[trigger] bindings[k], true)
    } else {
        exists|k: int| 0 <= k < bindings.len() && agrees(task_to_dicts, #[trigger] bindings[k], false)
    }
}

/// The bindings of one rule, in their order.
pub open spec fn bound_to(bindings: Seq<SettingsDictItem>, item_id: u128) -> Seq<SettingsDictItem>
    decreases bindings.len(),
{
    if bindings.len() == 0 {
        bindings
    } else {
        let rest = bound_to(bindings.drop_last(), item_id);
        if bindings.last().settings_item_id == item_id {
            rest.push(bindings.last())
        } else {
            rest
        }
    }
}

/// The rules of one category, in their order.
pub open spec fn items_of(items: Seq<SettingsItem>, settings_id: u128) -> Seq<SettingsItem>
    decreases items.len(),
{
    if items.len() == 0 {
        items
    } else {
        let rest = items_of(items.drop_last(), settings_id);
        if items.last().settings_id == settings_id {
            rest.push(items.last())
        } else {
            rest
        }
    }
}

/// Summed weight of the rules.
pub open spec fn weight_sum(items: Seq<SettingsItem>) -> nat
    decreases items.len(),
{
    if items.len() == 0 {
        0
    } else {
        weight_sum(items.drop_last()) + items.last().score_weight as nat
    }
}

/// The metric values that threshold rules read.
pub open spec fn rule_inputs(m: CallMetrics) -> (u64, u64, u64, u64) {
    (
        m.call_holds_count,
        m.silence_pause_count,
        m.client_interruptions_count,
        m.employee_client_speech_ratio,
    )
}

/// Whether a rule holds for the task.
pub open spec fn item_matches(
    task_to_dicts: Seq<TaskToDict>,
    inputs: (u64, u64, u64, u64),
    bindings: Seq<SettingsDictItem>,
    item: SettingsItem,
) -> bool {
    match item.kind {
        SettingsItemKind::CallHolds => inputs.0 == 0,
        SettingsItemKind::SilencePauses => inputs.1 == 0,
        SettingsItemKind::Interruptions => inputs.2 == 0,
        SettingsItemKind::SpeechRateRatio => SPEECH_RATIO_MIN <= inputs.3 <= SPEECH_RATIO_MAX,
        _ => dict_rule_matches(task_to_dicts, bound_to(bindings, item.id)),
    }
}

/// `weight` points out of `sum`, scaled to 100 and rounded to the nearest whole
/// point (halves up).
pub open spec fn normalized(weight: nat, sum: nat) -> nat {
    (200 * weight + sum) / (2 * sum)
}

/// Points a rule earns: its normalized weight when it holds, else nothing.
pub open spec fn item_score(
    task_to_dicts: Seq<TaskToDict>,
    inputs: (u64, u64, u64, u64),
    bindings: Seq<SettingsDictItem>,
    item: SettingsItem,
    sum: nat,
) -> nat {
    if item_matches(task_to_dicts, inputs, bindings, item) {
        normalized(item.score_weight as nat, sum)
    } else {
        0
    }
}

/// Summed points of the rules.
pub open spec fn points(
    task_to_dicts: Seq<TaskToDict>,
    inputs: (u64, u64, u64, u64),
    bindings: Seq<SettingsDictItem>,
    items: Seq<SettingsItem>,
    sum: nat,
) -> nat
    decreases items.len(),
{
    if items.len() == 0 {
        0
    } else {
        points(task_to_dicts, inputs, bindings, items.drop_last(), sum) + item_score(
            task_to_dicts,
            inputs,
            bindings,
            items.last(),
            sum,
        )
    }
}

/// Total points of a category.
pub open spec fn category_total(
    task_to_dicts: Seq<TaskToDict>,
    inputs: (u64, u64, u64, u64),
    items: Seq<SettingsItem>,
    bindings: Seq<SettingsDictItem>,
    settings: Settings,
) -> u64 {
    let own = items_of(items, settings.id);
    clamp(points(task_to_dicts, inputs, bindings, own, weight_sum(own)))
}

/// The category cannot be scored: no rules, or zero total weight.
pub open spec fn unweighted(items: Seq<SettingsItem>, settings: Settings) -> bool {
    weight_sum(items_of(items, settings.id)) == 0
}

/// A category's total written into its score field, unless the field already
/// holds a nonzero score.
pub open spec fn record_score(m: CallMetrics, kind: SettingsKind, total: u64) -> CallMetrics {
    match kind {
        SettingsKind::Script => if m.script_score == 0 {
            CallMetrics { script_score: total, ..m }
        } else {
            m
        },
        SettingsKind::Quality => if m.employee_quality_score == 0 {
            CallMetrics { employee_quality_score: total, ..m }
        } else {
            m
        },
    }
}

/// The totals of the categories, in order, recorded into `m`.
pub open spec fn record_scores(
    m: CallMetrics,
    task_to_dicts: Seq<TaskToDict>,
    inputs: (u64, u64, u64, u64),
    settings: Seq<Settings>,
    items: Seq<SettingsItem>,
    bindings: Seq<SettingsDictItem>,
) -> CallMetrics
    decreases settings.len(),
{
    if settings.len() == 0 {
        m
    } else {
        record_score(
            record_scores(m, task_to_dicts, inputs, settings.drop_last(), items, bindings),
            settings.last().kind,
            category_total(task_to_dicts, inputs, items, bindings, settings.last()),
        )
    }
}

fn observed_containment(task_to_dicts: &[TaskToDict], dictionary_id: i32) -> (r: Option<bool>)
    ensures
        r == observed(task_to_dicts@, dictionary_id),
{
    let mut i: usize = task_to_dicts.len();
    assert(task_to_dicts@.subrange(0, i as int) =~= task_to_dicts@);
    while i > 0
        invariant
            i <= task_to_dicts@.len(),
            observed(task_to_dicts@, dictionary_id) == observed(
                task_to_dicts@.subrange(0, i as int),
                dictionary_id,
            ),
        decreases i,
    {
        assert(task_to_dicts@.subrange(0, i as int).drop_last() =~= task_to_dicts@.subrange(
            0,
            i - 1,
        ));
        let entry = &task_to_dicts[i - 1];
        if entry.dictionary_id == dictionary_id {
            return Some(entry.contains);
        }
        i -= 1;
    }
    None
}

fn agrees_exec(task_to_dicts: &[TaskToDict], binding: &SettingsDictItem, absent: bool) -> (r: bool)
    ensures
        r == agrees(task_to_dicts@, *binding, absent),
{
    match observed_containment(task_to_dicts, binding.dictionary_id) {
        Some(contains) => contains == binding.contains,
        None => absent,
    }
}

/// The bindings of the rule `item_id`, in their order.
pub fn bound_dict_items(bindings: &[SettingsDictItem], item_id: u128) -> (r: Vec<SettingsDictItem>)
    ensures
        r@ == bound_to(bindings@, item_id),
{
    let mut own: Vec<SettingsDictItem> = Vec::new();
    let mut i: usize = 0;
    while i < bindings.len()
        invariant
            i <= bindings@.len(),
            own@ == bound_to(bindings@.subrange(0, i as int), item_id),
        decreases bindings@.len() - i,
    {
        assert(bindings@.subrange(0, i + 1).drop_last() =~= bindings@.subrange(0, i as int));
        if bindings[i].settings_item_id == item_id {
            own.push(bindings[i]);
        }
        i += 1;
    }
    assert(bindings@.subrange(0, i as int) =~= bindings@);
    own
}

/// Whether a dictionary-bound rule with these bindings holds.
pub fn dict_rule_holds(task_to_dicts: &[TaskToDict], bindings: &[SettingsDictItem]) -> (r: bool)
    ensures
        r == dict_rule_matches(task_to_dicts@, bindings@),
{
    let mut absence = false;
    let mut k: usize = 0;
    while k < bindings.len()
        invariant
            k <= bindings@.len(),
            absence == exists|q: int| 0 <= q < k && !(#[trigger] bindings@[q]).contains,
        decreases bindings@.len() - k,
    {
        if !bindings[k].contains {
            absence = true;
        }
        k += 1;
    }
    let mut k: usize = 0;
    if absence {
        while k < bindings.len()
            invariant
                k <= bindings@.len(),
                exists|q: int| 0 <= q < bindings@.len() && !(#[trigger] bindings@[q]).contains,
                forall|q: int| 0 <= q < k ==> agrees(task_to_dicts@, #[trigger] bindings@[q], true),
            decreases bindings@.len() - k,
        {
            if !agrees_exec(task_to_dicts, &bindings[k], true) {
                return false;
            }
            k += 1;
        }
        true
    } else {
        while k < bindings.len()
            invariant
                k <= bindings@.len(),
                !exists|q: int| 0 <= q < bindings@.len() && !(#[trigger] bindings@[q]).contains,
                forall|q: int| 0 <= q < k ==> !agrees(task_to_dicts@, #[trigger] bindings@[q], false),
            decreases bindings@.len() - k,
        {
            if agrees_exec(task_to_dicts, &bindings[k], false) {
                return true;
            }
            k += 1;
        }
        false
    }
}

/// Whether the rule holds for a task with these metrics and dictionary matches.
pub fn item_holds(
    task_to_dicts: &[TaskToDict],
    call_metrics: &CallMetrics,
    bindings: &[SettingsDictItem],
    item: &SettingsItem,
) -> (r: bool)
    ensures
        r == item_matches(task_to_dicts@, rule_inputs(*call_metrics), bindings@, *item),
{
    match item.kind {
        SettingsItemKind::CallHolds => call_metrics.call_holds_count == 0,
        SettingsItemKind::SilencePauses => call_metrics.silence_pause_count == 0,
        SettingsItemKind::Interruptions => call_metrics.client_interruptions_count == 0,
        SettingsItemKind::SpeechRateRatio => SPEECH_RATIO_MIN
            <= call_metrics.employee_client_speech_ratio
            && call_metrics.employee_client_speech_ratio <= SPEECH_RATIO_MAX,
        _ => {
            let own = bound_dict_items(bindings, item.id);
            dict_rule_holds(task_to_dicts, own.as_slice())
        },
    }
}

/// The rules of the category `settings_id`, in their order.
pub fn category_items(items: &[SettingsItem], settings_id: u128) -> (r: Vec<SettingsItem>)
    ensures
        r@ == items_of(items@, settings_id),
{
    let mut own: Vec<SettingsItem> = Vec::new();
    let mut i: usize = 0;
    while i < items.len()
        invariant
            i <= items@.len(),
            own@ == items_of(items@.subrange(0, i as int), settings_id),
        decreases items@.len() - i,
    {
        assert(items@.subrange(0, i + 1).drop_last() =~= items@.subrange(0, i as int));
        if items[i].settings_id == settings_id {
            own.push(items[i].duplicate());
        }
        i += 1;
    }
    assert(items@.subrange(0, i as int) =~= items@);
    own
}

/// Summed weight of the rules.
pub fn weight_total(items: &[SettingsItem]) -> (r: u128)
    ensures
        r == weight_sum(items@),
        r <= items@.len() * (u32::MAX as nat),
{
    let mut total: u128 = 0;
    let mut i: usize = 0;
    while i < items.len()
        invariant
            i <= items@.len(),
            total == weight_sum(items@.subrange(0, i as int)),
            total <= i * (u32::MAX as nat),
        decreases items@.len() - i,
    {
        assert(items@.subrange(0, i + 1).drop_last() =~= items@.subrange(0, i as int));
        let w = items[i].score_weight;
        assert(total + w <= (i + 1) * (u32::MAX as nat)) by (nonlinear_arith)
            requires
                total <= i * (u32::MAX as nat),
                w <= u32::MAX,
        ;
        assert((i + 1) * (u32::MAX as nat) <= (usize::MAX as nat) * (u32::MAX as nat))
            by (nonlinear_arith)
            requires
                i + 1 <= usize::MAX,
        ;
        total = total + w as u128;
        i += 1;
    }
    assert(items@.subrange(0, i as int) =~= items@);
    total
}

proof fn lemma_normalized_bound(weight: nat, sum: nat)
    requires
        sum >= 1,
    ensures
        normalized(weight, sum) <= 100 * weight + 1,
{
    let x = 200 * weight + sum;
    let d = 2 * sum;
    let q = x / d;
    vstd::arithmetic::div_mod::lemma_fundamental_div_mod(x as int, d as int);
    assert(q * d <= x);
    if q > 100 * weight + 1 {
        assert(q * d >= (100 * weight + 2) * d) by (nonlinear_arith)
            requires
                q >= 100 * weight + 2,
                d >= 0,
        ;
        assert((100 * weight + 2) * d == 200 * weight * sum + 4 * sum) by (nonlinear_arith)
            requires
                d == 2 * sum,
        ;
        assert(200 * weight * sum >= 200 * weight) by (nonlinear_arith)
            requires
                sum >= 1,
        ;
    }
}

/// Points of each rule of one category and their total. `sum` is the
/// category's total weight.
pub fn score_category(
    task_to_dicts: &[TaskToDict],
    call_metrics: &CallMetrics,
    bindings: &[SettingsDictItem],
    own: &[SettingsItem],
    sum: u128,
) -> (r: (Vec<TaskSettingsItemMetric>, u64))
    requires
        sum == weight_sum(own@),
        sum > 0,
        sum <= own@.len() * (u32::MAX as nat),
    ensures
        r.0@.len() == own@.len(),
        forall|k: int|
            0 <= k < own@.len() ==> (#[trigger] r.0@[k]).settings_item == own@[k] && r.0@[k].score
                == item_score(
                task_to_dicts@,
                rule_inputs(*call_metrics),
                bindings@,
                own@[k],
                sum as nat,
            ),
        r.1 == clamp(points(task_to_dicts@, rule_inputs(*call_metrics), bindings@, own@, sum as nat)),
{
    let ghost inputs = rule_inputs(*call_metrics);
    let n = own.len();
    assert((n * (u32::MAX as nat)) <= (usize::MAX as nat) * (u32::MAX as nat))
        by (nonlinear_arith)
        requires
            n <= usize::MAX,
    ;
    let mut metrics: Vec<TaskSettingsItemMetric> = Vec::new();
    let mut total: u64 = 0;
    let mut i: usize = 0;
    while i < own.len()
        invariant
            i <= own@.len(),
            sum == weight_sum(own@),
            sum > 0,
            sum <= (usize::MAX as nat) * (u32::MAX as nat),
            inputs == rule_inputs(*call_metrics),
            metrics@.len() == i,
            forall|k: int|
                0 <= k < i ==> (#[trigger] metrics@[k]).settings_item == own@[k] && metrics@[k].score
                    == item_score(task_to_dicts@, inputs, bindings@, own@[k], sum as nat),
            total == clamp(points(task_to_dicts@, inputs, bindings@, own@.subrange(0, i as int), sum as nat)),
        decreases own@.len() - i,
    {
        assert(own@.subrange(0, i + 1).drop_last() =~= own@.subrange(0, i as int));
        let item = &own[i];
        let score: u64 = if item_holds(task_to_dicts, call_metrics, bindings, item) {
            let w = item.score_weight as u128;
            proof {
                lemma_normalized_bound(w as nat, sum as nat);
            }
            ((200 * w + sum) / (2 * sum)) as u64
        } else {
            0
        };
        total = total.saturating_add(score);
        metrics.push(TaskSettingsItemMetric { settings_item: item.duplicate(), score });
        i += 1;
    }
    assert(own@.subrange(0, i as int) =~= own@);
    (metrics, total)
}

/// Scores every category of the rubric, in order, and records each total into
/// the matching score field of `call_metrics` unless that field is already
/// nonzero. Fails, leaving `call_metrics` as it was, when a category has no
/// rules or its weights sum to zero; the error names the first such category.
pub fn calculate_settings_metrics(
    task_to_dicts: Vec<TaskToDict>,
    call_metrics: &mut CallMetrics,
    settings: Vec<Settings>,
    settings_items: Vec<SettingsItem>,
    settings_dict_items: Vec<SettingsDictItem>,
) -> (r: Result<Vec<TaskSettingsMetrics>, ScoringError>)
    ensures
        r is Err <==> exists|c: int| 0 <= c < settings@.len() && unweighted(settings_items@, #[trigger] settings@[c]),
        r matches Err(e) ==> exists|c: int|
            0 <= c < settings@.len()
            && unweighted(settings_items@, #[trigger] settings@[c])
            && (forall|b: int| 0 <= b < c ==> !unweighted(settings_items@, #[trigger] settings@[b]))
            && e == (ScoringError::UnweightedCategory { settings_id: settings@[c].id, kind: settings@[c].kind }),
        r is Err ==> *final(call_metrics) == *old(call_metrics),
        r matches Ok(results) ==> {
            let inputs = rule_inputs(*old(call_metrics));
            &&& results@.len() == settings@.len()
            &&& forall|c: int| 0 <= c < settings@.len() ==> {
                let own = items_of(settings_items@, settings@[c].id);
                &&& (#[trigger] results@[c]).settings == settings@[c]
                &&& results@[c].total_score == category_total(task_to_dicts@, inputs, settings_items@, settings_dict_items@, settings@[c])
                &&& results@[c].items@.len() == own.len()
                &&& forall|k: int| 0 <= k < own.len() ==> (#[trigger] results@[c].items@[k]).settings_item == own[k]
                    && results@[c].items@[k].score == item_score(task_to_dicts@, inputs, settings_dict_items@, own[k], weight_sum(own))
            }
            &&& *final(call_metrics) == record_scores(*old(call_metrics), task_to_dicts@, inputs, settings@, settings_items@, settings_dict_items@)
        },
{
    let ghost inputs = rule_inputs(*call_metrics);
    let mut groups: Vec<(Vec<SettingsItem>, u128)> = Vec::new();
    let mut c: usize = 0;
    while c < settings.len()
        invariant
            c <= settings@.len(),
            groups@.len() == c,
            forall|b: int| 0 <= b < c ==> !unweighted(settings_items@, #[trigger] settings@[b]),
            forall|b: int| 0 <= b < c ==> {
                let g = #[trigger] groups@[b];
                &&& g.0@ == items_of(settings_items@, settings@[b].id)
                &&& g.1 == weight_sum(g.0@)
                &&& g.1 <= g.0@.len() * (u32::MAX as nat)
            },
        decreases settings@.len() - c,
    {
        let current = settings[c];
        let own = category_items(settings_items.as_slice(), current.id);
        let sum = weight_total(own.as_slice());
        if sum == 0 {
            return Err(ScoringError::UnweightedCategory { settings_id: current.id, kind: current.kind });
        }
        groups.push((own, sum));
        c += 1;
    }

    let mut results: Vec<TaskSettingsMetrics> = Vec::new();
    let mut c: usize = 0;
    while c < settings.len()
        invariant
            c <= settings@.len(),
            groups@.len() == settings@.len(),
            forall|b: int| 0 <= b < settings@.len() ==> {
                let g = #[trigger] groups@[b];
                &&& g.0@ == items_of(settings_items@, settings@[b].id)
                &&& g.1 == weight_sum(g.0@)
                &&& g.1 <= g.0@.len() * (u32::MAX as nat)
                &&& g.1 > 0
            },
            inputs == rule_inputs(*old(call_metrics)),
            rule_inputs(*call_metrics) == inputs,
            results@.len() == c,
            forall|b: int| 0 <= b < c ==> {
                let own = items_of(settings_items@, settings@[b].id);
                &&& (#[trigger] results@[b]).settings == settings@[b]
                &&& results@[b].total_score == category_total(task_to_dicts@, inputs, settings_items@, settings_dict_items@, settings@[b])
                &&& results@[b].items@.len() == own.len()
                &&& forall|k: int| 0 <= k < own.len() ==> (#[trigger] results@[b].items@[k]).settings_item == own[k]
                    && results@[b].items@[k].score == item_score(task_to_dicts@, inputs, settings_dict_items@, own[k], weight_sum(own))
            },
            *call_metrics == record_scores(*old(call_metrics), task_to_dicts@, inputs, settings@.subrange(0, c as int), settings_items@, settings_dict_items@),
        decreases settings@.len() - c,
    {
        assert(settings@.subrange(0, c + 1).drop_last() =~= settings@.subrange(0, c as int));
        let current = settings[c];
        let group = &groups[c];
        let (items, total) = score_category(
            task_to_dicts.as_slice(),
            call_metrics,
            settings_dict_items.as_slice(),
            group.0.as_slice(),
            group.1,
        );
        match current.kind {
            SettingsKind::Script => {
                if call_metrics.script_score == 0 {
                    call_metrics.script_score = total;
                }
            },
            SettingsKind::Quality => {
                if call_metrics.employee_quality_score == 0 {
                    call_metrics.employee_quality_score = total;
                }
            },
        }
        results.push(TaskSettingsMetrics { settings: current, total_score: total, items });
        c += 1;
    }
    assert(settings@.subrange(0, c as int) =~= settings@);
    Ok(results)
}

/// The first nonzero total among the categories of `kind`, or zero.
pub open spec fn first_nonzero_total(
    task_to_dicts: Seq<TaskToDict>,
    inputs: (u64, u64, u64, u64),
    settings: Seq<Settings>,
    items: Seq<SettingsItem>,
    bindings: Seq<SettingsDictItem>,
    kind: SettingsKind,
) -> u64
    decreases settings.len(),
{
    if settings.len() == 0 {
        0
    } else {
        let earlier = first_nonzero_total(task_to_dicts, inputs, settings.drop_last(), items, bindings, kind);
        if earlier != 0 {
            earlier
        } else if settings.last().kind == kind {
            category_total(task_to_dicts, inputs, items, bindings, settings.last())
        } else {
            0
        }
    }
}

/// Recording changes only the two score fields; each keeps a nonzero value it
/// had, and otherwise takes the first nonzero total of its kind.
pub proof fn lemma_record_scores_write_once(
    m: CallMetrics,
    task_to_dicts: Seq<TaskToDict>,
    inputs: (u64, u64, u64, u64),
    settings: Seq<Settings>,
    items: Seq<SettingsItem>,
    bindings: Seq<SettingsDictItem>,
)
    ensures
        record_scores(m, task_to_dicts, inputs, settings, items, bindings) == (CallMetrics {
            script_score: if m.script_score != 0 {
                m.script_score
            } else {
                first_nonzero_total(task_to_dicts, inputs, settings, items, bindings, SettingsKind::Script)
            },
            employee_quality_score: if m.employee_quality_score != 0 {
                m.employee_quality_score
            } else {
                first_nonzero_total(task_to_dicts, inputs, settings, items, bindings, SettingsKind::Quality)
            },
            ..m
        }),
    decreases settings.len(),
{
    if settings.len() > 0 {
        lemma_record_scores_write_once(m, task_to_dicts, inputs, settings.drop_last(), items, bindings);
    }
}

/// Scoring is idempotent: scoring a metrics row a second time, with the same
/// rubric and dictionary matches, leaves it exactly as the first scoring left
/// it; in particular both score fields are unchanged.
pub proof fn lemma_scoring_idempotent(
    m: CallMetrics,
    task_to_dicts: Seq<TaskToDict>,
    settings: Seq<Settings>,
    items: Seq<SettingsItem>,
    bindings: Seq<SettingsDictItem>,
)
    ensures
        ({
            let once = record_scores(m, task_to_dicts, rule_inputs(m), settings, items, bindings);
            record_scores(once, task_to_dicts, rule_inputs(once), settings, items, bindings) == once
        }),
{
    let once = record_scores(m, task_to_dicts, rule_inputs(m), settings, items, bindings);
    lemma_record_scores_write_once(m, task_to_dicts, rule_inputs(m), settings, items, bindings);
    assert(rule_inputs(once) == rule_inputs(m));
    lemma_record_scores_write_once(once, task_to_dicts, rule_inputs(once), settings, items, bindings);
}

} // verus!

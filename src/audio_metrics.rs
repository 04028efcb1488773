//! Behavioural metrics of a call computed from its recognition data.
//!
//! Offsets and durations are milliseconds. Sums of durations saturate at
//! `u64::MAX`; ratios are in hundredths of a percent.

use vstd::prelude::*;

use crate::entity::{
    CallHolds, EmotionKind, Interval, ParticipantKind, RecognitionData, SpeechRecognition,
};
use crate::metrics::CallMetrics;
use crate::search::{count_words, whitespace_words};

verus! {

/// Least overlap, in milliseconds, for an employee utterance to count as an interruption.
pub const OVERLAP_DURATION_EPS_MS: u64 = 1000;

/// Least silence, in milliseconds, between two employee utterances to count as a pause.
/// Holds are widened by the same amount on each side.
pub const PAUSE_DURATION_MS: u64 = 5000;

/// Scale of ratios: a whole percent is this many units.
pub const PERCENT_SCALE: u64 = 100;

/// `x` clamped into the range of `u64`.
pub open spec fn saturate(x: nat) -> u64 {
    if x > u64::MAX {
        u64::MAX
    } else {
        x as u64
    }
}

/// Two half-open intervals share at least one instant.
pub open spec fn overlap_spec(a: Interval, b: Interval) -> bool {
    a.start < b.end && b.start < a.end
}

/// Length of the common part of two intervals (negative when they are apart).
pub open spec fn overlap_len(a: Interval, b: Interval) -> int {
    let lo = if a.start >= b.start { a.start } else { b.start };
    let hi = if a.end <= b.end { a.end } else { b.end };
    hi - lo
}

/// The employee starts speaking while the client speaks, and they overlap for
/// at least a second.
pub open spec fn interruption_spec(employee: Interval, client: Interval) -> bool {
    &&& employee.start > client.start
    &&& employee.start < client.end
    &&& overlap_len(employee, client) >= OVERLAP_DURATION_EPS_MS
}

/// The employee interval interrupts at least one of the client intervals.
pub open spec fn interrupts_some(employee: Interval, clients: Seq<Interval>) -> bool {
    exists|j: int| 0 <= j < clients.len() && interruption_spec(employee, #[trigger] clients[j])
}

/// Number of employee intervals that interrupt some client interval.
pub open spec fn interruption_count(employee: Seq<Interval>, clients: Seq<Interval>) -> nat
    decreases employee.len(),
{
    if employee.len() == 0 {
        0
    } else {
        interruption_count(employee.drop_last(), clients) + if interrupts_some(
            employee.last(),
            clients,
        ) {
            1nat
        } else {
            0nat
        }
    }
}

/// Summed own duration of the employee intervals that interrupt some client interval.
pub open spec fn interruption_time(employee: Seq<Interval>, clients: Seq<Interval>) -> nat
    decreases employee.len(),
{
    if employee.len() == 0 {
        0
    } else {
        interruption_time(employee.drop_last(), clients) + if interrupts_some(
            employee.last(),
            clients,
        ) {
            employee.last().duration()
        } else {
            0nat
        }
    }
}

/// Summed duration of a sequence of intervals.
pub open spec fn total_duration(intervals: Seq<Interval>) -> nat
    decreases intervals.len(),
{
    if intervals.len() == 0 {
        0
    } else {
        total_duration(intervals.drop_last()) + intervals.last().duration()
    }
}

/// A ratio in hundredths of a percent, rounded down; zero when the whole is zero.
pub open spec fn percentage_spec(part: nat, whole: nat) -> nat {
    if whole == 0 {
        0
    } else {
        part * (PERCENT_SCALE * PERCENT_SCALE) as nat / whole
    }
}

/// Whether two intervals overlap.
pub fn intervals_overlap(first_interval: &Interval, second_interval: &Interval) -> (r: bool)
    ensures
        r == overlap_spec(*first_interval, *second_interval),
{
    first_interval.start < second_interval.end && second_interval.start < first_interval.end
}

/// Whether the employee interval interrupts the client interval.
pub fn is_interruption(employee_interval: &Interval, client_interval: &Interval) -> (r: bool)
    ensures
        r == interruption_spec(*employee_interval, *client_interval),
{
    if employee_interval.start > client_interval.start && employee_interval.start
        < client_interval.end {
        let overlap_end = if employee_interval.end <= client_interval.end {
            employee_interval.end
        } else {
            client_interval.end
        };
        overlap_end >= employee_interval.start && overlap_end - employee_interval.start
            >= OVERLAP_DURATION_EPS_MS
    } else {
        false
    }
}

/// Length of an interval, zero when its end precedes its start.
pub fn interval_duration(interval: &Interval) -> (r: u64)
    ensures
        r == interval.duration(),
{
    interval.end.saturating_sub(interval.start)
}

/// Whether the employee interval interrupts any of the client intervals.
fn interrupts_any(employee_interval: &Interval, client_intervals: &[Interval]) -> (r: bool)
    ensures
        r == interrupts_some(*employee_interval, client_intervals@),
{
    let mut j: usize = 0;
    while j < client_intervals.len()
        invariant
            j <= client_intervals@.len(),
            forall|k: int| 0 <= k < j ==> !interruption_spec(*employee_interval, #[trigger] client_intervals@[k]),
        decreases client_intervals@.len() - j,
    {
        if is_interruption(employee_interval, &client_intervals[j]) {
            return true;
        }
        j += 1;
    }
    false
}

/// Total duration and number of employee intervals that interrupt the client.
/// Each employee interval counts once, however many client intervals it cuts into.
pub fn find_interruptions(employee_intervals: &[Interval], client_intervals: &[Interval]) -> (r: (
    u64,
    u64,
))
    ensures
        r.0 == saturate(interruption_time(employee_intervals@, client_intervals@)),
        r.1 == interruption_count(employee_intervals@, client_intervals@),
{
    let mut interruptions_count: u64 = 0;
    let mut total_interruption_time: u64 = 0;
    let mut i: usize = 0;
    while i < employee_intervals.len()
        invariant
            i <= employee_intervals@.len(),
            interruptions_count <= i,
            interruptions_count == interruption_count(
                employee_intervals@.subrange(0, i as int),
                client_intervals@,
            ),
            total_interruption_time == saturate(
                interruption_time(employee_intervals@.subrange(0, i as int), client_intervals@),
            ),
        decreases employee_intervals@.len() - i,
    {
        let ghost prefix = employee_intervals@.subrange(0, i as int);
        let ghost next = employee_intervals@.subrange(0, i + 1);
        assert(next.drop_last() =~= prefix);
        let employee_interval = &employee_intervals[i];
        if interrupts_any(employee_interval, client_intervals) {
            interruptions_count += 1;
            total_interruption_time = total_interruption_time.saturating_add(
                interval_duration(employee_interval),
            );
        }
        i += 1;
    }
    assert(employee_intervals@.subrange(0, i as int) =~= employee_intervals@);
    (total_interruption_time, interruptions_count)
}

/// Offset of the first employee utterance, if there is one.
pub fn time_to_answer(employee_intervals: &[Interval]) -> (r: Option<u64>)
    ensures
        employee_intervals@.len() == 0 ==> r is None,
        employee_intervals@.len() > 0 ==> r == Some(employee_intervals@[0].start),
{
    if employee_intervals.len() == 0 {
        None
    } else {
        Some(employee_intervals[0].start)
    }
}

/// Summed duration of the intervals.
pub fn total_speech_duration(intervals: &[Interval]) -> (r: u64)
    ensures
        r == saturate(total_duration(intervals@)),
{
    let mut total: u64 = 0;
    let mut i: usize = 0;
    while i < intervals.len()
        invariant
            i <= intervals@.len(),
            total == saturate(total_duration(intervals@.subrange(0, i as int))),
        decreases intervals@.len() - i,
    {
        assert(intervals@.subrange(0, i + 1).drop_last() =~= intervals@.subrange(0, i as int));
        total = total.saturating_add(interval_duration(&intervals[i]));
        i += 1;
    }
    assert(intervals@.subrange(0, i as int) =~= intervals@);
    total
}

/// `total_speech` as a share of `total_call_duration`, in hundredths of a percent,
/// rounded down; zero when the call has no duration.
pub fn speech_percentage(total_speech: u64, total_call_duration: u64) -> (r: u64)
    ensures
        r == saturate(percentage_spec(total_speech as nat, total_call_duration as nat)),
        total_call_duration == 0 ==> r == 0,
{
    if total_call_duration == 0 {
        return 0;
    }
    let scale: u128 = (PERCENT_SCALE * PERCENT_SCALE) as u128;
    assert((total_speech as u128) * scale <= u64::MAX as u128 * 10000) by (nonlinear_arith)
        requires
            scale == 10000,
    ;
    let ratio: u128 = (total_speech as u128) * scale / (total_call_duration as u128);
    if ratio > u64::MAX as u128 {
        u64::MAX
    } else {
        ratio as u64
    }
}


/// An interval labelled with the side of the call that speaks in it.
pub type TaggedInterval = (ParticipantKind, Interval);

/// Every interval of `intervals`, labelled with `kind`.
pub open spec fn tagged(kind: ParticipantKind, intervals: Seq<Interval>) -> Seq<TaggedInterval> {
    intervals.map_values(|interval: Interval| (kind, interval))
}

/// `item` placed into `items` after every element that starts no later than it.
pub open spec fn insert_by_start(items: Seq<TaggedInterval>, item: TaggedInterval) -> Seq<
    TaggedInterval,
>
    decreases items.len(),
{
    if items.len() == 0 {
        seq![item]
    } else if items.last().1.start <= item.1.start {
        items.push(item)
    } else {
        insert_by_start(items.drop_last(), item).push(items.last())
    }
}

/// The items ordered by start offset; items with equal starts keep their order.
pub open spec fn sort_by_start(items: Seq<TaggedInterval>) -> Seq<TaggedInterval>
    decreases items.len(),
{
    if items.len() == 0 {
        items
    } else {
        insert_by_start(sort_by_start(items.drop_last()), items.last())
    }
}

/// Some hold, widened by the pause length on each side, overlaps `[from, to)`.
pub open spec fn held(holds: Seq<Interval>, from: u64, to: u64) -> bool {
    exists|k: int|
        0 <= k < holds.len() && #[trigger] holds[k].start - PAUSE_DURATION_MS < to && from
            < holds[k].end + PAUSE_DURATION_MS
}

/// The silence `[from, to)` is covered by a music or silent hold.
pub open spec fn gap_on_hold(holds: CallHolds, from: u64, to: u64) -> bool {
    held(holds.music@, from, to) || held(holds.silent@, from, to)
}

/// State of the pause scan: end of the previous utterance when it was the
/// employee's, pauses found, and their summed length.
pub type PauseState = (Option<u64>, nat, nat);

/// Whether `item` closes a pause after the state `st`.
pub open spec fn closes_pause(st: PauseState, item: TaggedInterval, holds: CallHolds) -> bool {
    match st.0 {
        Some(end) => {
            &&& item.0 == ParticipantKind::Employee
            &&& end < item.1.start
            &&& item.1.start - end >= PAUSE_DURATION_MS
            &&& !gap_on_hold(holds, end, item.1.start)
        },
        None => false,
    }
}

/// One step of the pause scan.
pub open spec fn pause_step(st: PauseState, item: TaggedInterval, holds: CallHolds) -> PauseState {
    let counted = closes_pause(st, item, holds);
    (
        if item.0 == ParticipantKind::Employee {
            Some(item.1.end)
        } else {
            None
        },
        st.1 + if counted {
            1nat
        } else {
            0nat
        },
        st.2 + if counted {
            (item.1.start - st.0->0) as nat
        } else {
            0nat
        },
    )
}

/// The pause scan over items in the order given.
pub open spec fn pause_scan(items: Seq<TaggedInterval>, holds: CallHolds) -> PauseState
    decreases items.len(),
{
    if items.len() == 0 {
        (None, 0, 0)
    } else {
        pause_step(pause_scan(items.drop_last(), holds), items.last(), holds)
    }
}

/// Number and summed length of the employee's pauses: silences of at least the
/// pause length between two consecutive utterances of the employee, with no
/// client utterance starting in between and no hold near the silence. Utterances
/// are taken in order of start; at equal starts the employee's come first.
pub open spec fn pauses(employee: Seq<Interval>, client: Seq<Interval>, holds: CallHolds) -> (
    nat,
    nat,
) {
    if employee.len() == 0 || client.len() == 0 {
        (0, 0)
    } else {
        let st = pause_scan(
            sort_by_start(tagged(ParticipantKind::Employee, employee) + tagged(ParticipantKind::Client, client)),
            holds,
        );
        (st.1, st.2)
    }
}

proof fn lemma_insert_by_start_splice(items: Seq<TaggedInterval>, item: TaggedInterval, p: int)
    requires
        0 <= p <= items.len(),
        forall|q: int| p <= q < items.len() ==> #[trigger] items[q].1.start > item.1.start,
        p == 0 || items[p - 1].1.start <= item.1.start,
    ensures
        insert_by_start(items, item) == items.insert(p, item),
    decreases items.len(),
{
    if items.len() == 0 {
        assert(seq![item] =~= items.insert(p, item));
    } else if p == items.len() {
        assert(items.push(item) =~= items.insert(p, item));
    } else {
        let rest = items.drop_last();
        assert(items.last() == items[items.len() - 1]);
        lemma_insert_by_start_splice(rest, item, p);
        assert(rest.insert(p, item).push(items.last()) =~= items.insert(p, item));
    }
}

fn insert_by_start_exec(items: &mut Vec<TaggedInterval>, item: TaggedInterval)
    ensures
        final(items)@ == insert_by_start(old(items)@, item),
{
    let mut p: usize = items.len();
    while p > 0 && items[p - 1].1.start > item.1.start
        invariant
            p <= items@.len(),
            items@ == old(items)@,
            forall|q: int| p <= q < items@.len() ==> #[trigger] items@[q].1.start > item.1.start,
        decreases p,
    {
        p -= 1;
    }
    proof {
        lemma_insert_by_start_splice(items@, item, p as int);
    }
    items.insert(p, item);
}

fn hold_covers(holds: &[Interval], from: u64, to: u64) -> (r: bool)
    ensures
        r == held(holds@, from, to),
{
    let mut k: usize = 0;
    while k < holds.len()
        invariant
            k <= holds@.len(),
            forall|q: int|
                0 <= q < k ==> !(#[trigger] holds@[q].start - PAUSE_DURATION_MS < to && from
                    < holds@[q].end + PAUSE_DURATION_MS),
        decreases holds@.len() - k,
    {
        let hold = &holds[k];
        if (hold.start as u128) < (to as u128) + (PAUSE_DURATION_MS as u128) && (from as u128)
            < (hold.end as u128) + (PAUSE_DURATION_MS as u128) {
            return true;
        }
        k += 1;
    }
    false
}

/// Number and summed length of the employee's pauses (see `pauses`).
pub fn count_pauses(employee_intervals: &[Interval], client_intervals: &[Interval], holds: &CallHolds) -> (r: (u64, u64))
    ensures
        r.0 == pauses(employee_intervals@, client_intervals@, *holds).0,
        r.1 == saturate(pauses(employee_intervals@, client_intervals@, *holds).1),
        employee_intervals@.len() == 0 || client_intervals@.len() == 0 ==> r == (0u64, 0u64),
{
    if employee_intervals.len() == 0 || client_intervals.len() == 0 {
        return (0, 0);
    }
    let ghost employee = tagged(ParticipantKind::Employee, employee_intervals@);
    let ghost client = tagged(ParticipantKind::Client, client_intervals@);
    let mut intervals: Vec<TaggedInterval> = Vec::new();
    let mut i: usize = 0;
    while i < employee_intervals.len()
        invariant
            i <= employee_intervals@.len(),
            employee == tagged(ParticipantKind::Employee, employee_intervals@),
            intervals@ =~= employee.subrange(0, i as int),
        decreases employee_intervals@.len() - i,
    {
        intervals.push((ParticipantKind::Employee, employee_intervals[i]));
        i += 1;
    }
    let mut j: usize = 0;
    while j < client_intervals.len()
        invariant
            j <= client_intervals@.len(),
            employee == tagged(ParticipantKind::Employee, employee_intervals@),
            client == tagged(ParticipantKind::Client, client_intervals@),
            intervals@ =~= employee + client.subrange(0, j as int),
        decreases client_intervals@.len() - j,
    {
        intervals.push((ParticipantKind::Client, client_intervals[j]));
        j += 1;
    }
    assert(client.subrange(0, client.len() as int) =~= client);

    let mut sorted: Vec<TaggedInterval> = Vec::new();
    let mut k: usize = 0;
    while k < intervals.len()
        invariant
            k <= intervals@.len(),
            sorted@ == sort_by_start(intervals@.subrange(0, k as int)),
        decreases intervals@.len() - k,
    {
        assert(intervals@.subrange(0, k + 1).drop_last() =~= intervals@.subrange(0, k as int));
        insert_by_start_exec(&mut sorted, intervals[k]);
        k += 1;
    }
    assert(intervals@.subrange(0, k as int) =~= intervals@);

    let mut previous_end: Option<u64> = None;
    let mut pause_count: u64 = 0;
    let mut pause_sum: u64 = 0;
    let mut n: usize = 0;
    while n < sorted.len()
        invariant
            n <= sorted@.len(),
            pause_count <= n,
            previous_end == pause_scan(sorted@.subrange(0, n as int), *holds).0,
            pause_count == pause_scan(sorted@.subrange(0, n as int), *holds).1,
            pause_sum == saturate(pause_scan(sorted@.subrange(0, n as int), *holds).2),
        decreases sorted@.len() - n,
    {
        assert(sorted@.subrange(0, n + 1).drop_last() =~= sorted@.subrange(0, n as int));
        let (kind, interval) = sorted[n];
        if let Some(end) = previous_end {
            if kind == ParticipantKind::Employee && end < interval.start && interval.start - end
                >= PAUSE_DURATION_MS && !hold_covers(holds.music.as_slice(), end, interval.start)
                && !hold_covers(holds.silent.as_slice(), end, interval.start) {
                pause_count += 1;
                pause_sum = pause_sum.saturating_add(interval.start - end);
            }
        }
        if kind == ParticipantKind::Employee {
            previous_end = Some(interval.end);
        } else {
            previous_end = None;
        }
        n += 1;
    }
    assert(sorted@.subrange(0, n as int) =~= sorted@);
    (pause_count, pause_sum)
}

/// Words spoken by `speaker` over all segments.
pub open spec fn speaker_words(segments: Seq<SpeechRecognition>, speaker: ParticipantKind) -> nat
    decreases segments.len(),
{
    if segments.len() == 0 {
        0
    } else {
        speaker_words(segments.drop_last(), speaker) + if segments.last().speaker == speaker {
            whitespace_words(segments.last().text@).len()
        } else {
            0nat
        }
    }
}

/// Words per minute over `speech_ms` milliseconds, rounded to the nearest whole
/// number (halves up); zero when there was no speech time.
pub open spec fn words_per_minute_spec(words: nat, speech_ms: nat) -> nat {
    if speech_ms == 0 {
        0
    } else {
        (2 * words * 60000 + speech_ms) / (2 * speech_ms)
    }
}

/// Words spoken by `speaker`, summed over the segments.
pub fn count_speaker_words(transcriptions: &[SpeechRecognition], speaker: ParticipantKind) -> (r: u64)
    ensures
        r == saturate(speaker_words(transcriptions@, speaker)),
{
    let mut total: u64 = 0;
    let mut i: usize = 0;
    while i < transcriptions.len()
        invariant
            i <= transcriptions@.len(),
            total == saturate(speaker_words(transcriptions@.subrange(0, i as int), speaker)),
        decreases transcriptions@.len() - i,
    {
        assert(transcriptions@.subrange(0, i + 1).drop_last() =~= transcriptions@.subrange(0, i as int));
        let transcription = &transcriptions[i];
        if transcription.speaker == speaker {
            let words = count_words(transcription.text.as_str());
            total = total.saturating_add(words as u64);
        }
        i += 1;
    }
    assert(transcriptions@.subrange(0, i as int) =~= transcriptions@);
    total
}

/// Average speech rate of `speaker`: the words of their segments over
/// `speech_time` milliseconds of speech, in words per minute, rounded.
pub fn calculate_words_per_minute(
    transcriptions: &[SpeechRecognition],
    speech_time: u64,
    speaker: ParticipantKind,
) -> (r: u64)
    ensures
        r == saturate(
            words_per_minute_spec(
                saturate(speaker_words(transcriptions@, speaker)) as nat,
                speech_time as nat,
            ),
        ),
{
    let total_words = count_speaker_words(transcriptions, speaker);
    if speech_time == 0 {
        return 0;
    }
    let words = total_words as u128;
    let ms = speech_time as u128;
    assert(2 * words * 60000 + ms <= 2 * (u64::MAX as u128) * 60000 + u64::MAX as u128)
        by (nonlinear_arith)
        requires
            words <= u64::MAX,
            ms <= u64::MAX,
    ;
    let rate: u128 = (2 * words * 60000 + ms) / (2 * ms);
    if rate > u64::MAX as u128 {
        u64::MAX
    } else {
        rate as u64
    }
}

/// Number of times `emotion` occurs in `emotions`.
pub open spec fn occurrences(emotions: Seq<EmotionKind>, emotion: EmotionKind) -> nat
    decreases emotions.len(),
{
    if emotions.len() == 0 {
        0
    } else {
        occurrences(emotions.drop_last(), emotion) + if emotions.last() == emotion {
            1nat
        } else {
            0nat
        }
    }
}

/// Index `i` holds a most frequent label, and no earlier label is as frequent.
pub open spec fn is_first_mode(emotions: Seq<EmotionKind>, i: int) -> bool {
    &&& 0 <= i < emotions.len()
    &&& forall|j: int|
        0 <= j < emotions.len() ==> occurrences(emotions, #[trigger] emotions[j]) <= occurrences(
            emotions,
            emotions[i],
        )
    &&& forall|j: int|
        0 <= j < i ==> occurrences(emotions, #[trigger] emotions[j]) < occurrences(
            emotions,
            emotions[i],
        )
}

fn count_occurrences(emotions: &[EmotionKind], emotion: EmotionKind) -> (r: usize)
    ensures
        r == occurrences(emotions@, emotion),
{
    let mut count: usize = 0;
    let mut i: usize = 0;
    while i < emotions.len()
        invariant
            i <= emotions@.len(),
            count <= i,
            count == occurrences(emotions@.subrange(0, i as int), emotion),
        decreases emotions@.len() - i,
    {
        assert(emotions@.subrange(0, i + 1).drop_last() =~= emotions@.subrange(0, i as int));
        if emotions[i] == emotion {
            count += 1;
        }
        i += 1;
    }
    assert(emotions@.subrange(0, i as int) =~= emotions@);
    count
}

/// The most frequent emotion label; among equally frequent labels, the one that
/// occurs first. `None` for an empty sequence.
pub fn call_emotional_mode(emotions: &Vec<EmotionKind>) -> (r: Option<EmotionKind>)
    ensures
        emotions@.len() == 0 <==> r is None,
        r is Some ==> exists|i: int| is_first_mode(emotions@, i) && r == Some(emotions@[i]),
{
    if emotions.len() == 0 {
        return None;
    }
    let mut best: usize = 0;
    let mut best_count = count_occurrences(emotions.as_slice(), emotions[0]);
    let mut i: usize = 1;
    while i < emotions.len()
        invariant
            1 <= i <= emotions@.len(),
            best < i,
            best_count == occurrences(emotions@, emotions@[best as int]),
            forall|j: int| 0 <= j < i ==> occurrences(emotions@, #[trigger] emotions@[j]) <= best_count,
            forall|j: int| 0 <= j < best ==> occurrences(emotions@, #[trigger] emotions@[j]) < best_count,
        decreases emotions@.len() - i,
    {
        let count = count_occurrences(emotions.as_slice(), emotions[i]);
        if count > best_count {
            best = i;
            best_count = count;
        }
        i += 1;
    }
    assert(is_first_mode(emotions@, best as int));
    Some(emotions[best])
}

/// Latest end offset among the intervals; zero for none.
pub open spec fn max_end(intervals: Seq<Interval>) -> u64
    decreases intervals.len(),
{
    if intervals.len() == 0 {
        0
    } else {
        let rest = max_end(intervals.drop_last());
        if intervals.last().end > rest {
            intervals.last().end
        } else {
            rest
        }
    }
}

fn latest_end(intervals: &[Interval]) -> (r: u64)
    ensures
        r == max_end(intervals@),
{
    let mut latest: u64 = 0;
    let mut i: usize = 0;
    while i < intervals.len()
        invariant
            i <= intervals@.len(),
            latest == max_end(intervals@.subrange(0, i as int)),
        decreases intervals@.len() - i,
    {
        assert(intervals@.subrange(0, i + 1).drop_last() =~= intervals@.subrange(0, i as int));
        if intervals[i].end > latest {
            latest = intervals[i].end;
        }
        i += 1;
    }
    assert(intervals@.subrange(0, i as int) =~= intervals@);
    latest
}

/// Duration of the call: the latest end of any utterance of either side.
pub open spec fn call_duration_spec(r: RecognitionData) -> u64 {
    let client = max_end(r.phrase_timestamps.client@);
    let employee = max_end(r.phrase_timestamps.employee@);
    if client >= employee {
        client
    } else {
        employee
    }
}

/// Computes the behavioural metrics of a call. The task id and both scores are
/// left at zero; the scoring step fills the scores in.
pub fn process_metrics(recog_data: &RecognitionData) -> (r: CallMetrics)
    ensures
        ({
            let employee = recog_data.phrase_timestamps.employee@;
            let client = recog_data.phrase_timestamps.client@;
            let holds = recog_data.call_holds;
            let segments = recog_data.speech_recognition_result@;
            let emotions = recog_data.emotion_recognition_result@;
            let employee_speech = saturate(total_duration(employee));
            let client_speech = saturate(total_duration(client));
            let duration = call_duration_spec(*recog_data);
            &&& r.task_id == 0
            &&& r.call_duration == duration
            &&& r.time_to_answer == if employee.len() == 0 {
                0
            } else {
                employee[0].start
            }
            &&& r.total_employee_speech == employee_speech
            &&& r.total_client_speech == client_speech
            &&& r.employee_client_speech_ratio == saturate(
                percentage_spec(employee_speech as nat, client_speech as nat),
            )
            &&& r.employee_speech_ratio == saturate(
                percentage_spec(employee_speech as nat, duration as nat),
            )
            &&& r.client_speech_ratio == saturate(
                percentage_spec(client_speech as nat, duration as nat),
            )
            &&& r.call_holds_count == saturate(holds.silent@.len() + holds.music@.len())
            &&& r.silence_pause_count == pauses(employee, client, holds).0
            &&& r.total_employee_silence == saturate(pauses(employee, client, holds).1)
            &&& r.client_interruptions_count == interruption_count(employee, client)
            &&& r.total_client_interruptions_duration == saturate(
                interruption_time(employee, client),
            )
            &&& r.avg_employee_words_per_min == saturate(
                words_per_minute_spec(
                    saturate(speaker_words(segments, ParticipantKind::Employee)) as nat,
                    employee_speech as nat,
                ),
            )
            &&& r.avg_client_words_per_min == saturate(
                words_per_minute_spec(
                    saturate(speaker_words(segments, ParticipantKind::Client)) as nat,
                    client_speech as nat,
                ),
            )
            &&& r.script_score == 0
            &&& r.employee_quality_score == 0
            &&& (emotions.len() == 0 <==> r.emotion_mode is None)
            &&& (r.emotion_mode is Some ==> exists|i: int|
                is_first_mode(emotions, i) && r.emotion_mode == Some(emotions[i]))
            &&& r.emotion_start_mode == if emotions.len() == 0 {
                None
            } else {
                Some(emotions.first())
            }
            &&& r.emotion_end_mode == if emotions.len() == 0 {
                None
            } else {
                Some(emotions.last())
            }
        }),
{
    let employee = recog_data.phrase_timestamps.employee.as_slice();
    let client = recog_data.phrase_timestamps.client.as_slice();
    let holds = &recog_data.call_holds;
    let (silence_pause_count, total_employee_silence) = count_pauses(employee, client, holds);
    let (total_client_interruptions_duration, client_interruptions_count) = find_interruptions(
        employee,
        client,
    );
    let total_employee_speech = total_speech_duration(employee);
    let total_client_speech = total_speech_duration(client);
    let segments = recog_data.speech_recognition_result.as_slice();
    let avg_employee_words_per_min = calculate_words_per_minute(
        segments,
        total_employee_speech,
        ParticipantKind::Employee,
    );
    let avg_client_words_per_min = calculate_words_per_minute(
        segments,
        total_client_speech,
        ParticipantKind::Client,
    );
    let client_end = latest_end(client);
    let employee_end = latest_end(employee);
    let call_duration = if client_end >= employee_end {
        client_end
    } else {
        employee_end
    };
    let holds_count = (holds.silent.len() as u64).saturating_add(holds.music.len() as u64);
    let emotions = &recog_data.emotion_recognition_result;
    let emotion_start_mode = if emotions.len() == 0 {
        None
    } else {
        Some(emotions[0])
    };
    let emotion_end_mode = if emotions.len() == 0 {
        None
    } else {
        Some(emotions[emotions.len() - 1])
    };
    CallMetrics {
        task_id: 0,
        call_duration,
        time_to_answer: match time_to_answer(employee) {
            Some(start) => start,
            None => 0,
        },
        total_employee_speech,
        total_client_speech,
        employee_client_speech_ratio: speech_percentage(total_employee_speech, total_client_speech),
        employee_speech_ratio: speech_percentage(total_employee_speech, call_duration),
        client_speech_ratio: speech_percentage(total_client_speech, call_duration),
        call_holds_count: holds_count,
        silence_pause_count,
        total_employee_silence,
        client_interruptions_count,
        total_client_interruptions_duration,
        avg_employee_words_per_min,
        avg_client_words_per_min,
        script_score: 0,
        employee_quality_score: 0,
        emotion_mode: call_emotional_mode(emotions),
        emotion_start_mode,
        emotion_end_mode,
    }
}

/// Overlaps shorter than the interruption threshold never count: when every
/// employee interval overlaps every client interval by less than a second,
/// there are no interruptions and no interruption time.
pub proof fn lemma_short_overlaps_never_interrupt(employee: Seq<Interval>, clients: Seq<Interval>)
    requires
        forall|i: int, j: int|
            0 <= i < employee.len() && 0 <= j < clients.len() ==> overlap_len(
                #[trigger] employee[i],
                #[trigger] clients[j],
            ) < OVERLAP_DURATION_EPS_MS,
    ensures
        interruption_count(employee, clients) == 0,
        interruption_time(employee, clients) == 0,
    decreases employee.len(),
{
    if employee.len() > 0 {
        let rest = employee.drop_last();
        assert forall|i: int, j: int|
            0 <= i < rest.len() && 0 <= j < clients.len() implies overlap_len(
            #[trigger] rest[i],
            #[trigger] clients[j],
        ) < OVERLAP_DURATION_EPS_MS by {
            assert(rest[i] == employee[i]);
        }
        lemma_short_overlaps_never_interrupt(rest, clients);
        let last = employee.last();
        assert(last == employee[employee.len() - 1]);
        assert(!interrupts_some(last, clients));
    }
}

/// A hold suppresses exactly the pause it covers. Two employee utterances at
/// least the pause length apart, with the client speaking only after the
/// second, make one pause of the full gap; a hold whose widened interval
/// overlaps that gap removes it.
pub proof fn lemma_hold_suppresses_pause(
    first: Interval,
    second: Interval,
    client: Interval,
    hold: Interval,
    with_hold: CallHolds,
    without_hold: CallHolds,
)
    requires
        first.start <= first.end,
        first.end + PAUSE_DURATION_MS <= second.start,
        second.start < client.start,
        hold.start - PAUSE_DURATION_MS < second.start,
        first.end < hold.end + PAUSE_DURATION_MS,
        with_hold.music@ == seq![hold],
        with_hold.silent@.len() == 0,
        without_hold.music@.len() == 0,
        without_hold.silent@.len() == 0,
    ensures
        pauses(seq![first, second], seq![client], with_hold) == (0nat, 0nat),
        pauses(seq![first, second], seq![client], without_hold) == (
            1nat,
            (second.start - first.end) as nat,
        ),
{
    let e1 = (ParticipantKind::Employee, first);
    let e2 = (ParticipantKind::Employee, second);
    let c = (ParticipantKind::Client, client);
    let items = tagged(ParticipantKind::Employee, seq![first, second]) + tagged(
        ParticipantKind::Client,
        seq![client],
    );
    assert(items =~= seq![e1, e2, c]);
    let two = seq![e1, e2];
    let one = seq![e1];
    assert(items.drop_last() =~= two);
    assert(two.drop_last() =~= one);
    assert(one.drop_last() =~= Seq::<TaggedInterval>::empty());
    let none = Seq::<TaggedInterval>::empty();
    assert(sort_by_start(none) == none);
    assert(insert_by_start(none, e1) == one);
    assert(one.last() == e1);
    assert(sort_by_start(one) =~= one);
    assert(one.push(e2) =~= two);
    assert(sort_by_start(two) =~= two);
    assert(two.push(c) =~= items);
    assert(sort_by_start(items) =~= items);
    assert(held(with_hold.music@, first.end, second.start)) by {
        assert(with_hold.music@[0] == hold);
    }
    assert(pause_scan(none, with_hold) == (None::<u64>, 0nat, 0nat));
    assert(pause_scan(none, without_hold) == (None::<u64>, 0nat, 0nat));
    assert(pause_scan(one, with_hold) == (Some(first.end), 0nat, 0nat));
    assert(pause_scan(two, with_hold) == (Some(second.end), 0nat, 0nat));
    assert(pause_scan(one, without_hold) == (Some(first.end), 0nat, 0nat));
    assert(!gap_on_hold(without_hold, first.end, second.start));
    assert(pause_scan(two, without_hold) == (
        Some(second.end),
        1nat,
        (second.start - first.end) as nat,
    ));
}

} // verus!

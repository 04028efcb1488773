//! Dictionaries of phrases and the lookups that decide, per dictionary,
//! whether a task's transcript contains any of its phrases.

use vstd::prelude::*;

use crate::auxiliary::{group_by, grouped, groups_view, Keyed};
use crate::entity::ParticipantKind;
use crate::task::TaskToDict;

verus! {

/// A named set of phrases, matched against one participant's channel.
#[derive(Clone, Debug)]
pub struct Dictionary {
    pub id: i32,
    pub name: String,
    pub participant: ParticipantKind,
}

/// One phrase of a dictionary.
#[derive(Clone, Debug)]
pub struct Phrase {
    pub id: i64,
    pub dictionary_id: i32,
    pub text: String,
}

impl Dictionary {
    /// A copy of the dictionary, equal to it in every field.
    pub fn duplicate(&self) -> (r: Dictionary)
        ensures
            r == *self,
    {
        Dictionary { id: self.id, name: self.name.clone(), participant: self.participant }
    }
}

impl Keyed for Phrase {
    open spec fn group_key(&self) -> i128 {
        self.dictionary_id as i128
    }

    fn key(&self) -> (r: i128) {
        self.dictionary_id as i128
    }
}

/// The phrases of one dictionary to look for in one channel.
#[derive(Clone, Debug)]
pub struct DictionaryLookup {
    pub dictionary_id: i32,
    pub participant: ParticipantKind,
    pub phrases: Vec<String>,
}

/// The first dictionary with the id, if any.
pub open spec fn find_dictionary(dicts: Seq<Dictionary>, id: i32) -> Option<Dictionary>
    decreases dicts.len(),
{
    if dicts.len() == 0 {
        None
    } else {
        match find_dictionary(dicts.drop_last(), id) {
            Some(d) => Some(d),
            None => if dicts.last().id == id {
                Some(dicts.last())
            } else {
                None
            },
        }
    }
}

/// The texts of the phrases.
pub open spec fn texts(phrases: Seq<Phrase>) -> Seq<Seq<char>> {
    phrases.map_values(|p: Phrase| p.text@)
}

/// A lookup, seen as its dictionary, channel and phrase texts.
pub open spec fn lookup_view(l: DictionaryLookup) -> (i32, ParticipantKind, Seq<Seq<char>>) {
    (l.dictionary_id, l.participant, l.phrases@.map_values(|s: String| s@))
}

/// One lookup per group of phrases whose dictionary exists, in group order.
pub open spec fn lookup_plan(groups: Seq<(i128, Seq<Phrase>)>, dicts: Seq<Dictionary>) -> Seq<
    (i32, ParticipantKind, Seq<Seq<char>>),
>
    decreases groups.len(),
{
    if groups.len() == 0 {
        Seq::empty()
    } else {
        let rest = lookup_plan(groups.drop_last(), dicts);
        let members = groups.last().1;
        if members.len() == 0 {
            rest
        } else {
            match find_dictionary(dicts, members[0].dictionary_id) {
                Some(d) => rest.push((d.id, d.participant, texts(members))),
                None => rest,
            }
        }
    }
}

/// Position of the first dictionary with the id, if any.
pub fn find_dictionary_exec(dicts: &[Dictionary], id: i32) -> (r: Option<usize>)
    ensures
        r matches Some(j) ==> j < dicts@.len() && find_dictionary(dicts@, id) == Some(dicts@[j as int]),
        r is None ==> find_dictionary(dicts@, id) is None,
{
    let mut i: usize = 0;
    while i < dicts.len()
        invariant
            i <= dicts@.len(),
            find_dictionary(dicts@.subrange(0, i as int), id) is None,
        decreases dicts@.len() - i,
    {
        assert(dicts@.subrange(0, i + 1).drop_last() =~= dicts@.subrange(0, i as int));
        if dicts[i].id == id {
            proof {
                lemma_find_dictionary_prefix(dicts@, i as int + 1, id);
            }
            return Some(i);
        }
        i += 1;
    }
    assert(dicts@.subrange(0, i as int) =~= dicts@);
    None
}

proof fn lemma_find_dictionary_prefix(dicts: Seq<Dictionary>, n: int, id: i32)
    requires
        0 <= n <= dicts.len(),
        find_dictionary(dicts.subrange(0, n), id) is Some,
    ensures
        find_dictionary(dicts, id) == find_dictionary(dicts.subrange(0, n), id),
    decreases dicts.len() - n,
{
    if n < dicts.len() {
        assert(dicts.subrange(0, n + 1).drop_last() =~= dicts.subrange(0, n));
        lemma_find_dictionary_prefix(dicts, n + 1, id);
    } else {
        assert(dicts.subrange(0, n) =~= dicts);
    }
}

fn phrase_texts(phrases: Vec<Phrase>) -> (r: Vec<String>)
    ensures
        r@.map_values(|s: String| s@) == texts(phrases@),
{
    let mut out: Vec<String> = Vec::new();
    let mut i: usize = 0;
    while i < phrases.len()
        invariant
            i <= phrases@.len(),
            out@.map_values(|s: String| s@) =~= texts(phrases@).subrange(0, i as int),
        decreases phrases@.len() - i,
    {
        let text = phrases[i].text.clone();
        assert(text@ == phrases@[i as int].text@);
        assert(texts(phrases@)[i as int] == phrases@[i as int].text@);
        let ghost previous = out@;
        out.push(text);
        assert(out@.map_values(|s: String| s@) =~= previous.map_values(|s: String| s@).push(text@));
        assert(out@.map_values(|s: String| s@) =~= texts(phrases@).subrange(0, i + 1));
        i += 1;
    }
    out
}

/// Groups the phrases by dictionary and keeps the groups whose dictionary
/// exists, each with that dictionary's channel and the texts of its phrases.
pub fn plan_dictionary_lookups(phrases: Vec<Phrase>, dicts: &[Dictionary]) -> (r: Vec<DictionaryLookup>)
    ensures
        r@.map_values(|l: DictionaryLookup| lookup_view(l)) == lookup_plan(grouped(phrases@), dicts@),
{
    let groups = group_by(phrases);
    let ghost view = groups_view(groups@);
    let mut groups = groups;
    let mut reversed: Vec<(i128, Vec<Phrase>)> = Vec::new();
    while groups.len() > 0
        invariant
            view == groups_view(groups@ + reversed@.reverse()),
        decreases groups@.len(),
    {
        let ghost before = groups@ + reversed@.reverse();
        match groups.pop() {
            Some(g) => {
                reversed.push(g);
            },
            None => {},
        }
        assert(groups@ + reversed@.reverse() =~= before);
    }
    assert(reversed@.reverse() =~= groups@ + reversed@.reverse());
    let count = reversed.len();
    let mut lookups: Vec<DictionaryLookup> = Vec::new();
    let mut done: usize = 0;
    while reversed.len() > 0
        invariant
            groups_view(reversed@.reverse()) == view.subrange(done as int, view.len() as int),
            done + reversed@.len() == view.len(),
            view.len() == count,
            lookups@.map_values(|l: DictionaryLookup| lookup_view(l)) == lookup_plan(view.subrange(0, done as int), dicts@),
        decreases reversed@.len(),
    {
        let ghost before = reversed@;
        match reversed.pop() {
            Some(group) => {
                assert(groups_view(before.reverse())[0] == view[done as int]);
                assert(before.reverse()[0] == before.last());
                assert(view.subrange(0, done + 1).drop_last() =~= view.subrange(0, done as int));
                let (_key, members) = group;
                if members.len() > 0 {
                    let id = members[0].dictionary_id;
                    match find_dictionary_exec(dicts, id) {
                        Some(j) => {
                            let participant = dicts[j].participant;
                            let phrases = phrase_texts(members);
                            lookups.push(DictionaryLookup { dictionary_id: dicts[j].id, participant, phrases });
                            assert(lookups@.map_values(|l: DictionaryLookup| lookup_view(l)) =~= lookup_plan(view.subrange(0, done + 1), dicts@));
                        },
                        None => {},
                    }
                }
                assert(reversed@ == before.drop_last());
                assert(reversed@.reverse() =~= before.reverse().subrange(1, before.len() as int));
                assert(groups_view(before.reverse()).subrange(1, before.len() as int) =~= groups_view(reversed@.reverse()));
                assert(view.subrange(done as int, view.len() as int).subrange(1, before.len() as int) =~= view.subrange(done + 1, view.len() as int));
                assert(groups_view(reversed@.reverse()) =~= view.subrange(done + 1, view.len() as int));
                done += 1;
            },
            None => {},
        }
    }
    assert(view.subrange(0, done as int) =~= view);
    lookups
}

/// The outcome recorded for a dictionary.
pub open spec fn outcome(task_id: u128, lookup: DictionaryLookup, contains: bool) -> TaskToDict {
    TaskToDict { task_id, dictionary_id: lookup.dictionary_id, contains }
}

/// Lookups without phrases, from `i` on, recorded as not contained; gives the
/// outcomes and the first lookup that has phrases to search for.
pub open spec fn settle_spec(
    lookups: Seq<DictionaryLookup>,
    task_id: u128,
    results: Seq<TaskToDict>,
    i: int,
) -> (Seq<TaskToDict>, int)
    decreases lookups.len() - i,
{
    if 0 <= i < lookups.len() && lookups[i].phrases@.len() == 0 {
        settle_spec(lookups, task_id, results.push(outcome(task_id, lookups[i], false)), i + 1)
    } else {
        (results, i)
    }
}

/// Walks the lookups of one task phrase by phrase. For each dictionary it asks
/// for its phrases to be searched in order, stops at the first one found, and
/// records whether any was found; a dictionary without phrases is recorded as
/// not found.
#[derive(Debug)]
pub struct DictionaryMatcher {
    pub task_id: u128,
    pub lookups: Vec<DictionaryLookup>,
    pub current: usize,
    pub phrase: usize,
    pub results: Vec<TaskToDict>,
}

impl DictionaryMatcher {
    /// The matcher is at a phrase of an unfinished lookup, or past the last one,
    /// with one outcome per finished lookup.
    pub open spec fn wf(&self) -> bool {
        &&& self.current <= self.lookups@.len()
        &&& self.results@.len() == self.current
        &&& self.current < self.lookups@.len() ==> self.phrase < self.lookups@[self.current as int].phrases@.len()
    }

    fn settle(&mut self)
        requires
            old(self).current <= old(self).lookups@.len(),
            old(self).results@.len() == old(self).current,
        ensures
            (final(self).results@, final(self).current as int) == settle_spec(
                old(self).lookups@,
                old(self).task_id,
                old(self).results@,
                old(self).current as int,
            ),
            final(self).lookups == old(self).lookups,
            final(self).task_id == old(self).task_id,
            final(self).phrase == 0,
            final(self).wf(),
    {
        self.phrase = 0;
        while self.current < self.lookups.len() && self.lookups[self.current].phrases.len() == 0
            invariant
                self.current <= self.lookups@.len(),
                self.results@.len() == self.current,
                self.lookups == old(self).lookups,
                self.task_id == old(self).task_id,
                self.phrase == 0,
                settle_spec(self.lookups@, self.task_id, self.results@, self.current as int)
                    == settle_spec(
                    old(self).lookups@,
                    old(self).task_id,
                    old(self).results@,
                    old(self).current as int,
                ),
            decreases self.lookups@.len() - self.current,
        {
            let dictionary_id = self.lookups[self.current].dictionary_id;
            self.results.push(TaskToDict { task_id: self.task_id, dictionary_id, contains: false });
            self.current = self.current + 1;
        }
    }

    /// A matcher at the first phrase of the first lookup that has phrases.
    pub fn new(task_id: u128, lookups: Vec<DictionaryLookup>) -> (r: DictionaryMatcher)
        ensures
            r.task_id == task_id,
            r.lookups == lookups,
            (r.results@, r.current as int) == settle_spec(lookups@, task_id, Seq::empty(), 0),
            r.phrase == 0,
            r.wf(),
    {
        let mut matcher = DictionaryMatcher {
            task_id,
            lookups,
            current: 0,
            phrase: 0,
            results: Vec::new(),
        };
        matcher.settle();
        matcher
    }

    /// The phrase to search for next and the channel to search in; `None` once
    /// every lookup has an outcome.
    pub fn next_search(&self) -> (r: Option<(String, ParticipantKind)>)
        requires
            self.wf(),
        ensures
            self.current < self.lookups@.len() ==> r == Some((
                self.lookups@[self.current as int].phrases@[self.phrase as int],
                self.lookups@[self.current as int].participant,
            )),
            self.current == self.lookups@.len() ==> r is None,
    {
        if self.current < self.lookups.len() {
            let lookup = &self.lookups[self.current];
            Some((lookup.phrases[self.phrase].clone(), lookup.participant))
        } else {
            None
        }
    }

    /// Takes the answer for the phrase last asked for. A found phrase, or the
    /// last phrase of a lookup, closes the lookup with that answer.
    pub fn record(&mut self, found: bool)
        requires
            old(self).wf(),
            old(self).current < old(self).lookups@.len(),
        ensures
            final(self).wf(),
            final(self).lookups == old(self).lookups,
            final(self).task_id == old(self).task_id,
            ({
                let lookup = old(self).lookups@[old(self).current as int];
                if found || old(self).phrase + 1 >= lookup.phrases@.len() {
                    &&& (final(self).results@, final(self).current as int) == settle_spec(
                        old(self).lookups@,
                        old(self).task_id,
                        old(self).results@.push(outcome(old(self).task_id, lookup, found)),
                        old(self).current + 1,
                    )
                    &&& final(self).phrase == 0
                } else {
                    &&& final(self).results == old(self).results
                    &&& final(self).current == old(self).current
                    &&& final(self).phrase == old(self).phrase + 1
                }
            }),
    {
        let count = self.lookups[self.current].phrases.len();
        let total = self.lookups.len();
        assert(self.current < total);
        if found || self.phrase + 1 >= count {
            let dictionary_id = self.lookups[self.current].dictionary_id;
            self.results.push(TaskToDict { task_id: self.task_id, dictionary_id, contains: found });
            self.current = self.current + 1;
            self.settle();
        } else {
            self.phrase = self.phrase + 1;
        }
    }

    /// Whether every lookup has an outcome.
    pub fn is_done(&self) -> (r: bool)
        requires
            self.wf(),
        ensures
            r == (self.current == self.lookups@.len()),
    {
        self.current == self.lookups.len()
    }

    /// The outcomes recorded so far, one per finished lookup, in lookup order.
    pub fn finish(self) -> (r: Vec<TaskToDict>)
        ensures
            r@ == self.results@,
    {
        self.results
    }
}

} // verus!

//! Grouping of rows by a key.

use vstd::prelude::*;

verus! {

/// A row that belongs to a group named by an integer key.
pub trait Keyed {
    /// The key of the row.
    spec fn group_key(&self) -> i128;

    /// The key of the row.
    fn key(&self) -> (r: i128)
        ensures
            r == self.group_key(),
    ;
}

/// Position of the group keyed `key`, if there is one.
pub open spec fn group_index<T>(groups: Seq<(i128, Seq<T>)>, key: i128) -> Option<int>
    decreases groups.len(),
{
    if groups.len() == 0 {
        None
    } else if groups.last().0 == key {
        Some(groups.len() - 1)
    } else {
        group_index(groups.drop_last(), key)
    }
}

/// The rows grouped by key: one group per distinct key, in the order in which
/// keys first occur, each holding its rows in the order they came.
pub open spec fn grouped<T: Keyed>(items: Seq<T>) -> Seq<(i128, Seq<T>)>
    decreases items.len(),
{
    if items.len() == 0 {
        Seq::empty()
    } else {
        let groups = grouped(items.drop_last());
        let item = items.last();
        match group_index(groups, item.group_key()) {
            Some(j) => groups.update(j, (groups[j].0, groups[j].1.push(item))),
            None => groups.push((item.group_key(), seq![item])),
        }
    }
}

proof fn lemma_group_index_found<T>(groups: Seq<(i128, Seq<T>)>, key: i128)
    ensures
        group_index(groups, key) matches Some(j) ==> 0 <= j < groups.len() && groups[j].0 == key,
        group_index(groups, key) is None ==> forall|j: int|
            0 <= j < groups.len() ==> (#[trigger] groups[j]).0 != key,
    decreases groups.len(),
{
    if groups.len() > 0 {
        lemma_group_index_found(groups.drop_last(), key);
        if groups.last().0 != key {
            assert forall|j: int| 0 <= j < groups.len() - 1 implies (#[trigger] groups[j]).0
                == groups.drop_last()[j].0 by {}
        }
    }
}

/// The view of a vector of groups.
pub open spec fn groups_view<T>(groups: Seq<(i128, Vec<T>)>) -> Seq<(i128, Seq<T>)> {
    groups.map_values(|g: (i128, Vec<T>)| (g.0, g.1@))
}

fn find_group<T>(groups: &Vec<(i128, Vec<T>)>, key: i128) -> (r: Option<usize>)
    ensures
        r matches Some(j) ==> group_index(groups_view(groups@), key) == Some(j as int),
        r is None ==> group_index(groups_view(groups@), key) is None,
{
    let ghost view = groups_view(groups@);
    let mut i: usize = groups.len();
    assert(view.subrange(0, i as int) =~= view);
    while i > 0
        invariant
            i <= groups@.len(),
            view == groups_view(groups@),
            group_index(view, key) == group_index(view.subrange(0, i as int), key),
        decreases i,
    {
        assert(view.subrange(0, i as int).drop_last() =~= view.subrange(0, i - 1));
        if groups[i - 1].0 == key {
            return Some(i - 1);
        }
        i -= 1;
    }
    None
}

/// Groups the rows by key: one group per distinct key, in the order in which
/// keys first occur, each holding its rows in the order they came.
pub fn group_by<T: Keyed>(items: Vec<T>) -> (r: Vec<(i128, Vec<T>)>)
    ensures
        groups_view(r@) == grouped(items@),
{
    let ghost all = items@;
    let count = items.len();
    let mut items = items;
    let mut reversed: Vec<T> = Vec::new();
    while items.len() > 0
        invariant
            all == items@ + reversed@.reverse(),
        decreases items@.len(),
    {
        match items.pop() {
            Some(item) => {
                reversed.push(item);
            },
            None => {},
        }
        assert(all =~= items@ + reversed@.reverse());
    }
    assert(reversed@.reverse() =~= all);
    let mut groups: Vec<(i128, Vec<T>)> = Vec::new();
    let mut done: usize = 0;
    while reversed.len() > 0
        invariant
            reversed@.reverse() == all.subrange(done as int, all.len() as int),
            done + reversed@.len() == all.len(),
            all.len() == count,
            groups_view(groups@) == grouped(all.subrange(0, done as int)),
        decreases reversed@.len(),
    {
        let ghost before = reversed@;
        match reversed.pop() {
            Some(item) => {
                assert(item == all[done as int]) by {
                    assert(before.reverse()[0] == before.last());
                }
                assert(all.subrange(0, done + 1).drop_last() =~= all.subrange(0, done as int));
                let key = item.key();
                proof {
                    lemma_group_index_found(groups_view(groups@), key);
                }
                match find_group(&groups, key) {
                    Some(j) => {
                        let (k, mut members) = groups.remove(j);
                        members.push(item);
                        groups.insert(j, (k, members));
                        assert(groups_view(groups@) =~= grouped(all.subrange(0, done + 1)));
                    },
                    None => {
                        let mut members: Vec<T> = Vec::new();
                        members.push(item);
                        groups.push((key, members));
                        assert(groups_view(groups@) =~= grouped(all.subrange(0, done + 1)));
                    },
                }
                assert(reversed@ == before.drop_last());
                assert(before.drop_last().reverse() =~= before.reverse().subrange(1, before.len() as int));
                done += 1;
                assert(reversed@.reverse() =~= all.subrange(done as int, all.len() as int));
            },
            None => {},
        }
    }
    assert(all.subrange(0, done as int) =~= all);
    groups
}

} // verus!

//! The ordered list of entries and the operations on it.

use vstd::prelude::*;

use crate::entry::{new_due, updated, Entry, EntryModel, FieldUpdates};
use crate::error::TaskError;

verus! {

/// The models of the entries of `v`, in order.
pub open spec fn models(v: Seq<Entry>) -> Seq<EntryModel> {
    v.map_values(|e: Entry| e@)
}

/// Whether some entry of `s` has id `id`.
pub open spec fn has_id(s: Seq<EntryModel>, id: usize) -> bool {
    exists|i: int| 0 <= i < s.len() && (#[trigger] s[i]).id == id
}

/// The position of the first entry of `s` with id `id`; meaningful where
/// `has_id(s, id)`.
pub open spec fn first_with_id(s: Seq<EntryModel>, id: usize) -> int
    decreases s.len(),
{
    if s.len() == 0 {
        0
    } else if s[0].id == id {
        0
    } else {
        1 + first_with_id(s.drop_first(), id)
    }
}

/// The largest id in `s`, or 0 where `s` is empty.
pub open spec fn max_id(s: Seq<EntryModel>) -> nat
    decreases s.len(),
{
    if s.len() == 0 {
        0
    } else {
        let m = max_id(s.drop_last());
        if s.last().id > m {
            s.last().id as nat
        } else {
            m
        }
    }
}

/// The groups of `s`, each once, in the order in which they first occur.
pub open spec fn distinct_groups_of(s: Seq<EntryModel>) -> Seq<Seq<char>>
    decreases s.len(),
{
    if s.len() == 0 {
        Seq::empty()
    } else {
        let r = distinct_groups_of(s.drop_last());
        if r.contains(s.last().group) {
            r
        } else {
            r.push(s.last().group)
        }
    }
}

/// `s` with every id replaced by the entry's position.
pub open spec fn reindexed(s: Seq<EntryModel>) -> Seq<EntryModel> {
    Seq::new(s.len(), |i: int| EntryModel { id: i as usize, ..s[i] })
}

/// Whether the entry at `i` comes before the one at `j` in due order:
/// earlier due time first, and the earlier position among equal due times.
pub open spec fn due_before(s: Seq<EntryModel>, i: int, j: int) -> bool {
    s[i].date < s[j].date || (s[i].date == s[j].date && i < j)
}

/// Whether `order` lists every position of `s` once, in due order.
pub open spec fn is_due_order(s: Seq<EntryModel>, order: Seq<usize>) -> bool {
    &&& order.len() == s.len()
    &&& forall|k: int| 0 <= k < order.len() ==> (#[trigger] order[k]) < s.len()
    &&& forall|a: int, b: int|
        0 <= a < b < order.len() ==> due_before(s, #[trigger] order[a] as int, #[trigger] order[b] as int)
}

proof fn lemma_max_id_bound(s: Seq<EntryModel>)
    ensures
        forall|i: int| 0 <= i < s.len() ==> (#[trigger] s[i]).id <= max_id(s),
        s.len() == 0 || exists|i: int| 0 <= i < s.len() && (#[trigger] s[i]).id == max_id(s),
    decreases s.len(),
{
    if s.len() > 0 {
        let t = s.drop_last();
        lemma_max_id_bound(t);
        assert forall|i: int| 0 <= i < s.len() implies (#[trigger] s[i]).id <= max_id(s) by {
            if i < s.len() - 1 {
                assert(s[i] == t[i]);
            }
        }
        if s.last().id <= max_id(t) && t.len() > 0 {
            let i = choose|i: int| 0 <= i < t.len() && (#[trigger] t[i]).id == max_id(t);
            assert(s[i] == t[i]);
        } else {
            assert(s[s.len() - 1].id == max_id(s));
        }
    }
}

/// The largest id among `entries`, or 0 where there are none.
pub fn highest_entry_id(entries: &Vec<Entry>) -> (r: usize)
    ensures
        r == max_id(models(entries@)),
        forall|i: int| 0 <= i < entries@.len() ==> (#[trigger] entries@[i]).id <= r,
        entries@.len() == 0 || exists|i: int| 0 <= i < entries@.len() && (#[trigger] entries@[i]).id == r,
{
    let mut highest: usize = 0;
    let mut i: usize = 0;
    while i < entries.len()
        invariant
            i <= entries.len(),
            highest == max_id(models(entries@).take(i as int)),
        decreases entries.len() - i,
    {
        proof {
            let s = models(entries@);
            assert(s.take(i + 1).drop_last() =~= s.take(i as int));
        }
        if entries[i].id > highest {
            highest = entries[i].id;
        }
        i = i + 1;
    }
    assert(models(entries@).take(i as int) =~= models(entries@));
    proof {
        let s = models(entries@);
        lemma_max_id_bound(s);
        assert forall|i: int| 0 <= i < entries@.len() implies (#[trigger] entries@[i]).id <= highest by {
            assert(s[i].id == entries@[i].id);
        }
        if entries@.len() > 0 {
            let i = choose|i: int| 0 <= i < s.len() && (#[trigger] s[i]).id == max_id(s);
            assert(entries@[i].id == highest);
        }
    }
    highest
}

/// Appends an entry with the next free id, one above the largest, and
/// returns that id.
pub fn add_entry(entries: &mut Vec<Entry>, group: String, date: i64, desc: String) -> (r: usize)
    requires
        max_id(models(old(entries)@)) < usize::MAX,
    ensures
        r == max_id(models(old(entries)@)) + 1,
        models(final(entries)@) == models(old(entries)@).push(
            EntryModel { id: r, group: group@, date, desc: desc@ },
        ),
{
    let id = highest_entry_id(entries) + 1;
    entries.push(Entry::from_elements(id, group, date, desc));
    assert(models(entries@) =~= models(old(entries)@).push(
        EntryModel { id, group: group@, date, desc: desc@ },
    ));
    id
}

/// The position of the first entry with id `id`, if any.
pub fn find_by_id(entries: &Vec<Entry>, id: usize) -> (r: Option<usize>)
    ensures
        match r {
            Some(i) => {
                &&& has_id(models(entries@), id)
                &&& i == first_with_id(models(entries@), id)
                &&& i < entries@.len()
                &&& entries@[i as int].id == id
            },
            None => !has_id(models(entries@), id),
        },
{
    let ghost s = models(entries@);
    let mut i: usize = 0;
    assert(s.skip(0) =~= s);
    while i < entries.len()
        invariant
            i <= entries.len(),
            s == models(entries@),
            forall|k: int| 0 <= k < i ==> (#[trigger] s[k]).id != id,
            first_with_id(s, id) == i + first_with_id(s.skip(i as int), id),
        decreases entries.len() - i,
    {
        proof {
            assert(s.skip(i as int).drop_first() =~= s.skip(i + 1));
        }
        if entries[i].id == id {
            assert(s[i as int].id == id);
            return Some(i);
        }
        i = i + 1;
    }
    None
}

/// Removes the first entry with id `id` and returns it; the others keep
/// their ids and their order.
pub fn delete_entry(entries: &mut Vec<Entry>, id: usize) -> (r: Result<Entry, TaskError>)
    ensures
        has_id(models(old(entries)@), id) ==> {
            let i = first_with_id(models(old(entries)@), id);
            &&& r matches Ok(e) && e@ == models(old(entries)@)[i]
            &&& models(final(entries)@) == models(old(entries)@).remove(i)
        },
        !has_id(models(old(entries)@), id) ==> r == Err::<Entry, TaskError>(
            TaskError::EntryNotFound,
        ) && final(entries)@ == old(entries)@,
{
    match find_by_id(entries, id) {
        Some(i) => {
            let e = entries.remove(i);
            assert(models(entries@) =~= models(old(entries)@).remove(i as int));
            Ok(e)
        },
        None => Err(TaskError::EntryNotFound),
    }
}

/// Applies `updates` to the first entry with id `id`. Nothing changes where
/// there is no such entry or the new date does not read.
pub fn update_entry(entries: &mut Vec<Entry>, id: usize, updates: &FieldUpdates) -> (r: Result<
    (),
    TaskError,
>)
    ensures
        !has_id(models(old(entries)@), id) ==> r == Err::<(), TaskError>(TaskError::EntryNotFound)
            && final(entries)@ == old(entries)@,
        has_id(models(old(entries)@), id) ==> {
            let i = first_with_id(models(old(entries)@), id);
            match new_due(*updates, old(entries)@[i].date) {
                Some(due) => r is Ok && models(final(entries)@) == models(old(entries)@).update(
                    i,
                    updated(models(old(entries)@)[i], *updates, due),
                ),
                None => r == Err::<(), TaskError>(TaskError::InvalidDateFormat) && models(
                    final(entries)@,
                ) == models(old(entries)@),
            }
        },
{
    match find_by_id(entries, id) {
        Some(i) => {
            let r = entries[i].update_values(updates);
            proof {
                if r is Ok {
                    assert(models(entries@) =~= models(old(entries)@).update(
                        i as int,
                        entries@[i as int]@,
                    ));
                } else {
                    assert(models(entries@) =~= models(old(entries)@));
                }
            }
            r
        },
        None => Err(TaskError::EntryNotFound),
    }
}

/// Renumbers the entries from 0 in their current order.
pub fn reindex(entries: &mut Vec<Entry>)
    ensures
        models(final(entries)@) == reindexed(models(old(entries)@)),
{
    let mut i: usize = 0;
    while i < entries.len()
        invariant
            i <= entries.len(),
            entries@.len() == old(entries)@.len(),
            forall|k: int|
                0 <= k < entries@.len() ==> (#[trigger] entries@[k])@ == if k < i {
                    EntryModel { id: k as usize, ..old(entries)@[k]@ }
                } else {
                    old(entries)@[k]@
                },
        decreases entries.len() - i,
    {
        entries[i].id = i;
        i = i + 1;
    }
    assert(models(entries@) =~= reindexed(models(old(entries)@)));
}

/// The group labels of `entries`, each once, in the order in which they
/// first occur.
pub fn distinct_groups(entries: &Vec<Entry>) -> (r: Vec<String>)
    ensures
        r@.map_values(|g: String| g@) == distinct_groups_of(models(entries@)),
{
    let ghost s = models(entries@);
    let mut groups: Vec<String> = Vec::new();
    let mut i: usize = 0;
    while i < entries.len()
        invariant
            i <= entries.len(),
            s == models(entries@),
            groups@.map_values(|g: String| g@) == distinct_groups_of(s.take(i as int)),
        decreases entries.len() - i,
    {
        let ghost seen = groups@.map_values(|g: String| g@);
        let mut found = false;
        let mut j: usize = 0;
        while j < groups.len()
            invariant
                i < entries.len(),
                j <= groups.len(),
                seen == groups@.map_values(|g: String| g@),
                found == exists|k: int| 0 <= k < j && seen[k] == entries@[i as int].group@,
            decreases groups.len() - j,
        {
            assert(seen[j as int] == groups@[j as int]@);
            if groups[j] == entries[i].group {
                found = true;
            }
            j = j + 1;
        }
        proof {
            assert(s.take(i + 1).drop_last() =~= s.take(i as int));
            assert(s.take(i + 1).last() == s[i as int]);
            if seen.contains(s[i as int].group) {
                let k = choose|k: int| 0 <= k < seen.len() && seen[k] == s[i as int].group;
                assert(found);
            }
        }
        if !found {
            groups.push(entries[i].group.clone());
            assert(groups@.map_values(|g: String| g@) =~= seen.push(s[i as int].group));
        }
        i = i + 1;
    }
    assert(s.take(i as int) =~= s);
    groups
}

/// The positions of `entries` in due order: earliest due time first, and
/// entries with equal due times in their stored order. The entries
/// themselves are not moved.
pub fn sorted_by_due(entries: &Vec<Entry>) -> (r: Vec<usize>)
    ensures
        is_due_order(models(entries@), r@),
{
    let ghost s = models(entries@);
    let mut order: Vec<usize> = Vec::new();
    let mut i: usize = 0;
    while i < entries.len()
        invariant
            i <= entries.len(),
            s == models(entries@),
            order@.len() == i,
            forall|k: int| 0 <= k < order@.len() ==> (#[trigger] order@[k]) < i,
            forall|a: int, b: int|
                0 <= a < b < order@.len() ==> due_before(s, #[trigger] order@[a] as int, #[trigger] order@[b] as int),
        decreases entries.len() - i,
    {
        let d = entries[i].date;
        let mut p: usize = 0;
        while p < order.len() && entries[order[p]].date <= d
            invariant
                i < entries.len(),
                p <= order@.len(),
                s == models(entries@),
                forall|k: int| 0 <= k < order@.len() ==> (#[trigger] order@[k]) < i,
                forall|k: int| 0 <= k < p ==> s[#[trigger] order@[k] as int].date <= d,
            decreases order.len() - p,
        {
            p = p + 1;
        }
        let ghost old_order = order@;
        order.insert(p, i);
        proof {
            assert(s[i as int].date == d);
            assert forall|k: int| 0 <= k < order@.len() implies (#[trigger] order@[k]) < i + 1 by {
                if k < p {
                    assert(order@[k] == old_order[k]);
                } else if k > p {
                    assert(order@[k] == old_order[k - 1]);
                }
            }
            assert forall|a: int, b: int|
                0 <= a < b < order@.len() implies due_before(s, #[trigger] order@[a] as int, #[trigger] order@[b] as int) by {
                if b < p {
                    assert(order@[a] == old_order[a] && order@[b] == old_order[b]);
                } else if b == p {
                    assert(order@[a] == old_order[a]);
                    assert(s[old_order[a] as int].date <= d);
                } else if a == p {
                    assert(order@[b] == old_order[b - 1]);
                    assert(s[old_order[p as int] as int].date > d);
                    if b - 1 > p {
                        assert(due_before(s, old_order[p as int] as int, old_order[b - 1] as int));
                    }
                } else if a < p {
                    assert(order@[a] == old_order[a] && order@[b] == old_order[b - 1]);
                } else {
                    assert(order@[a] == old_order[a - 1] && order@[b] == old_order[b - 1]);
                }
            }
        }
        i = i + 1;
    }
    order
}

} // verus!

use vstd::prelude::*;

verus! {

/// The map that a list of named entries spells out: a later entry replaces an
/// earlier one of the same name.
pub open spec fn assoc_map<K, V>(entries: Seq<(K, V)>) -> Map<K, V>
    decreases entries.len(),
{
    if entries.len() == 0 {
        Map::empty()
    } else {
        assoc_map(entries.drop_last()).insert(entries.last().0, entries.last().1)
    }
}

/// A name is in the map exactly when some entry bears it.
pub proof fn lemma_assoc_dom<K, V>(entries: Seq<(K, V)>, key: K)
    ensures
        assoc_map(entries).dom().contains(key) <==> exists|i: int|
            0 <= i < entries.len() && (#[trigger] entries[i]).0 == key,
    decreases entries.len(),
{
    if entries.len() > 0 {
        let front = entries.drop_last();
        lemma_assoc_dom(front, key);
        if assoc_map(entries).dom().contains(key) {
            if entries.last().0 == key {
                assert(entries[entries.len() - 1].0 == key);
            } else {
                let i = choose|i: int| 0 <= i < front.len() && (#[trigger] front[i]).0 == key;
                assert(entries[i].0 == key);
            }
        }
        if exists|i: int| 0 <= i < entries.len() && (#[trigger] entries[i]).0 == key {
            let i = choose|i: int| 0 <= i < entries.len() && (#[trigger] entries[i]).0 == key;
            if i < entries.len() - 1 {
                assert(front[i].0 == key);
            }
        }
    }
}

/// The map gives a name the value of the last entry that bears it.
pub proof fn lemma_assoc_last<K, V>(entries: Seq<(K, V)>, i: int)
    requires
        0 <= i < entries.len(),
        forall|j: int| i < j < entries.len() ==> (#[trigger] entries[j]).0 != entries[i].0,
    ensures
        assoc_map(entries).dom().contains(entries[i].0),
        assoc_map(entries)[entries[i].0] == entries[i].1,
    decreases entries.len(),
{
    if i < entries.len() - 1 {
        let front = entries.drop_last();
        assert(entries[entries.len() - 1].0 != entries[i].0);
        assert forall|j: int| i < j < front.len() implies (#[trigger] front[j]).0 != front[i].0 by {
            assert(entries[j].0 != entries[i].0);
        }
        lemma_assoc_last(front, i);
    }
}

/// Adding an entry at the end sets its name to its value.
pub proof fn lemma_assoc_push<K, V>(entries: Seq<(K, V)>, key: K, value: V)
    ensures
        assoc_map(entries.push((key, value))) == assoc_map(entries).insert(key, value),
{
    assert(entries.push((key, value)).drop_last() =~= entries);
}

/// Replacing the value of the last entry of a name sets that name to the new
/// value.
pub proof fn lemma_assoc_update<K, V>(entries: Seq<(K, V)>, i: int, value: V)
    requires
        0 <= i < entries.len(),
        forall|j: int| i < j < entries.len() ==> (#[trigger] entries[j]).0 != entries[i].0,
    ensures
        assoc_map(entries.update(i, (entries[i].0, value))) == assoc_map(entries).insert(
            entries[i].0,
            value,
        ),
    decreases entries.len(),
{
    let key = entries[i].0;
    let changed = entries.update(i, (key, value));
    if i == entries.len() - 1 {
        assert(changed.drop_last() =~= entries.drop_last());
        assert(assoc_map(changed) =~= assoc_map(entries).insert(key, value));
    } else {
        let front = entries.drop_last();
        let last = entries.last();
        assert(entries[entries.len() - 1].0 != key);
        assert forall|j: int| i < j < front.len() implies (#[trigger] front[j]).0 != front[i].0 by {
            assert(entries[j].0 != entries[i].0);
        }
        lemma_assoc_update(front, i, value);
        assert(changed.drop_last() =~= front.update(i, (key, value)));
        assert(changed.last() == last);
        assert(assoc_map(changed) =~= assoc_map(entries).insert(key, value));
    }
}

/// Taking out one entry of a name changes nothing for the other names.
pub proof fn lemma_assoc_remove<K, V>(entries: Seq<(K, V)>, i: int)
    requires
        0 <= i < entries.len(),
    ensures
        assoc_map(entries.remove(i)).remove(entries[i].0) == assoc_map(entries).remove(
            entries[i].0,
        ),
    decreases entries.len(),
{
    let key = entries[i].0;
    let front = entries.drop_last();
    let last = entries.last();
    if i == entries.len() - 1 {
        assert(entries.remove(i) =~= front);
        assert(assoc_map(front).remove(key) =~= assoc_map(entries).remove(key));
    } else {
        lemma_assoc_remove(front, i);
        let fewer = entries.remove(i);
        assert(fewer.drop_last() =~= front.remove(i));
        assert(fewer.last() == last);
        assert(assoc_map(fewer).remove(key) =~= assoc_map(front.remove(i)).remove(key).insert(
            last.0,
            last.1,
        ).remove(key));
        assert(assoc_map(entries).remove(key) =~= assoc_map(front).remove(key).insert(
            last.0,
            last.1,
        ).remove(key));
    }
}

/// No two entries bear the same name.
pub open spec fn distinct_keys<K, V>(entries: Seq<(K, V)>) -> bool {
    forall|i: int, j: int|
        0 <= i < j < entries.len() ==> (#[trigger] entries[i]).0 != (#[trigger] entries[j]).0
}

/// A list of entries with distinct names spells a map with as many names.
pub proof fn lemma_assoc_len<K, V>(entries: Seq<(K, V)>)
    requires
        distinct_keys(entries),
    ensures
        assoc_map(entries).dom().finite(),
        assoc_map(entries).dom().len() == entries.len(),
    decreases entries.len(),
{
    if entries.len() > 0 {
        let front = entries.drop_last();
        assert(distinct_keys(front)) by {
            assert forall|i: int, j: int| 0 <= i < j < front.len() implies (#[trigger] front[i]).0
                != (#[trigger] front[j]).0 by {
                assert(entries[i].0 != entries[j].0);
            }
        }
        lemma_assoc_len(front);
        lemma_assoc_dom(front, entries.last().0);
        if assoc_map(front).dom().contains(entries.last().0) {
            let i = choose|i: int| 0 <= i < front.len() && (#[trigger] front[i]).0 == entries.last().0;
            assert(entries[i].0 != entries[entries.len() - 1].0);
        }
    }
}

} // verus!

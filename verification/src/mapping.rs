//! Lists of pairs that stand for a mapping from text to values: no key
//! occurs twice, and the order of the keys is kept.

use vstd::prelude::*;

verus! {

/// `key` occurs as a key of `entries`.
pub open spec fn has_key<V>(entries: Seq<(Seq<char>, V)>, key: Seq<char>) -> bool {
    exists|i: int| 0 <= i < entries.len() && (#[trigger] entries[i]).0 == key
}

/// No key occurs twice in `entries`.
pub open spec fn unique_keys<V>(entries: Seq<(Seq<char>, V)>) -> bool {
    forall|i: int, j: int|
        0 <= i < entries.len() && 0 <= j < entries.len() && i != j ==> (#[trigger] entries[i]).0 != (
        #[trigger] entries[j]).0
}

/// `entries` with `value` under `key`: in the place of the value that
/// `key` had, or behind the other entries where it had none.
pub open spec fn put<V>(entries: Seq<(Seq<char>, V)>, key: Seq<char>, value: V) -> Seq<
    (Seq<char>, V),
> {
    if has_key(entries, key) {
        entries.map_values(
            |e: (Seq<char>, V)|
                if e.0 == key {
                    (key, value)
                } else {
                    e
                },
        )
    } else {
        entries.push((key, value))
    }
}

/// The mapping that a list of pairs stands for, as a list without a
/// repeated key: each key at the place of its first occurrence, with the
/// value of its last.
pub open spec fn merged<V>(pairs: Seq<(Seq<char>, V)>) -> Seq<(Seq<char>, V)>
    decreases pairs.len(),
{
    if pairs.len() == 0 {
        Seq::empty()
    } else {
        put(merged(pairs.drop_last()), pairs.last().0, pairs.last().1)
    }
}

/// The value of the last pair of `pairs` with key `key`.
pub open spec fn last_value<V>(pairs: Seq<(Seq<char>, V)>, key: Seq<char>) -> Option<V>
    decreases pairs.len(),
{
    if pairs.len() == 0 {
        None
    } else if pairs.last().0 == key {
        Some(pairs.last().1)
    } else {
        last_value(pairs.drop_last(), key)
    }
}

/// A merged list is a mapping: no key occurs twice, and each key of the
/// pairs has the value of its last pair.
pub proof fn lemma_merged_is_mapping<V>(pairs: Seq<(Seq<char>, V)>)
    ensures
        unique_keys(merged(pairs)),
        forall|key: Seq<char>| has_key(merged(pairs), key) <==> has_key(pairs, key),
        forall|i: int|
            0 <= i < merged(pairs).len() ==> last_value(pairs, (#[trigger] merged(pairs)[i]).0)
                == Some(merged(pairs)[i].1),
    decreases pairs.len(),
{
    if pairs.len() > 0 {
        let rest = pairs.drop_last();
        let before = merged(rest);
        let key = pairs.last().0;
        let value = pairs.last().1;
        let after = merged(pairs);
        lemma_merged_is_mapping(rest);
        assert forall|k: Seq<char>| has_key(after, k) <==> has_key(pairs, k) by {
            if has_key(after, k) {
                let i = choose|i: int| 0 <= i < after.len() && (#[trigger] after[i]).0 == k;
                if k == key {
                    assert(pairs[pairs.len() - 1].0 == k);
                } else {
                    assert(before[i].0 == k);
                    assert(has_key(rest, k));
                    let j = choose|j: int| 0 <= j < rest.len() && (#[trigger] rest[j]).0 == k;
                    assert(pairs[j].0 == k);
                }
            }
            if has_key(pairs, k) {
                let j = choose|j: int| 0 <= j < pairs.len() && (#[trigger] pairs[j]).0 == k;
                if k == key {
                    if has_key(before, key) {
                        let i = choose|i: int|
                            0 <= i < before.len() && (#[trigger] before[i]).0 == key;
                        assert(after[i].0 == key);
                    } else {
                        assert(after[before.len() as int].0 == key);
                    }
                } else {
                    assert(rest[j].0 == k);
                    assert(has_key(rest, k));
                    assert(has_key(before, k));
                    let i = choose|i: int| 0 <= i < before.len() && (#[trigger] before[i]).0 == k;
                    assert(after[i].0 == k);
                }
            }
        }
        assert forall|i: int, j: int|
            0 <= i < after.len() && 0 <= j < after.len() && i != j implies (#[trigger] after[i]).0
            != (#[trigger] after[j]).0 by {
            if has_key(before, key) {
                assert(after[i].0 == before[i].0);
                assert(after[j].0 == before[j].0);
            } else {
                if i < before.len() && j < before.len() {
                    assert(after[i].0 == before[i].0);
                    assert(after[j].0 == before[j].0);
                } else if i < before.len() {
                    assert(after[i].0 == before[i].0);
                } else {
                    assert(after[j].0 == before[j].0);
                }
            }
        }
        assert forall|i: int| 0 <= i < after.len() implies last_value(
            pairs,
            (#[trigger] after[i]).0,
        ) == Some(after[i].1) by {
            if after[i].0 != key {
                assert(after[i] == before[i]);
            }
        }
    }
}

/// The place of `key` in `entries`.
pub fn position<V: DeepView>(entries: &Vec<(String, V)>, key: &String) -> (r: Option<usize>)
    ensures
        r matches Some(i) ==> i < entries.len() && entries.deep_view()[i as int].0 == key@,
        r is None ==> !has_key(entries.deep_view(), key@),
{
    let mut i: usize = 0;
    while i < entries.len()
        invariant
            i <= entries.len(),
            forall|j: int| 0 <= j < i ==> (#[trigger] entries.deep_view()[j]).0 != key@,
        decreases entries.len() - i,
    {
        assert(entries.deep_view()[i as int].0 == entries[i as int].0@);
        if entries[i].0 == *key {
            return Some(i);
        }
        i += 1;
    }
    None
}

/// Puts `value` under `key` in a list without a repeated key.
pub fn put_entry<V: DeepView>(entries: &mut Vec<(String, V)>, key: String, value: V)
    requires
        unique_keys(old(entries).deep_view()),
    ensures
        final(entries).deep_view() == put(old(entries).deep_view(), key@, value.deep_view()),
        unique_keys(final(entries).deep_view()),
{
    let ghost before = entries.deep_view();
    let mut i: usize = 0;
    while i < entries.len()
        invariant
            i <= entries.len(),
            entries.deep_view() == before,
            before == old(entries).deep_view(),
            unique_keys(before),
            forall|j: int| 0 <= j < i ==> (#[trigger] before[j]).0 != key@,
        decreases entries.len() - i,
    {
        assert(before[i as int].0 == entries[i as int].0@);
        if entries[i].0 == key {
            let ghost entry = (key@, value.deep_view());
            entries.set(i, (key, value));
            proof {
                assert(has_key(before, entry.0));
                assert(entries.deep_view() =~= before.update(i as int, entry));
                let wanted = put(before, entry.0, entry.1);
                assert forall|j: int| 0 <= j < before.len() implies before.update(
                    i as int,
                    entry,
                )[j] == #[trigger] wanted[j] by {
                    if j != i {
                        assert(before[j].0 != before[i as int].0);
                    }
                }
                assert(before.update(i as int, entry) =~= wanted);
                assert forall|j: int, k: int|
                    0 <= j < wanted.len() && 0 <= k < wanted.len() && j != k implies (
                #[trigger] wanted[j]).0 != (#[trigger] wanted[k]).0 by {
                    assert(wanted[j].0 == before[j].0);
                    assert(wanted[k].0 == before[k].0);
                }
            }
            return ;
        }
        i += 1;
    }
    let ghost entry = (key@, value.deep_view());
    entries.push((key, value));
    proof {
        assert(!has_key(before, entry.0));
        assert(entries.deep_view() =~= before.push(entry));
    }
}

} // verus!

//! Building and pruning maps.

use std::collections::HashMap;
use vstd::hash_map::StringHashMap;
use vstd::prelude::*;
use vstd::std_specs::hash::*;
use vstd::string::*;

verus! {

broadcast use group_hash_axioms;

/// The map that holds, for each key among `pairs`, the text that the last
/// pair with that key gives it.
pub open spec fn map_of_pairs(pairs: Seq<(i32, String)>) -> Map<i32, Seq<char>>
    decreases pairs.len(),
{
    if pairs.len() == 0 {
        Map::empty()
    } else {
        map_of_pairs(pairs.drop_last()).insert(pairs.last().0, pairs.last().1@)
    }
}

/// The texts that a map's strings hold, under the same keys.
pub open spec fn text_values<K>(m: Map<K, String>) -> Map<K, Seq<char>> {
    m.map_values(|s: String| s@)
}

/// The map from each pair's number to its string; of two pairs with the
/// same number the later one counts.
pub fn vector_to_hashmap(v: &Vec<(i32, String)>) -> (map: HashMap<i32, String>)
    ensures
        text_values(map@) == map_of_pairs(v@),
{
    let mut map: HashMap<i32, String> = HashMap::new();
    let mut i: usize = 0;
    proof {
        assert(v@.take(0) =~= Seq::<(i32, String)>::empty());
        assert(text_values(map@) =~= Map::<i32, Seq<char>>::empty());
    }
    while i < v.len()
        invariant
            i <= v.len(),
            text_values(map@) == map_of_pairs(v@.take(i as int)),
        decreases v.len() - i,
    {
        let ghost before = map@;
        let key = v[i].0;
        let text = v[i].1.clone();
        map.insert(key, text);
        proof {
            assert(v@.take(i + 1).drop_last() =~= v@.take(i as int));
            assert(v@.take(i + 1).last() == v@[i as int]);
            assert(text_values(map@) =~= text_values(before).insert(key, v@[i as int].1@));
        }
        i += 1;
    }
    proof {
        assert(v@.take(v@.len() as int) =~= v@);
    }
    map
}

/// The texts of the pairs.
pub open spec fn pair_texts(pairs: Seq<(String, String)>) -> Seq<(Seq<char>, Seq<char>)> {
    Seq::new(pairs.len(), |i: int| (pairs[i].0@, pairs[i].1@))
}

/// The map `m` after each of the entries `add` was merged into it in
/// turn: the value of an entry whose key the map holds is appended to the
/// map's value, and an entry whose key the map lacks is put in.
pub open spec fn merged_with(
    m: Map<Seq<char>, Seq<char>>,
    add: Seq<(Seq<char>, Seq<char>)>,
) -> Map<Seq<char>, Seq<char>>
    decreases add.len(),
{
    if add.len() == 0 {
        m
    } else {
        let before = merged_with(m, add.drop_last());
        let key = add.last().0;
        let value = add.last().1;
        if before.contains_key(key) {
            before.insert(key, before[key] + value)
        } else {
            before.insert(key, value)
        }
    }
}

/// Merges the entries `add` into `merged`, in order: where `merged`
/// holds an entry's key, the entry's value is appended to the value
/// held; where it does not, the entry is put in.
pub fn merge_maps(merged: &mut StringHashMap<String>, add: Vec<(String, String)>)
    ensures
        text_values(final(merged)@) == merged_with(text_values(old(merged)@), pair_texts(add@)),
{
    let ghost start = text_values(merged@);
    let ghost entries = pair_texts(add@);
    let mut i: usize = 0;
    proof {
        assert(entries.take(0) =~= Seq::<(Seq<char>, Seq<char>)>::empty());
    }
    while i < add.len()
        invariant
            i <= add.len(),
            entries == pair_texts(add@),
            text_values(merged@) == merged_with(start, entries.take(i as int)),
        decreases add.len() - i,
    {
        let ghost before = merged@;
        let key = add[i].0.clone();
        let combined = match merged.get(add[i].0.as_str()) {
            Some(held) => {
                let mut longer = held.clone();
                longer.append(add[i].1.as_str());
                longer
            },
            None => add[i].1.clone(),
        };
        merged.insert(key, combined);
        proof {
            assert(entries.take(i + 1).drop_last() =~= entries.take(i as int));
            assert(entries.take(i + 1).last() == entries[i as int]);
            assert(text_values(before).contains_key(add@[i as int].0@) == before.contains_key(
                add@[i as int].0@,
            ));
            assert(text_values(merged@) =~= text_values(before).insert(
                add@[i as int].0@,
                combined@,
            ));
        }
        i += 1;
    }
    proof {
        assert(entries.take(add@.len() as int) =~= entries);
    }
}

/// Removes every entry whose key is below zero.
pub fn delete_negative_keys(h: &mut HashMap<i32, i32>)
    ensures
        final(h)@ == old(h)@.remove_keys(Set::new(|k: i32| k < 0)),
{
    let mut ks: Vec<i32> = Vec::new();
    for k in it: h.keys()
        invariant
            forall|j: int| 0 <= j < ks@.len() ==> #[trigger] ks@[j] < 0,
            forall|j: int|
                0 <= j < it.index() && *it.seq()[j] < 0 ==> ks@.contains(*#[trigger] it.seq()[j]),
    {
        let ghost before = ks@;
        if *k < 0 {
            ks.push(*k);
        }
        proof {
            assert forall|j: int| 0 <= j < it.index() + 1 && *it.seq()[j] < 0 implies ks@.contains(
                *#[trigger] it.seq()[j],
            ) by {
                if j < it.index() {
                    assert(before.contains(*it.seq()[j]));
                    let w = choose|w: int| 0 <= w < before.len() && before[w] == *it.seq()[j];
                    assert(ks@[w] == *it.seq()[j]);
                } else {
                    assert(ks@[ks@.len() - 1] == *k);
                }
            }
        }
    }
    let ghost start = h@;
    assert(forall|k: i32| start.contains_key(k) && k < 0 ==> ks@.contains(k));
    let mut i: usize = 0;
    while i < ks.len()
        invariant
            i <= ks.len(),
            forall|k: i32| start.contains_key(k) && k < 0 ==> ks@.contains(k),
            forall|j: int| 0 <= j < ks@.len() ==> #[trigger] ks@[j] < 0,
            forall|k: i32|
                #![trigger h@.contains_key(k)]
                h@.contains_key(k) <==> start.contains_key(k) && !ks@.take(i as int).contains(k),
            forall|k: i32| h@.contains_key(k) ==> h@[k] == start[k],
        decreases ks.len() - i,
    {
        let ghost before = h@;
        h.remove(&ks[i]);
        proof {
            let gone = ks@[i as int];
            let shorter = ks@.take(i as int);
            let longer = ks@.take(i + 1);
            assert(longer =~= shorter.push(gone));
            assert forall|k: i32| #![trigger h@.contains_key(k)]
                h@.contains_key(k) <==> start.contains_key(k) && !longer.contains(k) by {
                if k == gone {
                    assert(longer[i as int] == gone);
                } else if longer.contains(k) {
                    let w = choose|w: int| 0 <= w < longer.len() && longer[w] == k;
                    assert(shorter[w] == k);
                } else if shorter.contains(k) {
                    let w = choose|w: int| 0 <= w < shorter.len() && shorter[w] == k;
                    assert(longer[w] == k);
                }
            }
        }
        i += 1;
    }
    proof {
        assert(ks@.take(ks@.len() as int) =~= ks@);
        assert forall|k: i32| ks@.contains(k) implies k < 0 by {
            let w = choose|w: int| 0 <= w < ks@.len() && ks@[w] == k;
        }
        let negative = Set::new(|k: i32| k < 0);
        let want = start.remove_keys(negative);
        assert forall|k: i32| h@.contains_key(k) <==> want.contains_key(k) by {
            assert(negative.contains(k) <==> k < 0);
        }
        assert(h@ =~= want);
    }
}

} // verus!

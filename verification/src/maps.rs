//! Maps on the wire: a sequence of entries, each a key and its value.

use crate::common::{ByteEndian, MapEntry};
use crate::decoder::{models, parse_items, parse_slice, scalar_parse, Deserializer, Failure};
use crate::encoder::{wire_seq, wire_slice, Serializer};
use crate::laws::{lemma_slice_round_trip, Lawful};
use std::collections::HashMap;
use std::hash::Hash;
use vstd::prelude::*;
use vstd::std_specs::hash::{group_hash_axioms, obeys_key_model, spec_hash_map_iter};
use vstd::std_specs::iter::IteratorSpec;

verus! {

/// Whether `entries` lists every entry of `map` exactly once.
pub open spec fn is_listing<K, V>(entries: Seq<(K, V)>, map: Map<K, V>) -> bool {
    &&& entries.no_duplicates()
    &&& entries.to_set() == map.kv_pairs()
}

/// The keys and values that `entries` borrow, in order.
pub open spec fn listed<K: Eq + Hash, V>(entries: Seq<MapEntry<&K, &V>>) -> Seq<(K, V)> {
    Seq::new(entries.len(), |i: int| (*entries[i].0, *entries[i].1))
}

/// The keys and values that `entries` own, in order.
pub open spec fn owned<K: Eq + Hash, V>(entries: Seq<MapEntry<K, V>>) -> Seq<(K, V)> {
    Seq::new(entries.len(), |i: int| (entries[i].0, entries[i].1))
}

/// The map that grows when `entries` are inserted one after the other: of
/// two entries with the same key, the later one stays.
pub open spec fn map_of<K, V>(entries: Seq<(K, V)>) -> Map<K, V>
    decreases entries.len(),
{
    if entries.len() == 0 {
        Map::empty()
    } else {
        map_of(entries.drop_last()).insert(entries.last().0, entries.last().1)
    }
}

/// The entries of `value` in the order in which the map hands them out.
pub fn entries_of<'a, K: Eq + Hash, V>(value: &'a HashMap<K, V>) -> (entries: Vec<
    MapEntry<&'a K, &'a V>,
>)
    requires
        obeys_key_model::<K>(),
    ensures
        is_listing(listed(entries@), value@),
{
    broadcast use group_hash_axioms;

    let mut entries: Vec<MapEntry<&K, &V>> = Vec::new();
    for pair in it: value.iter()
        invariant
            it.seq() == spec_hash_map_iter(value).remaining(),
            it.seq().no_duplicates(),
            entries@.len() == it.index(),
            forall|j: int|
                0 <= j < entries@.len() ==> entries@[j].0 == it.seq()[j].0 && entries@[j].1
                    == it.seq()[j].1,
    {
        entries.push(MapEntry(pair.0, pair.1));
    }
    proof {
        let walked = spec_hash_map_iter(value).remaining();
        let pairs = listed(entries@);
        assert(pairs =~= walked.unref());
        assert(pairs.to_set() == value@.kv_pairs());
        assert forall|i: int, j: int|
            0 <= i < pairs.len() && 0 <= j < pairs.len() && i != j implies pairs[i]
            != pairs[j] by {
            assert(walked[i] != walked[j]);
        }
    }
    entries
}

/// Borrowed entries are written as the pairs they borrow.
pub proof fn lemma_wire_of_entries<K: Serializer + Eq + Hash, V: Serializer>(
    entries: Seq<MapEntry<&K, &V>>,
    endian: ByteEndian,
)
    ensures
        wire_seq(entries, endian) == wire_seq(listed(entries), endian),
    decreases entries.len(),
{
    if entries.len() > 0 {
        lemma_wire_of_entries(entries.drop_last(), endian);
        assert(listed(entries).drop_last() =~= listed(entries.drop_last()));
    }
}

/// Builds the map that `entries` describe, by inserting them in order.
pub fn collect_map<K: Eq + Hash, V>(entries: Vec<MapEntry<K, V>>) -> (map: HashMap<K, V>)
    requires
        obeys_key_model::<K>(),
    ensures
        map@ == map_of(owned(entries@)),
{
    broadcast use group_hash_axioms;

    let mut map: HashMap<K, V> = HashMap::with_capacity(entries.len());
    let ghost all = entries@;
    for entry in it: entries.into_iter()
        invariant
            obeys_key_model::<K>(),
            it.seq() == all,
            map@ == map_of(owned(all).take(it.index())),
    {
        proof {
            assert(owned(all).take(it.index() + 1).drop_last() =~= owned(all).take(it.index()));
        }
        map.insert(entry.0, entry.1);
    }
    proof {
        assert(owned(all).take(all.len() as int) =~= owned(all));
    }
    map
}

/// An entry is read as the pair of its key and its value is read.
pub proof fn lemma_entries_parse_as_pairs<K: Deserializer + Eq + Hash, V: Deserializer>(
    input: Seq<u8>,
    at: nat,
    endian: ByteEndian,
    count: nat,
)
    ensures
        parse_items::<MapEntry<K, V>>(input, at, endian, count) == parse_items::<(K, V)>(
            input,
            at,
            endian,
            count,
        ),
    decreases count,
{
    if count > 0 {
        lemma_entries_parse_as_pairs::<K, V>(input, at, endian, (count - 1) as nat);
    }
}

/// The entries of a map that were written are read back, in the order in
/// which they were written.
pub proof fn law_entries_round_trip<K: Lawful + Eq + Hash, V: Lawful>(
    entries: Seq<(K, V)>,
    endian: ByteEndian,
)
    requires
        entries.len() <= usize::MAX,
        forall|i: int| 0 <= i < entries.len() ==> (#[trigger] entries[i]).representable(),
    ensures
        parse_slice::<MapEntry<K, V>>(wire_slice(entries, endian), 0, endian) == Ok::<
            (Seq<(K::Model, V::Model)>, nat),
            Failure,
        >((models(entries), wire_slice(entries, endian).len())),
{
    let wire = wire_slice(entries, endian);
    lemma_slice_round_trip(entries, endian, Seq::empty(), Seq::empty());
    assert(Seq::<u8>::empty() + wire + Seq::<u8>::empty() =~= wire);
    match scalar_parse::<usize, 8>(wire, 0, endian, "u64"@) {
        Ok((count, next)) => {
            lemma_entries_parse_as_pairs::<K, V>(wire, next, endian, count as nat);
        },
        Err(_) => {},
    }
}

/// Inserting the entries of a map, listed in any order, builds that map.
pub proof fn law_map_rebuild<K, V>(entries: Seq<(K, V)>, map: Map<K, V>)
    requires
        is_listing(entries, map),
    ensures
        map_of(entries) == map,
    decreases entries.len(),
{
    if entries.len() == 0 {
        assert forall|k: K| !map.contains_key(k) by {
            if map.contains_key(k) {
                assert(map.kv_pairs().contains((k, map[k])));
                assert(entries.to_set().contains((k, map[k])));
            }
        }
        assert(map =~= Map::<K, V>::empty());
    } else {
        let last = entries.last();
        let init = entries.drop_last();
        let rest = map.remove(last.0);
        assert(entries.to_set().contains(last)) by {
            assert(entries[entries.len() - 1] == last);
        }
        assert(map.kv_pairs().contains(last));
        assert(init.no_duplicates());
        assert forall|pair: (K, V)| init.to_set().contains(pair) <==> rest.kv_pairs().contains(
            pair,
        ) by {
            if init.to_set().contains(pair) {
                let i = choose|i: int| 0 <= i < init.len() && init[i] == pair;
                assert(entries[i] == pair);
                assert(entries.to_set().contains(pair));
                assert(map.kv_pairs().contains(pair));
                assert(pair != last);
            }
            if rest.kv_pairs().contains(pair) {
                assert(map.kv_pairs().contains(pair));
                assert(entries.to_set().contains(pair));
                let i = choose|i: int| 0 <= i < entries.len() && entries[i] == pair;
                assert(init[i] == pair);
            }
        }
        assert(init.to_set() =~= rest.kv_pairs());
        law_map_rebuild(init, rest);
        assert(rest.insert(last.0, last.1) =~= map);
    }
}

} // verus!

//! Tables keyed by text: `FxHashMap` of the `rustc-hash` crate.
use rustc_hash::{FxBuildHasher, FxHashMap};
use vstd::prelude::*;

verus! {

/// `FxBuildHasher` of `rustc-hash`: the hasher that an `FxHashMap` carries.
#[verifier::external_type_specification]
#[verifier::external_body]
pub struct ExFxBuildHasher(FxBuildHasher);

/// What a table keyed by text holds, with each key taken by its characters.
pub open spec fn keyed<V>(m: FxHashMap<String, V>) -> Map<Seq<char>, V> {
    Map::new(
        |k: Seq<char>| exists|s: String| #[trigger] m@.contains_key(s) && s@ == k,
        |k: Seq<char>| m@[choose|s: String| #[trigger] m@.contains_key(s) && s@ == k],
    )
}

/// The contents of a table without entries.
pub open spec fn nothing<V>() -> Map<Seq<char>, V> {
    Map::empty()
}

/// The value stored under a key, if there is one.
pub open spec fn found<V>(m: Map<Seq<char>, V>, k: Seq<char>) -> Option<V> {
    if m.contains_key(k) {
        Some(m[k])
    } else {
        None
    }
}

/// `pairs` lists every entry of `m` exactly once, in some order.
pub open spec fn lists_entries<V>(pairs: Seq<(String, V)>, m: Map<Seq<char>, V>) -> bool {
    &&& forall|i: int, j: int|
        #![trigger pairs[i], pairs[j]]
        0 <= i < j < pairs.len() ==> pairs[i].0@ != pairs[j].0@
    &&& forall|i: int|
        #![trigger pairs[i]]
        0 <= i < pairs.len() ==> m.contains_key(pairs[i].0@) && m[pairs[i].0@] == pairs[i].1
    &&& forall|k: Seq<char>| #[trigger]
        m.contains_key(k) ==> exists|i: int| 0 <= i < pairs.len() && #[trigger] pairs[i].0@ == k
}

/// `FxHashMap::default`: a table without entries.
#[verifier::external_body]
pub(crate) fn empty_table<V>() -> (table: FxHashMap<String, V>)
    ensures
        keyed(table) == nothing::<V>(),
{
    FxHashMap::default()
}

/// `HashMap::insert` on an `FxHashMap`: the key now holds `value`, and the value that it
/// held before is handed back.
#[verifier::external_body]
pub(crate) fn table_insert<V>(table: &mut FxHashMap<String, V>, key: String, value: V) -> (previous: Option<V>)
    ensures
        keyed(*final(table)) == keyed(*old(table)).insert(key@, value),
        previous == found(keyed(*old(table)), key@),
{
    table.insert(key, value)
}

/// `HashMap::remove` on an `FxHashMap`: the key is gone, and the value that it held is
/// handed back.
#[verifier::external_body]
pub(crate) fn table_remove<V>(table: &mut FxHashMap<String, V>, key: &str) -> (removed: Option<V>)
    ensures
        keyed(*final(table)) == keyed(*old(table)).remove(key@),
        removed == found(keyed(*old(table)), key@),
{
    table.remove(key)
}

/// `HashMap::get` on an `FxHashMap`: the value that the key holds.
#[verifier::external_body]
pub(crate) fn table_get<'a, V>(table: &'a FxHashMap<String, V>, key: &str) -> (held: Option<&'a V>)
    ensures
        match held {
            Some(v) => found(keyed(*table), key@) == Some(*v),
            None => found(keyed(*table), key@) is None,
        },
{
    table.get(key)
}

/// `HashMap::drain` on an `FxHashMap`: every entry is handed out once, in an order that is
/// not specified, and the table is left without entries.
#[verifier::external_body]
pub(crate) fn table_drain<V>(table: &mut FxHashMap<String, V>) -> (pairs: Vec<(String, V)>)
    ensures
        lists_entries(pairs@, keyed(*old(table))),
        keyed(*final(table)) == nothing::<V>(),
{
    table.drain().collect()
}

/// `HashMap::is_empty` on an `FxHashMap`: whether the table has no entries.
#[verifier::external_body]
pub(crate) fn table_is_empty<V>(table: &FxHashMap<String, V>) -> (empty: bool)
    ensures
        empty == (keyed(*table) == nothing::<V>()),
{
    table.is_empty()
}

/// `HashMap::len` on an `FxHashMap`: how many entries the table has.
#[verifier::external_body]
pub(crate) fn table_len<V>(table: &FxHashMap<String, V>) -> (n: usize)
    ensures
        n == keyed(*table).dom().len(),
{
    table.len()
}

/// `HashMap::keys` on an `FxHashMap`, of which the first is taken: a key of the table, where
/// it has any. Which one is not specified.
#[verifier::external_body]
pub(crate) fn table_some_key<V>(table: &FxHashMap<String, V>) -> (key: Option<String>)
    ensures
        match key {
            Some(k) => keyed(*table).contains_key(k@),
            None => keyed(*table) == nothing::<V>(),
        },
{
    table.keys().next().cloned()
}

/// `HashMap::iter` on an `FxHashMap`: every entry is shown once, in an order that is not
/// specified.
#[verifier::external_body]
pub(crate) fn table_entries<'a, V>(table: &'a FxHashMap<String, V>) -> (entries: Vec<
    (&'a String, &'a V),
>)
    ensures
        lists_entries(
            entries@.map_values(|e: (&'a String, &'a V)| (*e.0, *e.1)),
            keyed(*table),
        ),
{
    table.iter().collect()
}

} // verus!

//! The virtual-connection table: a concurrent map from 16-bit ports to
//! connection tokens, backed by `dashmap`.
//!
//! The multiplexer owns the map and routes every mutation through the
//! wrappers below, whose contracts state what each `dashmap` call does to
//! the abstract contents. The token stored under a port stands for the
//! write half of that port's local TCP connection, which the surrounding
//! process holds under the same token.

use vstd::prelude::*;

verus! {

#[verifier::external_type_specification]
#[verifier::external_body]
#[verifier::reject_recursive_types(K)]
#[verifier::reject_recursive_types(V)]
#[verifier::reject_recursive_types(S)]
pub struct ExDashMap<K, V, S>(dashmap::DashMap<K, V, S>);

/// The entries a table holds, as a mathematical map.
pub uninterp spec fn table_contents(m: dashmap::DashMap<u16, u64>) -> Map<u16, u64>;

/// The contents of a table with no entries.
pub open spec fn empty_table() -> Map<u16, u64> {
    Map::empty()
}

/// Relies on dashmap::DashMap::new: creates an empty map.
#[verifier::external_body]
pub(crate) fn table_new() -> (m: dashmap::DashMap<u16, u64>)
    ensures
        table_contents(m) == empty_table(),
{
    dashmap::DashMap::new()
}

/// Relies on dashmap::DashMap::insert: maps `key` to `value` and returns
/// the value the key held before, if any.
#[verifier::external_body]
pub(crate) fn table_insert(m: &mut dashmap::DashMap<u16, u64>, key: u16, value: u64) -> (r: Option<
    u64,
>)
    ensures
        table_contents(*final(m)) == table_contents(*old(m)).insert(key, value),
        r == if table_contents(*old(m)).dom().contains(key) {
            Some(table_contents(*old(m))[key])
        } else {
            None::<u64>
        },
{
    m.insert(key, value)
}

/// Relies on dashmap::DashMap::contains_key.
#[verifier::external_body]
pub(crate) fn table_contains(m: &dashmap::DashMap<u16, u64>, key: u16) -> (r: bool)
    ensures
        r == table_contents(*m).dom().contains(key),
{
    m.contains_key(&key)
}

/// Relies on dashmap::DashMap::get: returns a copy of the value under
/// `key`, if any.
#[verifier::external_body]
pub(crate) fn table_get(m: &dashmap::DashMap<u16, u64>, key: u16) -> (r: Option<u64>)
    ensures
        r == if table_contents(*m).dom().contains(key) {
            Some(table_contents(*m)[key])
        } else {
            None::<u64>
        },
{
    m.get(&key).map(|entry| *entry.value())
}

/// Relies on dashmap::DashMap::remove: takes the entry under `key` out of
/// the map and returns its value, if any.
#[verifier::external_body]
pub(crate) fn table_remove(m: &mut dashmap::DashMap<u16, u64>, key: u16) -> (r: Option<u64>)
    ensures
        table_contents(*final(m)) == table_contents(*old(m)).remove(key),
        r == if table_contents(*old(m)).dom().contains(key) {
            Some(table_contents(*old(m))[key])
        } else {
            None::<u64>
        },
{
    m.remove(&key).map(|entry| entry.1)
}

/// Relies on dashmap::DashMap::clear: removes every entry.
#[verifier::external_body]
pub(crate) fn table_clear(m: &mut dashmap::DashMap<u16, u64>)
    ensures
        table_contents(*final(m)) == empty_table(),
{
    m.clear()
}

} // verus!

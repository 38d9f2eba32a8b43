//! A count for each stream, kept in a `LiteMap`.

use litemap::LiteMap;
use vstd::prelude::*;

verus! {

/// `litemap::LiteMap`: what it holds is known through [`litemap_contents`]
/// alone.
#[verifier::external_type_specification]
#[verifier::external_body]
#[verifier::reject_recursive_types(K)]
#[verifier::reject_recursive_types(V)]
#[verifier::reject_recursive_types(S)]
pub struct ExLiteMap<K: ?Sized, V: ?Sized, S>(LiteMap<K, V, S>);

/// A `LiteMap` from streams to counts.
pub type CountMap = LiteMap<u8, u64>;

/// The keys of a `LiteMap` from streams to counts, each with its value.
pub uninterp spec fn litemap_contents(m: CountMap) -> Map<u8, u64>;

/// An empty map.
/// Trusted: `litemap::LiteMap::new` returns a map without entries.
#[verifier::external_body]
pub(crate) fn litemap_new() -> (m: CountMap)
    ensures
        litemap_contents(m).dom() == Set::<u8>::empty(),
{
    LiteMap::new()
}

/// The value under `key`.
/// Trusted: `litemap::LiteMap::get` returns the value under the key, or `None`
/// where the map has no such key.
#[verifier::external_body]
pub(crate) fn litemap_get(m: &CountMap, key: u8) -> (r: Option<u64>)
    ensures
        r == if litemap_contents(*m).dom().contains(key) {
            Some(litemap_contents(*m)[key])
        } else {
            None
        },
{
    m.get(&key).copied()
}

/// Puts `value` under `key`.
/// Trusted: `litemap::LiteMap::insert` sets the value under the key, leaves the
/// other entries as they are, and returns the value that was there before.
#[verifier::external_body]
pub(crate) fn litemap_insert(m: &mut CountMap, key: u8, value: u64) -> (r: Option<u64>)
    ensures
        litemap_contents(*final(m)) == litemap_contents(*old(m)).insert(key, value),
        r == if litemap_contents(*old(m)).dom().contains(key) {
            Some(litemap_contents(*old(m))[key])
        } else {
            None
        },
{
    m.insert(key, value)
}

/// How many packets of each stream were counted.
pub struct StreamCounters {
    map: CountMap,
}

impl StreamCounters {
    /// The number of packets counted for `stream`.
    pub closed spec fn count(&self, stream: u8) -> nat {
        if litemap_contents(self.map).dom().contains(stream) {
            litemap_contents(self.map)[stream] as nat
        } else {
            0
        }
    }

    /// Counters that have counted nothing.
    pub fn new() -> (c: StreamCounters)
        ensures
            forall|stream: u8| c.count(stream) == 0,
    {
        StreamCounters { map: litemap_new() }
    }

    /// The number of packets counted for `stream`.
    pub fn get(&self, stream: u8) -> (n: u64)
        ensures
            n == self.count(stream),
    {
        match litemap_get(&self.map, stream) {
            Some(n) => n,
            None => 0,
        }
    }

    /// Counts one more packet for `stream` and returns its number within the
    /// stream, which starts at 1. Fails with `None`, counting nothing, where
    /// the number does not fit.
    pub fn next(&mut self, stream: u8) -> (r: Option<u64>)
        ensures
            match r {
                Some(n) => {
                    &&& n == old(self).count(stream) + 1
                    &&& final(self).count(stream) == n
                    &&& forall|other: u8|
                        other != stream ==> final(self).count(other) == old(self).count(other)
                },
                None => {
                    &&& old(self).count(stream) == u64::MAX
                    &&& forall|other: u8| final(self).count(other) == old(self).count(other)
                },
            },
    {
        let seen: u64 = self.get(stream);
        if seen == u64::MAX {
            return None;
        }
        let _ = litemap_insert(&mut self.map, stream, seen + 1);
        Some(seen + 1)
    }
}

} // verus!

//! The store as a mathematical map, and what each operation does to it.

use vstd::prelude::*;

verus! {

/// What the store holds under one key: the value and, for a key written with
/// a time to live, the moment from which it counts as gone.
pub struct Slot {
    pub value: Seq<u8>,
    pub deadline: Option<int>,
}

/// The store's contents: each key it holds, with its slot.
pub type Contents = Map<Seq<u8>, Slot>;

/// The value under each key that the store holds.
pub open spec fn entries(m: Contents) -> Map<Seq<u8>, Seq<u8>> {
    Map::new(|k: Seq<u8>| m.dom().contains(k), |k: Seq<u8>| m[k].value)
}

/// The deadline of each key that has one. A key without one never expires.
pub open spec fn expirations(m: Contents) -> Map<Seq<u8>, int> {
    Map::new(
        |k: Seq<u8>| m.dom().contains(k) && m[k].deadline is Some,
        |k: Seq<u8>| m[k].deadline->0,
    )
}

/// A key is live at `now` when the store holds it and its deadline, if it has
/// one, lies ahead.
pub open spec fn live(m: Contents, key: Seq<u8>, now: int) -> bool {
    m.dom().contains(key) && match m[key].deadline {
        Some(d) => now < d,
        None => true,
    }
}

/// What a read of `key` at `now` yields.
pub open spec fn lookup(m: Contents, key: Seq<u8>, now: int) -> Option<Seq<u8>> {
    if live(m, key, now) {
        Some(m[key].value)
    } else {
        None
    }
}

/// The contents after a read of `key` at `now`: a key found expired is
/// dropped, and nothing else changes.
pub open spec fn after_get(m: Contents, key: Seq<u8>, now: int) -> Contents {
    if live(m, key, now) {
        m
    } else {
        m.remove(key)
    }
}

/// The contents after a plain write: the key holds the value and no deadline.
pub open spec fn after_set(m: Contents, key: Seq<u8>, value: Seq<u8>) -> Contents {
    m.insert(key, Slot { value, deadline: None })
}

/// The contents after a write at `now` with a time to live of `ttl`
/// milliseconds.
pub open spec fn after_set_ex(
    m: Contents,
    key: Seq<u8>,
    value: Seq<u8>,
    now: int,
    ttl: int,
) -> Contents {
    m.insert(key, Slot { value, deadline: Some(now + ttl) })
}

/// Only a key that has a value has a deadline, whatever was written and
/// read before.
pub proof fn deadlines_belong_to_entries(m: Contents, key: Seq<u8>)
    requires
        expirations(m).dom().contains(key),
    ensures
        entries(m).dom().contains(key),
{
}

/// A read that finds a key expired takes it out of the values and out of
/// the deadlines.
pub proof fn expired_key_leaves_both(m: Contents, key: Seq<u8>, now: int)
    requires
        m.dom().contains(key),
        !live(m, key, now),
    ensures
        !entries(after_get(m, key, now)).dom().contains(key),
        !expirations(after_get(m, key, now)).dom().contains(key),
{
}

/// A key that the store does not hold reads as absent at every time, and
/// the read leaves the store as it was.
pub proof fn unset_key_reads_absent(m: Contents, key: Seq<u8>, now: int)
    requires
        !m.dom().contains(key),
    ensures
        lookup(m, key, now) == None::<Seq<u8>>,
        after_get(m, key, now) == m,
{
    assert(m.remove(key) =~= m);
}

/// In a store that nothing was written to, every key reads as absent.
pub proof fn empty_store_reads_absent(key: Seq<u8>, now: int)
    ensures
        lookup(Map::<Seq<u8>, Slot>::empty(), key, now) == None::<Seq<u8>>,
{
}

/// Writes and reads under one key leave every other key as it was: held or
/// not, with the same value and the same deadline.
pub proof fn other_keys_keep(
    m: Contents,
    key: Seq<u8>,
    other: Seq<u8>,
    value: Seq<u8>,
    now: int,
    ttl: int,
    at: int,
)
    requires
        key != other,
    ensures
        after_set(m, other, value).dom().contains(key) == m.dom().contains(key),
        after_set_ex(m, other, value, now, ttl).dom().contains(key) == m.dom().contains(key),
        after_get(m, other, now).dom().contains(key) == m.dom().contains(key),
        lookup(after_set(m, other, value), key, at) == lookup(m, key, at),
        lookup(after_set_ex(m, other, value, now, ttl), key, at) == lookup(m, key, at),
        lookup(after_get(m, other, now), key, at) == lookup(m, key, at),
{
}

/// A plain write followed by a read of the same key yields the value
/// written, at whatever time the read comes, and the read changes nothing.
pub proof fn set_then_get(m: Contents, key: Seq<u8>, value: Seq<u8>, at: int)
    ensures
        lookup(after_set(m, key, value), key, at) == Some(value),
        after_get(after_set(m, key, value), key, at) == after_set(m, key, value),
{
}

/// A write at `start` with `ttl` milliseconds to live: a read before
/// `start + ttl` yields the value and keeps the key; a read at or after it
/// yields nothing and drops the key, and every later read, at whatever time,
/// yields nothing and changes nothing.
pub proof fn set_ex_then_get(
    m: Contents,
    key: Seq<u8>,
    value: Seq<u8>,
    start: int,
    ttl: int,
    early: int,
    late: int,
    again: int,
)
    requires
        early < start + ttl,
        start + ttl <= late,
    ensures
        ({
            let written = after_set_ex(m, key, value, start, ttl);
            let evicted = after_get(written, key, late);
            &&& lookup(written, key, early) == Some(value)
            &&& after_get(written, key, early) == written
            &&& lookup(written, key, late) == None::<Seq<u8>>
            &&& !evicted.dom().contains(key)
            &&& lookup(evicted, key, again) == None::<Seq<u8>>
            &&& after_get(evicted, key, again) == evicted
        }),
{
    let written = after_set_ex(m, key, value, start, ttl);
    let evicted = after_get(written, key, late);
    assert(evicted.remove(key) =~= evicted);
}

/// A write with zero milliseconds to live is gone for every read that does
/// not come before it.
pub proof fn zero_ttl_reads_absent(m: Contents, key: Seq<u8>, value: Seq<u8>, start: int, at: int)
    requires
        start <= at,
    ensures
        lookup(after_set_ex(m, key, value, start, 0), key, at) == None::<Seq<u8>>,
{
}

/// A plain write clears the deadline that an earlier write gave the key:
/// the new value is read at every time, also after that deadline.
pub proof fn set_clears_deadline(
    m: Contents,
    key: Seq<u8>,
    first: Seq<u8>,
    second: Seq<u8>,
    start: int,
    ttl: int,
    at: int,
)
    ensures
        lookup(after_set(after_set_ex(m, key, first, start, ttl), key, second), key, at) == Some(
            second,
        ),
        after_set(after_set_ex(m, key, first, start, ttl), key, second) == after_set(
            m,
            key,
            second,
        ),
{
    assert(after_set(after_set_ex(m, key, first, start, ttl), key, second) =~= after_set(
        m,
        key,
        second,
    ));
}

} // verus!

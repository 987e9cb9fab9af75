//! The expiring store: keys with values, some of them with a deadline.
//!
//! Expiry is lazy. A key whose deadline has passed stays in memory until a
//! read finds it; that read drops it and reports the key as absent.

use crate::bytes::same_bytes;
use crate::bytes::to_owned_bytes;
use crate::bytes::view_of;
use crate::clock::Clock;
use crate::model::after_get;
use crate::model::after_set;
use crate::model::after_set_ex;
use crate::model::lookup;
use crate::model::Contents;
use crate::model::Slot;
use vstd::prelude::*;

verus! {

/// When a timed entry was written, and for how long it lives.
struct Expiry {
    since: u128,
    ttl: u64,
}

impl Expiry {
    /// The moment from which the entry counts as gone.
    spec fn deadline(&self) -> int {
        self.since + self.ttl
    }

    /// Tells whether the deadline has come at `now`.
    fn reached(&self, now: u128) -> (r: bool)
        ensures
            r == (now >= self.deadline()),
    {
        now >= self.since && now - self.since >= self.ttl as u128
    }
}

struct Entry {
    key: Vec<u8>,
    value: Vec<u8>,
    expiry: Option<Expiry>,
}

spec fn slot_of(e: Entry) -> Slot {
    Slot {
        value: e.value@,
        deadline: match e.expiry {
            Some(x) => Some(x.deadline()),
            None => None,
        },
    }
}

spec fn has_key(s: Seq<Entry>, k: Seq<u8>) -> bool {
    exists|i: int| #![trigger s[i]] 0 <= i < s.len() && s[i].key@ == k
}

spec fn slot_for(s: Seq<Entry>, k: Seq<u8>) -> Slot {
    let i = choose|i: int| #![trigger s[i]] 0 <= i < s.len() && s[i].key@ == k;
    slot_of(s[i])
}

spec fn contents(s: Seq<Entry>) -> Contents {
    Map::new(|k: Seq<u8>| has_key(s, k), |k: Seq<u8>| slot_for(s, k))
}

spec fn distinct(s: Seq<Entry>) -> bool {
    forall|i: int, j: int|
        #![trigger s[i], s[j]]
        0 <= i < j < s.len() ==> s[i].key@ != s[j].key@
}

proof fn lemma_entry_at(s: Seq<Entry>, i: int)
    requires
        distinct(s),
        0 <= i < s.len(),
    ensures
        has_key(s, s[i].key@),
        slot_for(s, s[i].key@) == slot_of(s[i]),
{
    let k = s[i].key@;
    assert(0 <= i < s.len() && s[i].key@ == k);
    let j = choose|j: int| #![trigger s[j]] 0 <= j < s.len() && s[j].key@ == k;
    assert(0 <= j < s.len() && s[j].key@ == k);
    if j < i {
        assert(s[j].key@ != s[i].key@);
    }
    if i < j {
        assert(s[i].key@ != s[j].key@);
    }
}

proof fn lemma_push(s: Seq<Entry>, e: Entry)
    requires
        distinct(s),
        !has_key(s, e.key@),
    ensures
        distinct(s.push(e)),
        contents(s.push(e)) == contents(s).insert(e.key@, slot_of(e)),
{
    let t = s.push(e);
    assert forall|i: int, j: int| 0 <= i < j < t.len() implies t[i].key@ != t[j].key@ by {
        if j == s.len() {
            assert(t[i] == s[i]);
            assert(!(0 <= i < s.len() && s[i].key@ == e.key@));
        } else {
            assert(t[i] == s[i] && t[j] == s[j]);
        }
    }
    assert(distinct(t));
    let want = contents(s).insert(e.key@, slot_of(e));
    assert forall|k: Seq<u8>| contents(t).dom().contains(k) <==> want.dom().contains(k) by {
        if has_key(t, k) {
            let i = choose|i: int| #![trigger t[i]] 0 <= i < t.len() && t[i].key@ == k;
            if i < s.len() {
                assert(t[i] == s[i]);
                assert(0 <= i < s.len() && s[i].key@ == k);
            }
        }
        if has_key(s, k) {
            let i = choose|i: int| #![trigger s[i]] 0 <= i < s.len() && s[i].key@ == k;
            assert(t[i] == s[i]);
            assert(0 <= i < t.len() && t[i].key@ == k);
        }
        if k == e.key@ {
            assert(t[s.len() as int] == e);
            assert(has_key(t, k));
        }
    }
    assert forall|k: Seq<u8>| contents(t).dom().contains(k) implies contents(t)[k] == want[k] by {
        let i = choose|i: int| #![trigger t[i]] 0 <= i < t.len() && t[i].key@ == k;
        lemma_entry_at(t, i);
        if i < s.len() {
            assert(t[i] == s[i]);
            lemma_entry_at(s, i);
        } else {
            assert(t[i] == e);
        }
    }
    assert(contents(t) =~= want);
}

proof fn lemma_remove(s: Seq<Entry>, at: int)
    requires
        distinct(s),
        0 <= at < s.len(),
    ensures
        distinct(s.remove(at)),
        contents(s.remove(at)) == contents(s).remove(s[at].key@),
{
    let t = s.remove(at);
    let gone = s[at].key@;
    assert forall|i: int| 0 <= i < t.len() implies #[trigger] t[i] == s[if i < at { i } else { i + 1 }] by {}
    assert forall|i: int, j: int| 0 <= i < j < t.len() implies t[i].key@ != t[j].key@ by {
        let a = if i < at { i } else { i + 1 };
        let b = if j < at { j } else { j + 1 };
        assert(t[i] == s[a] && t[j] == s[b]);
        assert(s[a].key@ != s[b].key@);
    }
    assert(distinct(t));
    let want = contents(s).remove(gone);
    assert forall|k: Seq<u8>| contents(t).dom().contains(k) <==> want.dom().contains(k) by {
        if has_key(t, k) {
            let i = choose|i: int| #![trigger t[i]] 0 <= i < t.len() && t[i].key@ == k;
            let a = if i < at { i } else { i + 1 };
            assert(t[i] == s[a]);
            assert(0 <= a < s.len() && s[a].key@ == k);
            if a < at {
                assert(s[a].key@ != s[at].key@);
            } else {
                assert(s[at].key@ != s[a].key@);
            }
        }
        if has_key(s, k) && k != gone {
            let a = choose|a: int| #![trigger s[a]] 0 <= a < s.len() && s[a].key@ == k;
            let i = if a < at { a } else { a - 1 };
            assert(t[i] == s[a]);
            assert(0 <= i < t.len() && t[i].key@ == k);
        }
    }
    assert forall|k: Seq<u8>| contents(t).dom().contains(k) implies contents(t)[k] == want[k] by {
        let i = choose|i: int| #![trigger t[i]] 0 <= i < t.len() && t[i].key@ == k;
        let a = if i < at { i } else { i + 1 };
        assert(t[i] == s[a]);
        lemma_entry_at(t, i);
        lemma_entry_at(s, a);
    }
    assert(contents(t) =~= want);
}

/// Keys with their values, each with or without a deadline, and the clock
/// that the deadlines are measured on.
pub struct Storage {
    entries: Vec<Entry>,
    clock: Clock,
}

impl View for Storage {
    type V = Contents;

    /// The keys held, each with its value and its deadline if it has one.
    /// A key whose deadline has passed is held until a read finds it.
    closed spec fn view(&self) -> Contents {
        contents(self.entries@)
    }
}

impl Storage {
    /// No key is held twice.
    pub closed spec fn wf(&self) -> bool {
        distinct(self.entries@)
    }

    /// The latest time that the store has read off its clock, in
    /// milliseconds since the store was made.
    pub closed spec fn time(&self) -> int {
        self.clock.reading()
    }

    /// An empty store, whose clock starts at zero.
    pub fn new() -> (s: Storage)
        ensures
            s.wf(),
            s@ == Map::<Seq<u8>, Slot>::empty(),
            s.time() == 0,
    {
        let s = Storage { entries: Vec::new(), clock: Clock::new() };
        proof {
            assert(s@ =~= Map::<Seq<u8>, Slot>::empty());
        }
        s
    }

    /// Reads the store's clock. The time never goes back.
    pub fn now(&mut self) -> (t: u128)
        requires
            old(self).wf(),
        ensures
            final(self).wf(),
            t == final(self).time(),
            final(self).time() >= old(self).time(),
            final(self)@ == old(self)@,
    {
        self.clock.now_ms()
    }

    fn find(&self, key: &[u8]) -> (r: Option<usize>)
        ensures
            match r {
                Some(i) => i < self.entries@.len() && self.entries@[i as int].key@ == key@,
                None => !has_key(self.entries@, key@),
            },
    {
        let mut i: usize = 0;
        while i < self.entries.len()
            invariant
                i <= self.entries@.len(),
                forall|j: int| 0 <= j < i ==> (#[trigger] self.entries@[j]).key@ != key@,
            decreases self.entries@.len() - i,
        {
            if same_bytes(self.entries[i].key.as_slice(), key) {
                return Some(i);
            }
            i += 1;
        }
        None
    }

    fn discard(&mut self, key: &[u8])
        requires
            old(self).wf(),
        ensures
            final(self).wf(),
            final(self)@ == old(self)@.remove(key@),
            final(self).time() == old(self).time(),
    {
        match self.find(key) {
            Some(i) => {
                proof {
                    lemma_remove(self.entries@, i as int);
                }
                let _ = self.entries.remove(i);
            },
            None => {
                proof {
                    assert(self@ =~= self@.remove(key@));
                }
            },
        }
    }

    fn put(&mut self, key: Vec<u8>, value: Vec<u8>, expiry: Option<Expiry>)
        requires
            old(self).wf(),
        ensures
            final(self).wf(),
            final(self)@ == old(self)@.insert(
                key@,
                slot_of(Entry { key, value, expiry }),
            ),
            final(self).time() == old(self).time(),
    {
        self.discard(key.as_slice());
        let entry = Entry { key, value, expiry };
        proof {
            assert(!self@.dom().contains(entry.key@));
            lemma_push(self.entries@, entry);
            assert(old(self)@.remove(entry.key@).insert(entry.key@, slot_of(entry))
                =~= old(self)@.insert(entry.key@, slot_of(entry)));
        }
        self.entries.push(entry);
    }

    /// Writes `value` under `key`, in place of what the key held. The key
    /// has no deadline afterwards, whatever it had before.
    pub fn set(&mut self, key: Vec<u8>, value: Vec<u8>)
        requires
            old(self).wf(),
        ensures
            final(self).wf(),
            final(self)@ == after_set(old(self)@, key@, value@),
            final(self).time() == old(self).time(),
    {
        self.put(key, value, None);
    }

    /// Writes `value` under `key` at the time `now`, to live for
    /// `milliseconds`. With zero milliseconds the key is gone for the next
    /// read at `now` or later.
    pub fn set_ex_at(&mut self, key: Vec<u8>, value: Vec<u8>, milliseconds: u64, now: u128)
        requires
            old(self).wf(),
        ensures
            final(self).wf(),
            final(self)@ == after_set_ex(old(self)@, key@, value@, now as int, milliseconds as int),
            final(self).time() == old(self).time(),
    {
        self.put(key, value, Some(Expiry { since: now, ttl: milliseconds }));
    }

    /// Writes `value` under `key`, to live for `milliseconds` from the
    /// moment the store reads off its clock.
    pub fn set_ex(&mut self, key: Vec<u8>, value: Vec<u8>, milliseconds: u64)
        requires
            old(self).wf(),
        ensures
            final(self).wf(),
            final(self).time() >= old(self).time(),
            final(self)@ == after_set_ex(
                old(self)@,
                key@,
                value@,
                final(self).time(),
                milliseconds as int,
            ),
    {
        let now: u128 = self.clock.now_ms();
        self.set_ex_at(key, value, milliseconds, now);
    }

    /// Reads `key` at the time `now`: its value where the key is held and
    /// its deadline, if any, lies ahead. A key found expired is dropped.
    pub fn get_at(&mut self, key: &[u8], now: u128) -> (r: Option<Vec<u8>>)
        requires
            old(self).wf(),
        ensures
            final(self).wf(),
            view_of(r) == lookup(old(self)@, key@, now as int),
            final(self)@ == after_get(old(self)@, key@, now as int),
            final(self).time() == old(self).time(),
    {
        match self.find(key) {
            Some(i) => {
                proof {
                    lemma_entry_at(self.entries@, i as int);
                }
                let expired: bool = match &self.entries[i].expiry {
                    Some(x) => x.reached(now),
                    None => false,
                };
                if expired {
                    proof {
                        lemma_remove(self.entries@, i as int);
                    }
                    let _ = self.entries.remove(i);
                    None
                } else {
                    Some(to_owned_bytes(self.entries[i].value.as_slice()))
                }
            },
            None => {
                proof {
                    assert(self@ =~= self@.remove(key@));
                }
                None
            },
        }
    }

    /// Reads `key` at the moment the store reads off its clock.
    pub fn get(&mut self, key: &[u8]) -> (r: Option<Vec<u8>>)
        requires
            old(self).wf(),
        ensures
            final(self).wf(),
            final(self).time() >= old(self).time(),
            view_of(r) == lookup(old(self)@, key@, final(self).time()),
            final(self)@ == after_get(old(self)@, key@, final(self).time()),
    {
        let now: u128 = self.clock.now_ms();
        self.get_at(key, now)
    }
}

} // verus!

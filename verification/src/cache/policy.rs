use vstd::prelude::*;

use super::buffer::Event;
use lru::LruCache;

verus! {

#[verifier::external_type_specification]
#[verifier::external_body]
#[verifier::reject_recursive_types(K)]
#[verifier::reject_recursive_types(V)]
#[verifier::reject_recursive_types(S)]
pub struct ExLruCache<K, V, S>(LruCache<K, V, S>);

#[verifier::external_type_specification]
#[verifier::external_body]
pub struct ExLruDefaultHasher(lru::DefaultHasher);

/// The entries of an LRU cache of entry IDs, from the least recently used
/// to the most recently used.
pub uninterp spec fn lru_entries(cache: LruCache<u128, Option<u64>>) -> Seq<(u128, Option<u64>)>;

/// The capacity an LRU cache of entry IDs was made with.
pub uninterp spec fn lru_cap(cache: LruCache<u128, Option<u64>>) -> nat;

/// No key occurs twice.
pub open spec fn keys_distinct(entries: Seq<(u128, Option<u64>)>) -> bool {
    forall|i: int, j: int|
        0 <= i < entries.len() && 0 <= j < entries.len() && i != j ==> #[trigger] entries[i].0
            != #[trigger] entries[j].0
}

/// Where `key` stands among `entries`, if it does.
pub open spec fn key_position(entries: Seq<(u128, Option<u64>)>, key: u128) -> Option<int> {
    if exists|i: int| 0 <= i < entries.len() && #[trigger] entries[i].0 == key {
        Some(choose|i: int| 0 <= i < entries.len() && #[trigger] entries[i].0 == key)
    } else {
        None
    }
}

/// `lru::LruCache::new`: an empty cache that holds at most `cap` entries.
#[verifier::external_body]
fn lru_new(cap: usize) -> (cache: LruCache<u128, Option<u64>>)
    requires
        cap > 0,
    ensures
        lru_entries(cache) == Seq::<(u128, Option<u64>)>::empty(),
        lru_cap(cache) == cap,
{
    LruCache::new(std::num::NonZeroUsize::new(cap).unwrap())
}

/// `lru::LruCache::push`: when `key` is present, its value is replaced, the
/// entry becomes the most recently used and the old pair is returned; when
/// it is absent and the cache is full, the least recently used entry is
/// dropped and returned, and the new entry is added as the most recently
/// used; otherwise the new entry is just added as the most recently used.
#[verifier::external_body]
fn lru_push(cache: &mut LruCache<u128, Option<u64>>, key: u128, value: Option<u64>) -> (displaced:
    Option<(u128, Option<u64>)>)
    requires
        keys_distinct(lru_entries(*old(cache))),
    ensures
        lru_cap(*final(cache)) == lru_cap(*old(cache)),
        ({
            let before = lru_entries(*old(cache));
            let after = lru_entries(*final(cache));
            match key_position(before, key) {
                Some(i) => {
                    &&& displaced == Some((key, before[i].1))
                    &&& after == before.remove(i).push((key, value))
                },
                None => if before.len() == lru_cap(*old(cache)) {
                    &&& displaced == Some(before[0])
                    &&& after == before.drop_first().push((key, value))
                } else {
                    &&& displaced is None
                    &&& after == before.push((key, value))
                },
            }
        }),
{
    cache.push(key, value)
}

/// `lru::LruCache::promote`: makes the entry of `key`, if there is one, the
/// most recently used; the cache is otherwise unchanged.
#[verifier::external_body]
fn lru_promote(cache: &mut LruCache<u128, Option<u64>>, key: u128)
    requires
        keys_distinct(lru_entries(*old(cache))),
    ensures
        lru_cap(*final(cache)) == lru_cap(*old(cache)),
        ({
            let before = lru_entries(*old(cache));
            let after = lru_entries(*final(cache));
            match key_position(before, key) {
                Some(i) => after == before.remove(i).push(before[i]),
                None => after == before,
            }
        }),
{
    cache.promote(&key)
}

/// What an LRU of capacity `cap` holds after `key` is pushed with `value`,
/// and which entry the push displaces.
pub open spec fn push_spec(entries: Seq<(u128, Option<u64>)>, cap: nat, key: u128, value: Option<u64>)
    -> (Seq<(u128, Option<u64>)>, Option<(u128, Option<u64>)>) {
    match key_position(entries, key) {
        Some(i) => (entries.remove(i).push((key, value)), Some((key, entries[i].1))),
        None => if entries.len() == cap {
            (entries.drop_first().push((key, value)), Some(entries[0]))
        } else {
            (entries.push((key, value)), None)
        },
    }
}

/// What an LRU holds after `key` is promoted.
pub open spec fn promote_spec(entries: Seq<(u128, Option<u64>)>, key: u128) -> Seq<(u128, Option<u64>)> {
    match key_position(entries, key) {
        Some(i) => entries.remove(i).push(entries[i]),
        None => entries,
    }
}

/// What the policy holds after it handles `event`, and the entry that
/// handling it displaces.
pub open spec fn handle_spec(entries: Seq<(u128, Option<u64>)>, cap: nat, event: Event) -> (Seq<(u128, Option<u64>)>, Option<(u128, Option<u64>)>) {
    match event {
        Event::Access(id) => (promote_spec(entries, id), None),
        Event::Missing(id) => push_spec(entries, cap, id, None),
        Event::Insert(id, handle) => push_spec(entries, cap, id, Some(handle)),
    }
}

/// The eviction policy: a least-recently-used list of entry IDs, each with
/// the handle of the value it keeps alive, or nothing for an ID known not to
/// exist.
pub struct Policy {
    lru: LruCache<u128, Option<u64>>,
}

impl View for Policy {
    type V = Seq<(u128, Option<u64>)>;

    closed spec fn view(&self) -> Seq<(u128, Option<u64>)> {
        lru_entries(self.lru)
    }
}

impl Policy {
    pub closed spec fn cap(&self) -> nat {
        lru_cap(self.lru)
    }

    pub open spec fn wf(&self) -> bool {
        &&& keys_distinct(self@)
        &&& self@.len() <= self.cap()
        &&& self.cap() > 0
    }

    pub fn new(cap: usize) -> (policy: Self)
        requires
            cap > 0,
        ensures
            policy.wf(),
            policy@ == Seq::<(u128, Option<u64>)>::empty(),
            policy.cap() == cap,
    {
        Policy { lru: lru_new(cap) }
    }

    /// Learns of `event`. An access makes the ID the most recently used; a
    /// missing ID or an inserted value is pushed as the most recently used.
    /// Returns the entry that a push displaced: the ID's earlier entry, or
    /// the least recently used one when the list was full.
    pub fn handle(&mut self, event: Event) -> (displaced: Option<(u128, Option<u64>)>)
        requires
            old(self).wf(),
        ensures
            final(self).wf(),
            final(self).cap() == old(self).cap(),
            (final(self)@, displaced) == handle_spec(old(self)@, old(self).cap(), event),
    {
        proof {
            lemma_push_keeps_wf(self@, self.cap(), 0, None);
        }
        match event {
            Event::Access(id) => {
                lru_promote(&mut self.lru, id);
                proof {
                    lemma_promote_keeps_wf(old(self)@, id);
                }
                None
            },
            Event::Missing(id) => {
                proof {
                    lemma_push_keeps_wf(self@, self.cap(), id, None);
                }
                lru_push(&mut self.lru, id, None)
            },
            Event::Insert(id, handle) => {
                proof {
                    lemma_push_keeps_wf(self@, self.cap(), id, Some(handle));
                }
                lru_push(&mut self.lru, id, Some(handle))
            },
        }
    }
}

pub proof fn lemma_push_keeps_wf(entries: Seq<(u128, Option<u64>)>, cap: nat, key: u128, value: Option<u64>)
    requires
        keys_distinct(entries),
        entries.len() <= cap,
        cap > 0,
    ensures
        keys_distinct(push_spec(entries, cap, key, value).0),
        push_spec(entries, cap, key, value).0.len() <= cap,
{
    let after = push_spec(entries, cap, key, value).0;
    match key_position(entries, key) {
        Some(i) => {
            let r = entries.remove(i);
            assert forall|a: int, b: int|
                0 <= a < after.len() && 0 <= b < after.len() && a != b implies #[trigger] after[a].0
                != #[trigger] after[b].0 by {
                if a < after.len() - 1 && b < after.len() - 1 {
                    let oa = if a < i { a } else { a + 1 };
                    let ob = if b < i { b } else { b + 1 };
                    assert(after[a] == entries[oa]);
                    assert(after[b] == entries[ob]);
                } else if a == after.len() - 1 {
                    let ob = if b < i { b } else { b + 1 };
                    assert(after[b] == entries[ob]);
                } else {
                    let oa = if a < i { a } else { a + 1 };
                    assert(after[a] == entries[oa]);
                }
            }
        },
        None => {
            if entries.len() == cap {
                assert forall|a: int, b: int|
                    0 <= a < after.len() && 0 <= b < after.len() && a != b implies #[trigger] after[a].0
                    != #[trigger] after[b].0 by {
                    if a < after.len() - 1 {
                        assert(after[a] == entries[a + 1]);
                    }
                    if b < after.len() - 1 {
                        assert(after[b] == entries[b + 1]);
                    }
                }
            } else {
                assert forall|a: int, b: int|
                    0 <= a < after.len() && 0 <= b < after.len() && a != b implies #[trigger] after[a].0
                    != #[trigger] after[b].0 by {
                    if a < after.len() - 1 {
                        assert(after[a] == entries[a]);
                    }
                    if b < after.len() - 1 {
                        assert(after[b] == entries[b]);
                    }
                }
            }
        },
    }
}

pub proof fn lemma_promote_keeps_wf(entries: Seq<(u128, Option<u64>)>, key: u128)
    requires
        keys_distinct(entries),
    ensures
        keys_distinct(promote_spec(entries, key)),
        promote_spec(entries, key).len() == entries.len(),
{
    let after = promote_spec(entries, key);
    if let Some(i) = key_position(entries, key) {
        assert forall|a: int, b: int|
            0 <= a < after.len() && 0 <= b < after.len() && a != b implies #[trigger] after[a].0
            != #[trigger] after[b].0 by {
            let oa = if a == after.len() - 1 { i } else if a < i { a } else { a + 1 };
            let ob = if b == after.len() - 1 { i } else if b < i { b } else { b + 1 };
            assert(after[a] == entries[oa]);
            assert(after[b] == entries[ob]);
        }
    }
}

} // verus!

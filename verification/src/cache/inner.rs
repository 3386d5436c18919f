use vstd::prelude::*;

use super::buffer::{self, BufferStorage, BufferToken, Event, Events, TokenRegistry, BUFFER_LEN};
use super::policy::{handle_spec, Policy};
use dashmap::DashMap;
use std::collections::HashMap;

verus! {

broadcast use vstd::std_specs::hash::group_hash_axioms;

#[verifier::external_type_specification]
#[verifier::external_body]
#[verifier::reject_recursive_types(K)]
#[verifier::reject_recursive_types(V)]
#[verifier::reject_recursive_types(S)]
pub struct ExDashMap<K, V, S>(DashMap<K, V, S>);

/// The entries of a concurrent map from entry IDs to value handles.
pub uninterp spec fn dash_entries(map: DashMap<u128, Option<u64>>) -> Map<u128, Option<u64>>;

/// `dashmap::DashMap::new`: an empty map.
#[verifier::external_body]
fn dash_new() -> (created: DashMap<u128, Option<u64>>)
    ensures
        dash_entries(created).is_empty(),
{
    DashMap::new()
}

/// `dashmap::DashMap::get`: the value stored under `key`, copied out of the
/// guard that the map hands back.
#[verifier::external_body]
fn dash_get(map: &DashMap<u128, Option<u64>>, key: u128) -> (value: Option<Option<u64>>)
    ensures
        value == (if dash_entries(*map).contains_key(key) {
            Some(dash_entries(*map)[key])
        } else {
            None
        }),
{
    map.get(&key).map(|entry| *entry)
}

/// `dashmap::DashMap::insert`: stores `value` under `key`, replacing what
/// was there.
#[verifier::external_body]
fn dash_insert(map: &mut DashMap<u128, Option<u64>>, key: u128, value: Option<u64>)
    ensures
        dash_entries(*final(map)) == dash_entries(*old(map)).insert(key, value),
{
    map.insert(key, value);
}

/// `dashmap::DashMap::remove`: removes the entry of `key`, if there is one.
#[verifier::external_body]
fn dash_remove(map: &mut DashMap<u128, Option<u64>>, key: u128)
    ensures
        dash_entries(*final(map)) == dash_entries(*old(map)).remove(key),
{
    map.remove(&key);
}

/// `HashMap::get_mut`: mutable access to the value of `key`, if present.
#[verifier::external_body]
fn slot_mut<T>(slots: &mut HashMap<u64, Slot<T>>, handle: u64) -> (slot: Option<&mut Slot<T>>)
    ensures
        match slot {
            Some(s) => {
                &&& old(slots)@.contains_key(handle)
                &&& *s == old(slots)@[handle]
                &&& final(slots)@ == old(slots)@.insert(handle, *final(s))
            },
            None => {
                &&& !old(slots)@.contains_key(handle)
                &&& final(slots)@ == old(slots)@
            },
        },
{
    slots.get_mut(&handle)
}

/// A type whose values carry the ID they are cached under.
pub trait Id {
    spec fn spec_id(&self) -> u128;

    fn id(&self) -> (id: u128)
        ensures
            id == self.spec_id(),
    ;
}

/// A cached value, the ID it is cached under, and how many holders keep it
/// alive: callers that were handed its handle, a buffered insert event, and
/// the eviction policy.
pub struct Slot<T> {
    pub id: u128,
    pub value: T,
    pub refs: u64,
}

/// What looking an ID up finds.
#[derive(Clone, Copy, Debug, PartialEq, Eq, Structural)]
pub enum Lookup {
    /// A live value, under this handle.
    Hit(u64),
    /// The ID is known not to exist.
    Absent,
    /// The cache knows nothing of the ID.
    Miss,
}

/// An ID asked for by a batch lookup: found under a handle, or still to be
/// loaded.
#[derive(Clone, Copy, Debug, PartialEq, Eq, Structural)]
pub enum Pending {
    Found(u64),
    Load(u128),
}

/// The abstract state of a cache.
pub struct CacheModel<T> {
    /// ID to the handle of its value, or to nothing for a known-missing ID.
    pub entries: Map<u128, Option<u64>>,
    /// Live values by handle.
    pub slots: Map<u64, Slot<T>>,
    /// The eviction policy's list, least recently used first.
    pub policy: Seq<(u128, Option<u64>)>,
    /// Events not yet handed to the policy, oldest first.
    pub buffered: Seq<Event>,
    /// The handle the next inserted value gets.
    pub next_handle: u64,
    /// Values whose last holder let go, oldest first, waiting for the
    /// handles they hold in other caches to be let go too.
    pub dropped: Seq<T>,
}

impl<T> CacheModel<T> {
    pub open spec fn wf(self) -> bool {
        &&& forall|id: u128|
            #[trigger] self.entries.contains_key(id) && self.entries[id] is Some ==> {
                let h = self.entries[id]->0;
                &&& self.slots.contains_key(h)
                &&& self.slots[h].id == id
            }
        &&& forall|h: u64|
            #[trigger] self.slots.contains_key(h) ==> h < self.next_handle && self.slots[h].refs > 0
        &&& self.buffered.len() <= BUFFER_LEN
    }

    /// There is room for `n` more operations: handles for `n` new values,
    /// and `n` more holders of any value.
    pub open spec fn has_room(self, n: nat) -> bool {
        &&& self.next_handle + n < u64::MAX
        &&& n + 2 < u64::MAX
        &&& forall|h: u64| #[trigger] self.slots.contains_key(h) ==> self.slots[h].refs + n < u64::MAX
    }

    pub open spec fn lookup(self, id: u128) -> Lookup {
        if !self.entries.contains_key(id) {
            Lookup::Miss
        } else {
            match self.entries[id] {
                Some(h) => Lookup::Hit(h),
                None => Lookup::Absent,
            }
        }
    }

    /// One more holder of `h`.
    pub open spec fn acquire(self, h: u64) -> Self {
        if self.slots.contains_key(h) {
            let s = self.slots[h];
            CacheModel { slots: self.slots.insert(h, Slot { refs: (s.refs + 1) as u64, ..s }), ..self }
        } else {
            self
        }
    }

    /// One holder of `h` fewer. When the last goes, the value is dropped, and
    /// so is its ID's entry if it still points to it or marks it missing.
    pub open spec fn release(self, h: u64) -> Self {
        if self.slots.contains_key(h) {
            let s = self.slots[h];
            if s.refs <= 1 {
                let entries = if self.entries.contains_key(s.id) && (self.entries[s.id] == Some(h)
                    || self.entries[s.id] is None) {
                    self.entries.remove(s.id)
                } else {
                    self.entries
                };
                CacheModel { entries, slots: self.slots.remove(h), dropped: self.dropped.push(s.value), ..self }
            } else {
                CacheModel { slots: self.slots.insert(h, Slot { refs: (s.refs - 1) as u64, ..s }), ..self }
            }
        } else {
            self
        }
    }

    /// The policy learns of `event`; what it displaces is let go: a missing
    /// ID's entry is removed, a value's holder is released.
    pub open spec fn apply(self, cap: nat, event: Event) -> Self {
        let (policy, displaced) = handle_spec(self.policy, cap, event);
        let next = CacheModel { policy, ..self };
        match displaced {
            Some((id, None)) => CacheModel { entries: next.entries.remove(id), ..next },
            Some((_, Some(h))) => next.release(h),
            None => next,
        }
    }

    /// The policy learns of `events`, in order.
    pub open spec fn commit(self, cap: nat, events: Seq<Event>) -> Self
        decreases events.len(),
    {
        if events.len() == 0 {
            self
        } else {
            self.apply(cap, events[0]).commit(cap, events.drop_first())
        }
    }

    /// `event` is buffered; a full buffer is committed first.
    pub open spec fn emit(self, cap: nat, event: Event) -> Self {
        let (buffered, batch) = buffer::push_spec(self.buffered, event);
        let next = CacheModel { buffered, ..self };
        match batch {
            Some(events) => next.commit(cap, events),
            None => next,
        }
    }

    /// The ID is marked missing.
    pub open spec fn none(self, cap: nat, id: u128) -> Self {
        CacheModel { entries: self.entries.insert(id, None), ..self }.emit(cap, Event::Missing(id))
    }

    /// The ID is marked missing, if it is known.
    pub open spec fn remove(self, id: u128) -> Self {
        if self.entries.contains_key(id) {
            CacheModel { entries: self.entries.insert(id, None), ..self }
        } else {
            self
        }
    }

    /// What `insert` leaves, and the handle it returns.
    pub open spec fn insert(self, cap: nat, id: u128, value: T) -> (Self, u64) {
        match self.lookup(id) {
            Lookup::Hit(h) => (self.acquire(h), h),
            _ => {
                let h = self.next_handle;
                let next = CacheModel {
                    entries: self.entries.insert(id, Some(h)),
                    slots: self.slots.insert(h, Slot { id, value, refs: 2 }),
                    next_handle: (h + 1) as u64,
                    ..self
                };
                (next.emit(cap, Event::Insert(id, h)), h)
            },
        }
    }
}

impl<T: Id> CacheModel<T> {
    /// What `get` leaves and finds: a hit hands out one more holder; hits
    /// and known-missing IDs count as accesses.
    pub open spec fn get(self, cap: nat, id: u128) -> (Self, Lookup) {
        match self.lookup(id) {
            Lookup::Hit(h) => (self.acquire(h).emit(cap, Event::Access(id)), Lookup::Hit(h)),
            Lookup::Absent => (self.emit(cap, Event::Access(id)), Lookup::Absent),
            Lookup::Miss => (self, Lookup::Miss),
        }
    }

    /// What completing a missed `get` leaves and returns, given what was
    /// loaded for the ID.
    pub open spec fn complete_get(self, cap: nat, id: u128, loaded: Option<T>) -> (Self, Option<u64>) {
        match loaded {
            Some(value) => {
                let (next, h) = self.insert(cap, value.spec_id(), value);
                (next, Some(h))
            },
            None => (self.none(cap, id), None),
        }
    }

    /// The first step of a batch lookup over `ids`: hits are handed out and
    /// count as accesses, misses are listed to be loaded, and known-missing
    /// IDs are left out.
    pub open spec fn begin_multiple(self, cap: nat, ids: Seq<u128>) -> (Self, Seq<Pending>, Seq<u128>)
        decreases ids.len(),
    {
        if ids.len() == 0 {
            (self, Seq::empty(), Seq::empty())
        } else {
            let (m, pending, misses) = self.begin_multiple(cap, ids.drop_last());
            let id = ids.last();
            match m.lookup(id) {
                Lookup::Hit(h) => (
                    m.acquire(h).emit(cap, Event::Access(id)),
                    pending.push(Pending::Found(h)),
                    misses,
                ),
                Lookup::Miss => (m, pending.push(Pending::Load(id)), misses.push(id)),
                Lookup::Absent => (m, pending, misses),
            }
        }
    }

    /// The second step of a batch lookup: `loaded` holds, in order, values
    /// loaded for some of the missed IDs. Each missed ID is matched against
    /// the next unused loaded value: a match is inserted and returned; a
    /// mismatch marks the ID missing; once the loaded values run out, the
    /// remaining missed IDs are dropped. Also returns how many loaded values
    /// were used.
    pub open spec fn finish_multiple(self, cap: nat, pending: Seq<Pending>, loaded: Seq<T>) -> (Self, Seq<u64>, nat)
        decreases pending.len(),
    {
        if pending.len() == 0 {
            (self, Seq::empty(), 0)
        } else {
            let (m, found, used) = self.finish_multiple(cap, pending.drop_last(), loaded);
            match pending.last() {
                Pending::Found(h) => (m, found.push(h), used),
                Pending::Load(id) => if used >= loaded.len() {
                    (m, found, used)
                } else if loaded[used as int].spec_id() == id {
                    let (next, h) = m.insert(cap, id, loaded[used as int]);
                    (next, found.push(h), used + 1)
                } else {
                    (m.none(cap, id), found, used)
                },
            }
        }
    }
}

pub proof fn lemma_acquire_wf<T>(m: CacheModel<T>, h: u64, n: nat)
    requires
        m.wf(),
        m.has_room(n + 1),
    ensures
        m.acquire(h).wf(),
        m.acquire(h).has_room(n),
        m.acquire(h).next_handle == m.next_handle,
{
    let a = m.acquire(h);
    assert forall|g: u64| #[trigger] a.slots.contains_key(g) implies a.slots[g].refs + n < u64::MAX by {
        assert(m.slots.contains_key(g));
    }
}

pub proof fn lemma_none_wf<T>(m: CacheModel<T>, cap: nat, id: u128)
    requires
        m.wf(),
    ensures
        m.none(cap, id).wf(),
        forall|n: nat| m.has_room(n) ==> #[trigger] m.none(cap, id).has_room(n),
{
    let next = CacheModel { entries: m.entries.insert(id, None), ..m };
    assert(next.wf());
    lemma_emit_wf(next, cap, Event::Missing(id));
}

pub proof fn lemma_insert_wf<T>(m: CacheModel<T>, cap: nat, id: u128, value: T, n: nat)
    requires
        m.wf(),
        m.has_room(n + 1),
    ensures
        m.insert(cap, id, value).0.wf(),
        m.insert(cap, id, value).0.has_room(n),
{
    match m.lookup(id) {
        Lookup::Hit(h) => lemma_acquire_wf(m, h, n),
        _ => {
            let h = m.next_handle;
            let next = CacheModel {
                entries: m.entries.insert(id, Some(h)),
                slots: m.slots.insert(h, Slot { id, value, refs: 2 }),
                next_handle: (h + 1) as u64,
                ..m
            };
            assert forall|i: u128|
                #[trigger] next.entries.contains_key(i) && next.entries[i] is Some implies {
                let g = next.entries[i]->0;
                &&& next.slots.contains_key(g)
                &&& next.slots[g].id == i
            } by {
                if i != id {
                    assert(m.entries.contains_key(i));
                    let g = m.entries[i]->0;
                    assert(m.slots.contains_key(g));
                    assert(g < m.next_handle);
                }
            }
            assert(next.wf());
            assert(next.has_room(n));
            lemma_emit_wf(next, cap, Event::Insert(id, h));
        },
    }
}

pub proof fn lemma_begin_multiple_wf<T: Id>(m: CacheModel<T>, cap: nat, ids: Seq<u128>, n: nat)
    requires
        m.wf(),
        m.has_room(n + ids.len()),
    ensures
        m.begin_multiple(cap, ids).0.wf(),
        m.begin_multiple(cap, ids).0.has_room(n),
        m.begin_multiple(cap, ids).1.len() <= ids.len(),
        m.begin_multiple(cap, ids).2.len() <= ids.len(),
    decreases ids.len(),
{
    if ids.len() > 0 {
        lemma_begin_multiple_wf(m, cap, ids.drop_last(), n + 1);
        let (m0, p, x) = m.begin_multiple(cap, ids.drop_last());
        if let Lookup::Hit(h) = m0.lookup(ids.last()) {
            lemma_acquire_wf(m0, h, n);
            lemma_emit_wf(m0.acquire(h), cap, Event::Access(ids.last()));
        }
    }
}

pub proof fn lemma_finish_multiple_wf<T: Id>(m: CacheModel<T>, cap: nat, pending: Seq<Pending>, loaded: Seq<T>, n: nat)
    requires
        m.wf(),
        m.has_room(n + pending.len()),
    ensures
        m.finish_multiple(cap, pending, loaded).0.wf(),
        m.finish_multiple(cap, pending, loaded).0.has_room(n),
        m.finish_multiple(cap, pending, loaded).2 <= loaded.len(),
        m.finish_multiple(cap, pending, loaded).1.len() <= pending.len(),
    decreases pending.len(),
{
    if pending.len() > 0 {
        lemma_finish_multiple_wf(m, cap, pending.drop_last(), loaded, n + 1);
        let (m0, f, used) = m.finish_multiple(cap, pending.drop_last(), loaded);
        if let Pending::Load(id) = pending.last() {
            if used < loaded.len() {
                if loaded[used as int].spec_id() == id {
                    lemma_insert_wf(m0, cap, id, loaded[used as int], n);
                } else {
                    lemma_none_wf(m0, cap, id);
                    assert(m0.has_room(n));
                }
            }
        }
    }
}

pub proof fn lemma_release_wf<T>(m: CacheModel<T>, h: u64)
    requires
        m.wf(),
    ensures
        m.release(h).wf(),
        m.release(h).next_handle == m.next_handle,
        m.release(h).policy == m.policy,
        m.release(h).buffered == m.buffered,
        forall|n: nat| m.has_room(n) ==> #[trigger] m.release(h).has_room(n),
{
    let r = m.release(h);
    assert forall|n: nat| m.has_room(n) implies #[trigger] r.has_room(n) by {
        assert forall|g: u64| #[trigger] r.slots.contains_key(g) implies r.slots[g].refs + n < u64::MAX by {
            assert(m.slots.contains_key(g));
        }
    }
    if m.slots.contains_key(h) {
        let s = m.slots[h];
        if s.refs <= 1 {
            assert forall|id: u128|
                #[trigger] r.entries.contains_key(id) && r.entries[id] is Some implies {
                let g = r.entries[id]->0;
                &&& r.slots.contains_key(g)
                &&& r.slots[g].id == id
            } by {
                assert(m.entries.contains_key(id));
                let g = m.entries[id]->0;
                if g == h {
                    assert(m.slots[h].id == id);
                }
            }
        }
    }
}

pub proof fn lemma_apply_wf<T>(m: CacheModel<T>, cap: nat, event: Event)
    requires
        m.wf(),
    ensures
        m.apply(cap, event).wf(),
        m.apply(cap, event).next_handle == m.next_handle,
        m.apply(cap, event).buffered == m.buffered,
        forall|n: nat| m.has_room(n) ==> #[trigger] m.apply(cap, event).has_room(n),
{
    let (policy, displaced) = handle_spec(m.policy, cap, event);
    let next = CacheModel { policy, ..m };
    assert(next.wf());
    match displaced {
        Some((_, Some(h))) => lemma_release_wf(next, h),
        _ => {},
    }
}

pub proof fn lemma_commit_wf<T>(m: CacheModel<T>, cap: nat, events: Seq<Event>)
    requires
        m.wf(),
    ensures
        m.commit(cap, events).wf(),
        m.commit(cap, events).next_handle == m.next_handle,
        m.commit(cap, events).buffered == m.buffered,
        forall|n: nat| m.has_room(n) ==> #[trigger] m.commit(cap, events).has_room(n),
    decreases events.len(),
{
    if events.len() > 0 {
        lemma_apply_wf(m, cap, events[0]);
        lemma_commit_wf(m.apply(cap, events[0]), cap, events.drop_first());
    }
}

pub proof fn lemma_emit_wf<T>(m: CacheModel<T>, cap: nat, event: Event)
    requires
        m.wf(),
    ensures
        m.emit(cap, event).wf(),
        m.emit(cap, event).next_handle == m.next_handle,
        forall|n: nat| m.has_room(n) ==> #[trigger] m.emit(cap, event).has_room(n),
{
    let (buffered, batch) = buffer::push_spec(m.buffered, event);
    let next = CacheModel { buffered, ..m };
    assert(next.wf());
    if let Some(events) = batch {
        lemma_commit_wf(next, cap, events);
    }
}

/// A cache of values of one kind, by ID. Each value is shared through a
/// handle and stays alive while it has holders; a least-recently-used policy,
/// fed with batches of buffered events, holds the values used last.
pub struct Cache<T> {
    token: BufferToken,
    name: String,
    map: DashMap<u128, Option<u64>>,
    slots: HashMap<u64, Slot<T>>,
    policy: Policy,
    buffers: BufferStorage,
    next_handle: u64,
    dropped: Vec<T>,
}

impl<T> View for Cache<T> {
    type V = CacheModel<T>;

    closed spec fn view(&self) -> CacheModel<T> {
        CacheModel {
            entries: dash_entries(self.map),
            slots: self.slots@,
            policy: self.policy@,
            buffered: if self.token.index() < self.buffers@.len() {
                buffer::visible_events(self.buffers@[self.token.index() as int], self.token.version())
            } else {
                Seq::<Event>::empty()
            },
            next_handle: self.next_handle,
            dropped: self.dropped@,
        }
    }
}

impl<T> Cache<T> {
    pub closed spec fn cap(&self) -> nat {
        self.policy.cap()
    }

    pub closed spec fn wf(&self) -> bool {
        &&& self@.wf()
        &&& self.policy.wf()
        &&& self.buffers.wf()
    }

    /// A well-formed cache has a well-formed model.
    pub proof fn lemma_wf_model(&self)
        requires
            self.wf(),
        ensures
            self@.wf(),
    {
    }

    pub closed spec fn name(&self) -> Seq<char> {
        self.name@
    }

    /// A new, empty cache whose policy holds up to `cap` values; it claims
    /// its buffer token from `registry`.
    pub fn new(name: &str, cap: usize, registry: &mut TokenRegistry) -> (cache: Self)
        requires
            cap > 0,
            old(registry).can_claim(),
        ensures
            cache.wf(),
            cache.name() == name@,
            cache.cap() == cap,
            cache@.entries == Map::<u128, Option<u64>>::empty(),
            cache@.slots == Map::<u64, Slot<T>>::empty(),
            cache@.policy == Seq::<(u128, Option<u64>)>::empty(),
            cache@.buffered == Seq::<Event>::empty(),
            cache@.dropped == Seq::<T>::empty(),
            cache@.next_handle == 0,
            forall|n: nat| n + 2 < u64::MAX ==> #[trigger] cache@.has_room(n),
            final(registry).claim_spec(*old(registry), cache.token()),
            final(registry).claimed_by(cache.token()),
    {
        let token = BufferToken::new(registry);
        let cache = Cache {
            token,
            name: name.to_owned(),
            map: dash_new(),
            slots: HashMap::new(),
            policy: Policy::new(cap),
            buffers: BufferStorage::new(),
            next_handle: 0,
            dropped: Vec::new(),
        };
        assert(cache@.slots =~= Map::<u64, Slot<T>>::empty());
        cache
    }

    pub closed spec fn token(&self) -> BufferToken {
        self.token
    }

    /// Gives back the buffer token, so that another cache can reuse its slot.
    pub fn into_token(self) -> (token: BufferToken)
        ensures
            token == self.token(),
    {
        self.token
    }

    pub fn acquire(&mut self, handle: u64)
        requires
            old(self).wf(),
            old(self)@.has_room(1),
        ensures
            final(self).wf(),
            final(self)@ == old(self)@.acquire(handle),
            final(self).cap() == old(self).cap(),
            final(self).token() == old(self).token(),
    {
        match slot_mut(&mut self.slots, handle) {
            Some(slot) => {
                slot.refs = slot.refs + 1;
            },
            None => {},
        }
        assert(self@.slots =~= old(self)@.acquire(handle).slots);
    }

    /// One holder of `handle` lets it go. When the last holder goes, the
    /// value is dropped, and so is its ID's entry if it still points to the
    /// value or marks the ID missing.
    pub fn release(&mut self, handle: u64)
        requires
            old(self).wf(),
        ensures
            final(self).wf(),
            final(self)@ == old(self)@.release(handle),
            final(self).cap() == old(self).cap(),
            final(self).token() == old(self).token(),
    {
        proof {
            lemma_release_wf(self@, handle);
        }
        let mut dropped: Option<u128> = None;
        match slot_mut(&mut self.slots, handle) {
            Some(slot) => {
                if slot.refs <= 1 {
                    dropped = Some(slot.id);
                } else {
                    slot.refs = slot.refs - 1;
                }
            },
            None => {},
        }
        if let Some(id) = dropped {
            let slot = self.slots.remove(&handle);
            match slot {
                Some(slot) => self.dropped.push(slot.value),
                None => {},
            }
            match dash_get(&self.map, id) {
                Some(entry) => {
                    let points_here = match entry {
                        Some(h) => h == handle,
                        None => true,
                    };
                    if points_here {
                        dash_remove(&mut self.map, id);
                    }
                },
                None => {},
            }
        }
        assert(self@.slots =~= old(self)@.release(handle).slots);
        assert(self@.entries =~= old(self)@.release(handle).entries);
    }

    fn apply(&mut self, event: Event)
        requires
            old(self).wf(),
        ensures
            final(self).wf(),
            final(self)@ == old(self)@.apply(old(self).cap(), event),
            final(self).cap() == old(self).cap(),
            final(self).token() == old(self).token(),
    {
        proof {
            lemma_apply_wf(self@, self.cap(), event);
        }
        let displaced = self.policy.handle(event);
        match displaced {
            Some((id, None)) => {
                dash_remove(&mut self.map, id);
            },
            Some((_, Some(h))) => {
                self.release(h);
            },
            None => {},
        }
    }

    /// Hands a batch of events to the policy, in order.
    fn commit(&mut self, events: Events)
        requires
            old(self).wf(),
        ensures
            final(self).wf(),
            final(self)@ == old(self)@.commit(old(self).cap(), events@),
            final(self).cap() == old(self).cap(),
            final(self).token() == old(self).token(),
    {
        let events = events.into_vec();
        let ghost all = events@;
        let mut i: usize = 0;
        proof {
            assert(all.subrange(0, all.len() as int) =~= all);
        }
        while i < events.len()
            invariant
                self.wf(),
                self.cap() == old(self).cap(),
                self.token() == old(self).token(),
                events@ == all,
                0 <= i <= all.len(),
                self@.commit(self.cap(), all.subrange(i as int, all.len() as int)) == old(self)@.commit(
                    old(self).cap(),
                    all,
                ),
            decreases all.len() - i,
        {
            proof {
                assert(all.subrange(i as int, all.len() as int).drop_first() =~= all.subrange(
                    i + 1,
                    all.len() as int,
                ));
            }
            self.apply(events[i]);
            i += 1;
        }
        proof {
            assert(all.subrange(i as int, all.len() as int) =~= Seq::<Event>::empty());
        }
    }

    /// Buffers `event`; a full buffer is handed to the policy first.
    fn emit(&mut self, event: Event)
        requires
            old(self).wf(),
        ensures
            final(self).wf(),
            final(self)@ == old(self)@.emit(old(self).cap(), event),
            final(self).cap() == old(self).cap(),
            final(self).token() == old(self).token(),
    {
        proof {
            lemma_emit_wf(self@, self.cap(), event);
        }
        let batch = self.buffers.emit(&self.token, event);
        proof {
            let (b, bt) = buffer::push_spec(old(self)@.buffered, event);
            assert(self@.buffered == b);
            assert(buffer::batch_view(batch) == bt);
        }
        match batch {
            Some(events) => self.commit(events),
            None => {},
        }
    }

    /// What the cache holds for `id`, without telling the policy.
    pub fn lookup(&self, id: u128) -> (found: Lookup)
        ensures
            found == self@.lookup(id),
    {
        match dash_get(&self.map, id) {
            Some(Some(h)) => Lookup::Hit(h),
            Some(None) => Lookup::Absent,
            None => Lookup::Miss,
        }
    }

    /// Looks `id` up without telling the policy; a live value is handed out
    /// to one more holder.
    pub fn get_cached(&mut self, id: u128) -> (handle: Option<u64>)
        requires
            old(self).wf(),
            old(self)@.has_room(1),
        ensures
            final(self).wf(),
            final(self).cap() == old(self).cap(),
            final(self).token() == old(self).token(),
            match old(self)@.lookup(id) {
                Lookup::Hit(h) => handle == Some(h) && final(self)@ == old(self)@.acquire(h),
                _ => handle is None && final(self)@ == old(self)@,
            },
    {
        match self.lookup(id) {
            Lookup::Hit(h) => {
                self.acquire(h);
                Some(h)
            },
            _ => None,
        }
    }

    /// Looks `id` up. A live value is handed out to one more holder; a hit,
    /// and an ID known not to exist, count as accesses. On a miss nothing
    /// changes: the caller loads the value and completes with
    /// `complete_get`.
    pub fn get(&mut self, id: u128) -> (found: Lookup)
        where T: Id,
        requires
            old(self).wf(),
            old(self)@.has_room(1),
        ensures
            final(self).wf(),
            final(self).cap() == old(self).cap(),
            final(self).token() == old(self).token(),
            (final(self)@, found) == old(self)@.get(old(self).cap(), id),
    {
        let found = self.lookup(id);
        match found {
            Lookup::Hit(h) => {
                proof {
                    lemma_acquire_wf(self@, h, 0);
                }
                self.acquire(h);
                self.emit(Event::Access(id));
            },
            Lookup::Absent => {
                self.emit(Event::Access(id));
            },
            Lookup::Miss => {},
        }
        found
    }

    /// Completes a `get` that missed, with what was loaded for `id`: a value
    /// is inserted and handed out; nothing marks the ID missing.
    pub fn complete_get(&mut self, id: u128, loaded: Option<T>) -> (handle: Option<u64>)
        where T: Id,
        requires
            old(self).wf(),
            old(self)@.has_room(1),
        ensures
            final(self).wf(),
            final(self).cap() == old(self).cap(),
            final(self).token() == old(self).token(),
            (final(self)@, handle) == old(self)@.complete_get(old(self).cap(), id, loaded),
    {
        match loaded {
            Some(value) => Some(self.insert(value)),
            None => {
                self.none(id);
                None
            },
        }
    }

    /// Marks `id` as known not to exist.
    fn none(&mut self, id: u128)
        requires
            old(self).wf(),
        ensures
            final(self).wf(),
            final(self).cap() == old(self).cap(),
            final(self).token() == old(self).token(),
            final(self)@ == old(self)@.none(old(self).cap(), id),
    {
        dash_insert(&mut self.map, id, None);
        proof {
            lemma_none_wf(old(self)@, self.cap(), id);
        }
        self.emit(Event::Missing(id));
    }

    /// Stores `value` under its ID and hands it out. If a live value is
    /// already cached under that ID, that value is handed out instead and
    /// `value` is dropped.
    pub fn insert(&mut self, value: T) -> (handle: u64)
        where T: Id,
        requires
            old(self).wf(),
            old(self)@.has_room(1),
        ensures
            final(self).wf(),
            final(self).cap() == old(self).cap(),
            final(self).token() == old(self).token(),
            (final(self)@, handle) == old(self)@.insert(old(self).cap(), value.spec_id(), value),
    {
        let id = value.id();
        proof {
            lemma_insert_wf(self@, self.cap(), id, value, 0);
        }
        match self.lookup(id) {
            Lookup::Hit(h) => {
                self.acquire(h);
                h
            },
            _ => {
                let h = self.next_handle;
                self.slots.insert(h, Slot { id, value, refs: 2 });
                dash_insert(&mut self.map, id, Some(h));
                self.next_handle = h + 1;
                proof {
                    let m = old(self)@;
                    let next = CacheModel {
                        entries: m.entries.insert(id, Some(h)),
                        slots: m.slots.insert(h, Slot { id, value, refs: 2 }),
                        next_handle: (h + 1) as u64,
                        ..m
                    };
                    assert(self@.slots =~= next.slots);
                    assert(self@ == next);
                }
                self.emit(Event::Insert(id, h));
                h
            },
        }
    }

    /// Marks `id` as missing, if the cache knows of it. Values already
    /// handed out stay alive for their holders.
    pub fn remove(&mut self, id: u128)
        requires
            old(self).wf(),
        ensures
            final(self).wf(),
            final(self).cap() == old(self).cap(),
            final(self).token() == old(self).token(),
            final(self)@ == old(self)@.remove(id),
    {
        if dash_get(&self.map, id).is_some() {
            dash_insert(&mut self.map, id, None);
            proof {
                assert(self@ == old(self)@.remove(id));
                assert(self@.wf());
            }
        }
    }

    /// The first step of a batch lookup; see `CacheModel::begin_multiple`.
    /// The caller loads the IDs listed as misses, in their order, and
    /// completes with `finish_multiple`.
    pub fn begin_multiple(&mut self, ids: &Vec<u128>) -> (result: (Vec<Pending>, Vec<u128>))
        where T: Id,
        requires
            old(self).wf(),
            old(self)@.has_room(ids@.len()),
        ensures
            final(self).wf(),
            final(self).cap() == old(self).cap(),
            final(self).token() == old(self).token(),
            (final(self)@, result.0@, result.1@) == old(self)@.begin_multiple(old(self).cap(), ids@),
    {
        let mut pending: Vec<Pending> = Vec::new();
        let mut misses: Vec<u128> = Vec::new();
        let mut i: usize = 0;
        while i < ids.len()
            invariant
                0 <= i <= ids@.len(),
                self.wf(),
                self.cap() == old(self).cap(),
                self.token() == old(self).token(),
                (self@, pending@, misses@) == old(self)@.begin_multiple(
                    old(self).cap(),
                    ids@.take(i as int),
                ),
                self@.has_room((ids@.len() - i) as nat),
            decreases ids@.len() - i,
        {
            let id = ids[i];
            proof {
                assert(ids@.take(i + 1).drop_last() =~= ids@.take(i as int));
            }
            match self.lookup(id) {
                Lookup::Hit(h) => {
                    proof {
                        lemma_acquire_wf(self@, h, (ids@.len() - i - 1) as nat);
                        lemma_emit_wf(self@.acquire(h), self.cap(), Event::Access(id));
                    }
                    self.acquire(h);
                    self.emit(Event::Access(id));
                    pending.push(Pending::Found(h));
                },
                Lookup::Miss => {
                    pending.push(Pending::Load(id));
                    misses.push(id);
                },
                Lookup::Absent => {},
            }
            i += 1;
        }
        proof {
            assert(ids@.take(i as int) =~= ids@);
        }
        (pending, misses)
    }

    /// The second step of a batch lookup; see `CacheModel::finish_multiple`.
    pub fn finish_multiple(&mut self, pending: Vec<Pending>, loaded: Vec<T>) -> (found: Vec<u64>)
        where T: Id,
        requires
            old(self).wf(),
            old(self)@.has_room(pending@.len()),
        ensures
            final(self).wf(),
            final(self).cap() == old(self).cap(),
            final(self).token() == old(self).token(),
            (final(self)@, found@) == ({
                let (m, f, _) = old(self)@.finish_multiple(old(self).cap(), pending@, loaded@);
                (m, f)
            }),
    {
        let ghost all_loaded = loaded@;
        let mut loaded = loaded;
        let mut used: usize = 0;
        let total = loaded.len();
        proof {
            assert(loaded@.skip(0) =~= loaded@);
            assert(all_loaded.len() == total);
        }
        let mut found: Vec<u64> = Vec::new();
        let mut i: usize = 0;
        while i < pending.len()
            invariant
                0 <= i <= pending@.len(),
                self.wf(),
                self.cap() == old(self).cap(),
                self.token() == old(self).token(),
                ({
                    let (m, f, u) = old(self)@.finish_multiple(
                        old(self).cap(),
                        pending@.take(i as int),
                        all_loaded,
                    );
                    &&& self@ == m
                    &&& found@ == f
                    &&& used == u
                }),
                used <= all_loaded.len() <= usize::MAX,
                loaded@ == all_loaded.skip(used as int),
                self@.has_room((pending@.len() - i) as nat),
            decreases pending@.len() - i,
        {
            proof {
                assert(pending@.take(i + 1).drop_last() =~= pending@.take(i as int));
            }
            match pending[i] {
                Pending::Found(h) => {
                    found.push(h);
                },
                Pending::Load(id) => {
                    if loaded.len() > 0 {
                        proof {
                            assert(loaded@[0] == all_loaded[used as int]);
                            assert(used < all_loaded.len());
                        }
                        if loaded[0].id() == id {
                            let value = loaded.remove(0);
                            proof {
                                assert(loaded@ =~= all_loaded.skip(used + 1));
                            }
                            proof {
                                lemma_insert_wf(self@, self.cap(), id, value, (pending@.len() - i - 1) as nat);
                            }
                            let h = self.insert(value);
                            found.push(h);
                            used = used + 1;
                        } else {
                            proof {
                                lemma_none_wf(self@, self.cap(), id);
                            }
                            self.none(id);
                        }
                    }
                },
            }
            i += 1;
        }
        proof {
            assert(pending@.take(i as int) =~= pending@);
        }
        found
    }

    /// The value of `handle`, if it is alive.
    pub fn value(&self, handle: u64) -> (value: Option<&T>)
        ensures
            match value {
                Some(v) => self@.slots.contains_key(handle) && *v == self@.slots[handle].value,
                None => !self@.slots.contains_key(handle),
            },
    {
        match self.slots.get(&handle) {
            Some(slot) => Some(&slot.value),
            None => None,
        }
    }

    /// Mutable access to the value of `handle`, if it is alive.
    pub fn value_mut(&mut self, handle: u64) -> (value: Option<&mut T>)
        requires
            old(self).wf(),
        ensures
            final(self).cap() == old(self).cap(),
            final(self).token() == old(self).token(),
            match value {
                Some(v) => {
                    &&& old(self)@.slots.contains_key(handle)
                    &&& *v == old(self)@.slots[handle].value
                    &&& final(self)@ == (CacheModel {
                        slots: old(self)@.slots.insert(
                            handle,
                            Slot { value: *final(v), ..old(self)@.slots[handle] },
                        ),
                        ..old(self)@
                    })
                },
                None => !old(self)@.slots.contains_key(handle) && final(self)@ == old(self)@,
            },
            final(self).wf(),
    {
        match slot_mut(&mut self.slots, handle) {
            Some(slot) => Some(&mut slot.value),
            None => None,
        }
    }

    /// Takes the values whose last holder let go, oldest first.
    pub fn take_dropped(&mut self) -> (dropped: Vec<T>)
        requires
            old(self).wf(),
        ensures
            final(self).wf(),
            dropped@ == old(self)@.dropped,
            final(self)@ == (CacheModel { dropped: Seq::<T>::empty(), ..old(self)@ }),
            final(self).cap() == old(self).cap(),
            final(self).token() == old(self).token(),
    {
        let mut dropped = Vec::new();
        std::mem::swap(&mut dropped, &mut self.dropped);
        dropped
    }
}

} // verus!

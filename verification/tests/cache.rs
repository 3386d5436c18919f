use minty::cache::buffer::{Buffer, BufferStorage, BufferToken, Event, TokenRegistry, BUFFER_LEN};
use minty::cache::inner::{Cache, Lookup, Pending};
use minty::cache::lock::CacheLock;
use minty::cache::policy::Policy;
use minty::cache::users::User;
use minty::db;

fn profile(name: &str) -> db::EntityProfile {
    db::EntityProfile {
        name: name.to_string(),
        aliases: Vec::new(),
        description: String::new(),
        sources: Vec::new(),
        avatar: None,
        banner: None,
        created: 0,
    }
}

fn user(id: u128) -> User {
    User::from_db(db::User {
        id,
        email: format!("user{id}@example.com"),
        admin: false,
        profile: profile("user"),
        post_count: 0,
        comment_count: 0,
        tag_count: 0,
    })
}

fn cache(cap: usize) -> (Cache<User>, TokenRegistry) {
    let mut registry = TokenRegistry::new();
    let cache = Cache::new("user", cap, &mut registry);
    (cache, registry)
}

#[test]
fn cache_lock_new_update_delete() {
    let mut lock = CacheLock::new(5);
    assert!(!lock.is_deleted());
    assert_eq!(lock.get(), Some(&5));
    if let Some(v) = lock.update() {
        *v = 6;
    }
    assert_eq!(lock.map(|v| v * 2), Some(12));
    assert_eq!(lock.delete(), Some(6));
    assert!(lock.is_deleted());
    assert_eq!(lock.update(), None);
    assert_eq!(lock.map(|v| v * 2), None);
    assert_eq!(lock.delete(), None);
}

#[test]
fn get_after_insert_hits() {
    let (mut cache, _registry) = cache(10);
    assert_eq!(cache.get(7), Lookup::Miss);
    let h = cache.insert(user(7));
    assert_eq!(cache.get(7), Lookup::Hit(h));
    assert_eq!(cache.value(h).map(|u| u.id), Some(7));
    assert_eq!(cache.get_cached(7), Some(h));
}

#[test]
fn insert_of_a_cached_id_keeps_the_first_value() {
    let (mut cache, _registry) = cache(10);
    let h1 = cache.insert(user(7));
    let h2 = cache.insert(user(7));
    assert_eq!(h1, h2);
}

#[test]
fn missing_ids_are_remembered() {
    let (mut cache, _registry) = cache(10);
    assert_eq!(cache.get(9), Lookup::Miss);
    assert_eq!(cache.complete_get(9, None), None);
    assert_eq!(cache.get(9), Lookup::Absent);
    assert_eq!(cache.get_cached(9), None);
}

#[test]
fn complete_get_inserts_what_was_loaded() {
    let (mut cache, _registry) = cache(10);
    let h = cache.complete_get(3, Some(user(3))).unwrap();
    assert_eq!(cache.get(3), Lookup::Hit(h));
}

#[test]
fn removed_ids_read_absent_but_values_stay() {
    let (mut cache, _registry) = cache(10);
    let h = cache.insert(user(1));
    cache.remove(1);
    assert_eq!(cache.get(1), Lookup::Absent);
    assert_eq!(cache.value(h).map(|u| u.id), Some(1));
    cache.remove(2);
    assert_eq!(cache.get(2), Lookup::Miss);
}

#[test]
fn last_release_drops_the_value() {
    let (mut cache, _registry) = cache(10);
    let h = cache.insert(user(4));
    // The caller and the (not yet informed) policy hold it.
    cache.release(h);
    assert!(cache.value(h).is_some());
    cache.release(h);
    assert!(cache.value(h).is_none());
    let dropped = cache.take_dropped();
    assert_eq!(dropped.len(), 1);
    assert_eq!(dropped[0].id, 4);
    assert_eq!(cache.get(4), Lookup::Miss);
}

#[test]
fn batch_lookup_matches_loaded_values_in_order() {
    let (mut cache, _registry) = cache(10);
    let h1 = cache.insert(user(1));
    cache.complete_get(2, None);
    let ids = vec![1, 2, 3, 4, 5];
    let (pending, misses) = cache.begin_multiple(&ids);
    assert_eq!(pending, vec![Pending::Found(h1), Pending::Load(3), Pending::Load(4), Pending::Load(5)]);
    assert_eq!(misses, vec![3, 4, 5]);
    // 3 is not found; 4 is.
    let found = cache.finish_multiple(pending, vec![user(4)]);
    assert_eq!(found.len(), 2);
    assert_eq!(found[0], h1);
    assert_eq!(cache.get(3), Lookup::Absent);
    assert_eq!(cache.get(4), Lookup::Hit(found[1]));
    assert_eq!(cache.get(5), Lookup::Miss);
}

#[test]
fn policy_evicts_least_recently_used() {
    let mut policy = Policy::new(2);
    assert_eq!(policy.handle(Event::Insert(1, 10)), None);
    assert_eq!(policy.handle(Event::Missing(2)), None);
    assert_eq!(policy.handle(Event::Access(1)), None);
    assert_eq!(policy.handle(Event::Insert(3, 30)), Some((2, None)));
    assert_eq!(policy.handle(Event::Insert(3, 31)), Some((3, Some(30))));
    assert_eq!(policy.handle(Event::Missing(4)), Some((1, Some(10))));
}

#[test]
fn buffer_hands_over_full_batches() {
    let mut buffer = Buffer::new();
    for i in 0..BUFFER_LEN {
        assert!(buffer.push(Event::Access(i as u128)).is_none());
    }
    let batch = buffer.push(Event::Access(1000)).unwrap().into_vec();
    assert_eq!(batch.len(), BUFFER_LEN);
    assert_eq!(batch[0], Event::Access(0));
    assert_eq!(batch[BUFFER_LEN - 1], Event::Access((BUFFER_LEN - 1) as u128));
    for i in 0..(BUFFER_LEN - 1) {
        assert!(buffer.push(Event::Missing(i as u128)).is_none());
    }
    let next = buffer.push(Event::Missing(5000)).unwrap().into_vec();
    assert_eq!(next[0], Event::Access(1000));
    assert_eq!(next[1], Event::Missing(0));
}

#[test]
fn registry_reuses_released_slots_under_new_versions() {
    let mut registry = TokenRegistry::new();
    let a = BufferToken::new(&mut registry);
    let b = registry.claim();
    assert_eq!((a.index_of(), a.version_of()), (0, 0));
    assert_eq!((b.index_of(), b.version_of()), (1, 0));
    registry.release(a);
    let c = registry.claim();
    assert_eq!((c.index_of(), c.version_of()), (0, 1));
    let d = registry.claim();
    assert_eq!((d.index_of(), d.version_of()), (2, 0));
}

#[test]
fn storage_discards_events_of_an_earlier_version() {
    let mut registry = TokenRegistry::new();
    let mut storage = BufferStorage::new();
    let a = registry.claim();
    for i in 0..10 {
        assert!(storage.emit(&a, Event::Access(i)).is_none());
    }
    registry.release(a);
    let b = registry.claim();
    for i in 0..BUFFER_LEN {
        assert!(storage.emit(&b, Event::Missing(i as u128)).is_none());
    }
    let batch = storage.emit(&b, Event::Missing(999)).unwrap().into_vec();
    assert_eq!(batch.len(), BUFFER_LEN);
    assert_eq!(batch[0], Event::Missing(0));
}

#[test]
fn registry_takes_the_lowest_released_slot() {
    let mut registry = TokenRegistry::new();
    let a = registry.claim();
    let b = registry.claim();
    let c = registry.claim();
    registry.release(c);
    registry.release(a);
    let d = registry.claim();
    assert_eq!((d.index_of(), d.version_of()), (0, 1));
    assert_ne!(d.index_of(), b.index_of());
    let e = registry.claim();
    assert_eq!((e.index_of(), e.version_of()), (2, 1));
}

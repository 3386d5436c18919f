use vstd::prelude::*;

use super::buffer::{first_released, lemma_first_released, push_spec, BufferToken, Event, TokenRegistry, BUFFER_LEN};
use super::inner::{CacheModel, Id, Lookup};
use super::comment::{at_path, at_tpath, replace_path, replace_tpath, valid_path, valid_tpath, CommentTree};
use super::policy::{handle_spec, keys_distinct, lemma_promote_keeps_wf, lemma_push_keeps_wf};
use super::store::{count_in, counted, forest_users, post_removed, released, removal_effects, step_n, Cache, UserCount};
use super::tags::TagMut;
use super::comment::forest_of;
use crate::model::Visibility;
use crate::db;
use super::discussion::{can_load, comments_loaded, loaded_thread};
use super::thread::{build_forest, thread_nodes};
use super::objects::{without_post, Object};
use super::posts::PostMut;
use super::posts::Post;
use super::tags::Tag;
use super::users::User;

verus! {

/// A value just inserted is found by its ID, under the handle the insert
/// returned, as long as the insert did not hand a full batch of events to
/// the policy. An ID that already had a live value keeps that value and its
/// handle; otherwise the handle holds the inserted value.
pub proof fn law_insert_then_lookup<T>(m: CacheModel<T>, cap: nat, id: u128, value: T)
    requires
        m.wf(),
        m.buffered.len() < BUFFER_LEN,
    ensures
        ({
            let (after, h) = m.insert(cap, id, value);
            &&& after.lookup(id) == Lookup::Hit(h)
            &&& after.slots.contains_key(h)
            &&& match m.lookup(id) {
                Lookup::Hit(old_h) => h == old_h && after.slots[h].value == m.slots[h].value,
                _ => after.slots[h].value == value && after.slots[h].id == id,
            }
        }),
{
}

/// Reading an ID right after inserting a value for it hits that value's
/// handle (under the same condition as `law_insert_then_lookup`).
pub proof fn law_get_after_insert<T: Id>(m: CacheModel<T>, cap: nat, id: u128, value: T)
    requires
        m.wf(),
        m.buffered.len() < BUFFER_LEN,
    ensures
        ({
            let (after, h) = m.insert(cap, id, value);
            after.get(cap, id).1 == Lookup::Hit(h)
        }),
{
    law_insert_then_lookup(m, cap, id, value);
}

/// When loading an ID finds nothing, the ID is remembered as missing: the
/// next read answers `Absent` without loading again (as long as the policy
/// did not take a full batch of events in between).
pub proof fn law_missing_is_remembered<T: Id>(m: CacheModel<T>, cap: nat, id: u128)
    requires
        m.buffered.len() < BUFFER_LEN,
    ensures
        ({
            let (after, handle) = m.complete_get(cap, id, None);
            &&& handle is None
            &&& after.lookup(id) == Lookup::Absent
            &&& after.get(cap, id).1 == Lookup::Absent
        }),
{
}

/// After an ID is removed, reading it answers `Absent` if the cache knew the
/// ID and `Miss` otherwise; values already handed out stay alive.
pub proof fn law_get_after_remove<T: Id>(m: CacheModel<T>, cap: nat, id: u128)
    ensures
        m.remove(id).get(cap, id).1 == (if m.entries.contains_key(id) {
            Lookup::Absent
        } else {
            Lookup::Miss
        }),
        m.remove(id).slots == m.slots,
{
}

/// Letting go of a handle right after acquiring it leaves the cache as it
/// was.
pub proof fn law_release_undoes_acquire<T>(m: CacheModel<T>, h: u64)
    requires
        m.wf(),
        m.has_room(1),
    ensures
        m.acquire(h).release(h) == m,
{
    if m.slots.contains_key(h) {
        let s = m.slots[h];
        let a = m.acquire(h);
        assert(a.slots[h].refs == s.refs + 1);
        assert(a.release(h).slots =~= m.slots);
    }
}

/// A value stays alive while it has a holder: releasing a handle with other
/// holders keeps its value; releasing its last holder drops the value, which
/// is then queued as dropped.
pub proof fn law_value_lives_while_held<T>(m: CacheModel<T>, h: u64)
    requires
        m.wf(),
        m.slots.contains_key(h),
    ensures
        m.slots[h].refs > 1 ==> m.release(h).slots.contains_key(h) && m.release(h).slots[h].value
            == m.slots[h].value && m.release(h).slots[h].refs == m.slots[h].refs - 1,
        m.slots[h].refs == 1 ==> !m.release(h).slots.contains_key(h) && m.release(h).dropped
            == m.dropped.push(m.slots[h].value),
{
}

/// Buffering loses no event and keeps their order: the batch handed over
/// (if any) followed by what stays buffered is what was buffered followed
/// by the new event. A batch is handed over exactly when the buffer was
/// full.
pub proof fn law_buffer_keeps_events(buf: Seq<Event>, event: Event)
    requires
        buf.len() <= BUFFER_LEN,
    ensures
        ({
            let (kept, batch) = push_spec(buf, event);
            &&& kept.len() <= BUFFER_LEN
            &&& batch is Some <==> buf.len() == BUFFER_LEN
            &&& match batch {
                Some(b) => b + kept == buf.push(event) && b.len() == BUFFER_LEN,
                None => kept == buf.push(event),
            }
        }),
{
    let (kept, batch) = push_spec(buf, event);
    if buf.len() == BUFFER_LEN {
        assert(buf + seq![event] =~= buf.push(event));
    }
}

/// The eviction policy never holds more than its capacity, never holds an ID
/// twice, and keeps the entry of an inserted or missing ID as the most
/// recently used. When it is full and learns of a new ID, it displaces the
/// least recently used entry.
pub proof fn law_policy_bounded(entries: Seq<(u128, Option<u64>)>, cap: nat, event: Event)
    requires
        cap > 0,
        entries.len() <= cap,
        keys_distinct(entries),
    ensures
        ({
            let (after, displaced) = handle_spec(entries, cap, event);
            &&& after.len() <= cap
            &&& keys_distinct(after)
            &&& match event {
                Event::Insert(id, h) => after.last() == (id, Some(h)),
                Event::Missing(id) => after.last() == (id, None::<u64>),
                Event::Access(_) => after.len() == entries.len() && displaced is None,
            }
            &&& match event {
                Event::Access(_) => true,
                Event::Insert(id, _) | Event::Missing(id) => (forall|i: int|
                    0 <= i < entries.len() ==> entries[i].0 != id) && entries.len() == cap
                    ==> displaced == Some(entries[0]),
            }
        }),
{
    match event {
        Event::Access(id) => lemma_promote_keeps_wf(entries, id),
        Event::Missing(id) => lemma_push_keeps_wf(entries, cap, id, None),
        Event::Insert(id, h) => lemma_push_keeps_wf(entries, cap, id, Some(h)),
    }
}

proof fn lemma_tpath_read_after_write(t: CommentTree, path: Seq<usize>, n: CommentTree)
    requires
        valid_tpath(t, path),
    ensures
        valid_tpath(replace_tpath(t, path, n), path),
        at_tpath(replace_tpath(t, path, n), path) == n,
    decreases path.len(),
{
    if path.len() > 0 {
        lemma_tpath_read_after_write(t.children[path[0] as int], path.drop_first(), n);
    }
}

proof fn lemma_tpath_push(t: CommentTree, path: Seq<usize>, k: usize)
    requires
        valid_tpath(t, path),
        k < at_tpath(t, path).children.len(),
    ensures
        valid_tpath(t, path.push(k)),
        at_tpath(t, path.push(k)) == at_tpath(t, path).children[k as int],
    decreases path.len(),
{
    let c = t.children[path.push(k)[0] as int];
    if path.len() == 0 {
        assert(path.push(k)[0] == k);
        assert(path.push(k).drop_first() =~= Seq::<usize>::empty());
        assert(valid_tpath(c, path.push(k).drop_first()));
        assert(at_tpath(c, path.push(k).drop_first()) == c);
    } else {
        assert(path.push(k)[0] == path[0]);
        assert(path.push(k).drop_first() =~= path.drop_first().push(k));
        lemma_tpath_push(t.children[path[0] as int], path.drop_first(), k);
        assert(at_tpath(t, path.push(k)) == at_tpath(c, path.drop_first().push(k)));
    }
}

/// A comment written at a path of a thread is what that path then leads to.
pub proof fn law_comment_read_after_write(f: Seq<CommentTree>, path: Seq<usize>, n: CommentTree)
    requires
        valid_path(f, path),
    ensures
        valid_path(replace_path(f, path, n), path),
        at_path(replace_path(f, path, n), path) == n,
{
    lemma_tpath_read_after_write(f[path[0] as int], path.drop_first(), n);
}

/// A reply added under the comment at `path` is found at `path` followed by
/// the index that adding it returned (the comment's former number of
/// replies).
pub proof fn law_reply_found(f: Seq<CommentTree>, path: Seq<usize>, reply: CommentTree)
    requires
        valid_path(f, path),
        at_path(f, path).children.len() < usize::MAX,
    ensures
        ({
            let target = at_path(f, path);
            let k = target.children.len() as usize;
            let after = replace_path(f, path, CommentTree { children: target.children.push(reply), ..target });
            &&& valid_path(after, path.push(k))
            &&& at_path(after, path.push(k)) == reply
        }),
{
    let target = at_path(f, path);
    let k = target.children.len() as usize;
    let n = CommentTree { children: target.children.push(reply), ..target };
    let after = replace_path(f, path, n);
    law_comment_read_after_write(f, path, n);
    assert(path.push(k).drop_first() =~= path.drop_first().push(k));
    lemma_tpath_push(after[path[0] as int], path.drop_first(), k);
    assert(path.push(k)[0] == path[0]);
}

/// A top-level comment added to a thread is found at the path made of its
/// index alone.
pub proof fn law_added_comment_found(f: Seq<CommentTree>, comment: CommentTree)
    requires
        f.len() < usize::MAX,
    ensures
        valid_path(f.push(comment), seq![f.len() as usize]),
        at_path(f.push(comment), seq![f.len() as usize]) == comment,
{
    let p = seq![f.len() as usize];
    assert(p[0] == f.len());
    assert(p.drop_first() =~= Seq::<usize>::empty());
    assert(f.push(comment)[f.len() as int] == comment);
}

/// Deleting a post a second time changes no other cache, and the post
/// stays deleted.
pub proof fn law_remove_post_twice(c0: Cache, c1: Cache, c2: Cache, handle: u64)
    requires
        post_removed(c0, c1, handle),
        post_removed(c1, c2, handle),
    ensures
        c2.objects == c1.objects,
        c2.tags == c1.tags,
        c2.users == c1.users,
        c2.comments == c1.comments,
        c0.posts@.slots.contains_key(handle) ==> c2.posts@.slots.contains_key(handle)
            && c2.posts@.slots[handle].value.mutable@ is None,
{
}

proof fn lemma_count_in_contains(hs: Seq<u64>, g: u64)
    requires
        hs.contains(g),
    ensures
        count_in(hs, g) > 0,
    decreases hs.len(),
{
    if hs.last() != g {
        let k = choose|k: int| 0 <= k < hs.len() && hs[k] == g;
        assert(hs.drop_last()[k] == g);
        lemma_count_in_contains(hs.drop_last(), g);
    }
}

proof fn lemma_released_keeps_values<T>(m: CacheModel<T>, hs: Seq<u64>, g: u64)
    requires
        released(m, hs).slots.contains_key(g),
    ensures
        m.slots.contains_key(g),
        released(m, hs).slots[g].value == m.slots[g].value,
    decreases hs.len(),
{
    if hs.len() > 0 {
        lemma_released_keeps_values(m, hs.drop_last(), g);
    }
}

/// Deleting a live post unlinks it from its objects: afterwards no object
/// of the post that is still cached lists the post.
pub proof fn law_removed_post_unlinked(
    before: Cache,
    after: Cache,
    post: Post,
    m: PostMut,
    o: CacheModel<Object>,
    t: CacheModel<Tag>,
    u: CacheModel<User>,
    g: u64,
)
    requires
        removal_effects(before, after, post, m, o, t, u),
        m.objects@.contains(g),
        after.objects@.slots.contains_key(g),
    ensures
        !after.objects@.slots[g].value.posts@.contains(post.id),
{
    lemma_released_keeps_values(o, m.objects@, g);
    lemma_count_in_contains(m.objects@, g);
    assert(before.objects@.slots.contains_key(g));
    let b = before.objects@.slots[g].value.posts@;
    assert(o.slots[g].value.posts@ == without_post(b, post.id));
    let w = without_post(b, post.id);
    b.filter_lemma(|p: u128| p != post.id);
    if w.contains(post.id) {
        let k = choose|k: int| 0 <= k < w.len() && w[k] == post.id;
        assert(w[k] != post.id);
    }
}

/// Deleting a live post that was not a draft lowers its poster's post count
/// by one, and each tag's post count by the number of times the post lists
/// the tag (wrapping around, as the counts do); deleting a draft changes no
/// count.
pub proof fn law_removed_post_counts(
    before: Cache,
    after: Cache,
    post: Post,
    m: PostMut,
    o: CacheModel<Object>,
    t: CacheModel<Tag>,
    u: CacheModel<User>,
    g: u64,
)
    requires
        removal_effects(before, after, post, m, o, t, u),
    ensures
        after.tags@.slots.contains_key(g) ==> before.tags@.slots.contains_key(g)
            && after.tags@.slots[g].value.mutable@ == if m.visibility != Visibility::Draft && count_in(m.tags@, g) > 0 {
                match before.tags@.slots[g].value.mutable@ {
                    Some(tm) => Some(TagMut { post_count: step_n(tm.post_count, count_in(m.tags@, g), false), ..tm }),
                    None => None,
                }
            } else {
                before.tags@.slots[g].value.mutable@
            },
        (match post.poster {
            Some(p) => after.users@.slots.contains_key(p.handle) ==> before.users@.slots.contains_key(p.handle)
                && after.users@.slots[p.handle].value.mutable@ == if m.visibility != Visibility::Draft {
                    match before.users@.slots[p.handle].value.mutable@ {
                        Some(um) => Some(counted(um, UserCount::Posts, false)),
                        None => None,
                    }
                } else {
                    before.users@.slots[p.handle].value.mutable@
                },
            None => true,
        }),
{
    if after.tags@.slots.contains_key(g) {
        lemma_released_keeps_values(t, m.tags@, g);
    }
    if let Some(p) = post.poster {
        if after.users@.slots.contains_key(p.handle) {
            match m.comments {
                Some(c) => {
                    lemma_released_keeps_values(u, forest_users(forest_of(c@)), p.handle);
                },
                None => {},
            }
        }
    }
}

/// A new token never shares its slot with a live one: it takes the lowest
/// released slot, one version on, or, when no slot is released, a new slot
/// at version 0.
pub proof fn law_claim_takes_free_slot(before: TokenRegistry, after: TokenRegistry, token: BufferToken, live: BufferToken)
    requires
        after.claim_spec(before, token),
        before.claimed_by(live),
    ensures
        token.index() != live.index(),
        (exists|i: int| 0 <= i < before@.len() && !(#[trigger] before@[i]).claimed()) ==> {
            &&& token.index() < before@.len()
            &&& !before@[token.index() as int].claimed()
            &&& forall|j: int| 0 <= j < token.index() ==> (#[trigger] before@[j]).claimed()
            &&& token.version() == before@[token.index() as int].version() + 1
        },
        (forall|i: int| 0 <= i < before@.len() ==> (#[trigger] before@[i]).claimed()) ==> token.index()
            == before@.len() && token.version() == 0,
{
    lemma_first_released(before@);
    match first_released(before@) {
        Some(i) => {},
        None => {},
    }
}

/// Once a post's thread is loaded from its stored comments, reading it
/// gives the thread built from them, and it is not loaded again: a later
/// load, from any comments, is refused.
pub proof fn law_loaded_thread_kept(
    before: Cache,
    after: Cache,
    post: u64,
    comments: Seq<db::Comment>,
    users: Seq<(u128, u64)>,
    later_comments: Seq<db::Comment>,
    later_users: Seq<(u128, u64)>,
)
    requires
        comments_loaded(before, after, post, comments, users, true),
    ensures
        loaded_thread(after.posts@, post) == Some(build_forest(thread_nodes(comments, users))),
        !can_load(after.posts@, post, later_comments, later_users),
{
    assert(after.posts@.slots.contains_key(post));
}

} // verus!

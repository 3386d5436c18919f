use vstd::prelude::*;

use super::buffer::{lemma_claim_room, TokenRegistry};
use super::comment::{forest_of, lemma_forest_of, tree_of, Comment, CommentTree};
use super::conf::{size_or, Config};
use super::inner::{Cache as ValueCache, CacheModel, Slot};
use super::lock::lemma_lock_view_eq;
use super::objects::{with_post, without_post, Object};
use super::posts::{Held, Post, PostMut};
use crate::model::Visibility;
use super::tags::{Tag, TagMut};
use super::users::{User, UserMut};
use crate::db;
use dashmap::DashMap;

verus! {

/// The paths to comments, by comment ID: the handle of the post whose
/// thread holds the comment, and the child indices that lead to it.
pub uninterp spec fn comment_paths(map: DashMap<u128, (u64, Vec<usize>)>) -> Map<u128, (u64, Seq<usize>)>;

/// `dashmap::DashMap::new`: an empty map.
#[verifier::external_body]
fn paths_new() -> (created: DashMap<u128, (u64, Vec<usize>)>)
    ensures
        comment_paths(created).is_empty(),
{
    DashMap::new()
}

/// `dashmap::DashMap::get`: the entry of `id`, copied out of the guard
/// that the map hands back.
#[verifier::external_body]
fn paths_get(map: &DashMap<u128, (u64, Vec<usize>)>, id: u128) -> (found: Option<(u64, Vec<usize>)>)
    ensures
        match found {
            Some((post, path)) => comment_paths(*map).contains_key(id) && comment_paths(*map)[id] == (
                post,
                path@,
            ),
            None => !comment_paths(*map).contains_key(id),
        },
{
    map.get(&id).map(|entry| (entry.0, entry.1.clone()))
}

/// `dashmap::DashMap::insert`: stores the entry of `id`, replacing what was
/// there.
#[verifier::external_body]
fn paths_insert(map: &mut DashMap<u128, (u64, Vec<usize>)>, id: u128, post: u64, path: Vec<usize>)
    ensures
        comment_paths(*final(map)) == comment_paths(*old(map)).insert(id, (post, path@)),
{
    map.insert(id, (post, path));
}

/// `dashmap::DashMap::remove`: removes the entry of `id`, if there is one.
#[verifier::external_body]
fn paths_remove(map: &mut DashMap<u128, (u64, Vec<usize>)>, id: u128)
    ensures
        comment_paths(*final(map)) == comment_paths(*old(map)).remove(id),
{
    map.remove(&id);
}

/// The IDs of the comments in a thread.
pub open spec fn tree_ids(t: CommentTree) -> Set<u128>
    decreases t, 1nat,
{
    set![t.id] + forest_ids(t.children)
}

pub open spec fn forest_ids(f: Seq<CommentTree>) -> Set<u128>
    decreases f, 0nat,
{
    if f.len() == 0 {
        Set::empty()
    } else {
        tree_ids(f[0]) + forest_ids(f.drop_first())
    }
}

pub proof fn lemma_forest_ids_push(f: Seq<CommentTree>, t: CommentTree)
    ensures
        forest_ids(f.push(t)) == forest_ids(f) + tree_ids(t),
    decreases f.len(),
{
    if f.len() > 0 {
        assert(f.push(t).drop_first() =~= f.drop_first().push(t));
        assert(f.push(t)[0] == f[0]);
        lemma_forest_ids_push(f.drop_first(), t);
        assert(forest_ids(f.push(t)) =~= forest_ids(f) + tree_ids(t));
    } else {
        assert(f.push(t).drop_first() =~= Seq::<CommentTree>::empty());
        assert(f.push(t)[0] == t);
        assert(forest_ids(Seq::<CommentTree>::empty()) == Set::<u128>::empty());
        assert(forest_ids(f.push(t)) =~= forest_ids(f) + tree_ids(t));
    }
}

/// Where each cached comment sits in its post's thread.
pub struct CommentMap {
    map: DashMap<u128, (u64, Vec<usize>)>,
}

impl View for CommentMap {
    type V = Map<u128, (u64, Seq<usize>)>;

    closed spec fn view(&self) -> Map<u128, (u64, Seq<usize>)> {
        comment_paths(self.map)
    }
}

impl CommentMap {
    pub fn new() -> (map: Self)
        ensures
            map@.is_empty(),
    {
        CommentMap { map: paths_new() }
    }

    /// Where comment `id` sits, if known.
    pub fn get(&self, id: u128) -> (found: Option<(u64, Vec<usize>)>)
        ensures
            match found {
                Some((post, path)) => self@.contains_key(id) && self@[id] == (post, path@),
                None => !self@.contains_key(id),
            },
    {
        paths_get(&self.map, id)
    }

    /// Records where comment `id` sits.
    pub fn insert(&mut self, id: u128, post: u64, path: Vec<usize>)
        ensures
            final(self)@ == old(self)@.insert(id, (post, path@)),
    {
        paths_insert(&mut self.map, id, post, path);
    }

    /// Forgets comment `comment` and its replies.
    fn delete_comment(&mut self, comment: &Comment)
        ensures
            final(self)@ == old(self)@.remove_keys(tree_ids(tree_of(*comment))),
        decreases comment,
    {
        paths_remove(&mut self.map, comment.id);
        self.delete_all(&comment.children);
        proof {
            assert(final(self)@ =~= old(self)@.remove_keys(tree_ids(tree_of(*comment))));
        }
    }

    /// Forgets the comments of a thread.
    fn delete_all(&mut self, comments: &Vec<Comment>)
        ensures
            final(self)@ == old(self)@.remove_keys(forest_ids(forest_of(comments@))),
        decreases comments,
    {
        let mut i: usize = 0;
        proof {
            lemma_forest_of(comments@);
            assert(old(self)@ =~= old(self)@.remove_keys(forest_ids(forest_of(comments@).take(0))));
        }
        while i < comments.len()
            invariant
                0 <= i <= comments@.len(),
                forest_of(comments@).len() == comments@.len(),
                forall|k: int| 0 <= k < comments@.len() ==> #[trigger] forest_of(comments@)[k] == tree_of(comments@[k]),
                self@ == old(self)@.remove_keys(forest_ids(forest_of(comments@).take(i as int))),
            decreases comments@.len() - i,
        {
            let ghost f = forest_of(comments@);
            proof {
                assert(f.take(i + 1) =~= f.take(i as int).push(f[i as int]));
                lemma_forest_ids_push(f.take(i as int), f[i as int]);
            }
            self.delete_comment(&comments[i]);
            proof {
                assert(self@ =~= old(self)@.remove_keys(forest_ids(f.take(i + 1))));
            }
            i += 1;
        }
        proof {
            assert(forest_of(comments@).take(i as int) =~= forest_of(comments@));
        }
    }

    /// Forgets the removed comments `comments` and their replies.
    pub fn delete(&mut self, comments: Vec<Comment>)
        ensures
            final(self)@ == old(self)@.remove_keys(forest_ids(forest_of(comments@))),
    {
        self.delete_all(&comments);
    }
}

/// Which count of a user changes.
#[derive(Clone, Copy, Debug, PartialEq, Eq, Structural)]
pub enum UserCount {
    Posts,
    Comments,
    Tags,
}

/// `m` with one of its counts raised (or lowered) by one, wrapping around.
pub open spec fn counted(m: UserMut, which: UserCount, up: bool) -> UserMut {
    let step = |c: u32| if up {
        super::posts::wrapping_add_u32(c, 1)
    } else {
        super::posts::wrapping_sub_u32(c, 1)
    };
    match which {
        UserCount::Posts => UserMut { post_count: step(m.post_count), ..m },
        UserCount::Comments => UserMut { comment_count: step(m.comment_count), ..m },
        UserCount::Tags => UserMut { tag_count: step(m.tag_count), ..m },
    }
}

/// `after` differs from `before` at most in the value of the slot `h`,
/// which keeps its ID and holders.
pub open spec fn only_value_changed<T>(before: CacheModel<T>, after: CacheModel<T>, h: u64) -> bool {
    &&& after.entries == before.entries
    &&& after.policy == before.policy
    &&& after.buffered == before.buffered
    &&& after.next_handle == before.next_handle
    &&& after.dropped == before.dropped
    &&& after.slots.dom() == before.slots.dom()
    &&& forall|g: u64| #[trigger] before.slots.contains_key(g) && g != h ==> after.slots[g] == before.slots[g]
    &&& before.slots.contains_key(h) ==> after.slots[h].id == before.slots[h].id && after.slots[h].refs
        == before.slots[h].refs
}

/// The user cache after one count of the user behind `h` changes by one.
pub open spec fn user_counted(before: CacheModel<User>, after: CacheModel<User>, h: u64, which: UserCount, up: bool) -> bool {
    &&& only_value_changed(before, after, h)
    &&& before.slots.contains_key(h) ==> {
        let u = before.slots[h].value;
        &&& after.slots[h].value.id == u.id
        &&& after.slots[h].value.mutable@ == match u.mutable@ {
            Some(m) => Some(counted(m, which, up)),
            None => None,
        }
    }
}

/// Raises (or lowers) one count of the user behind `h`, if it is alive and
/// not deleted.
pub fn count_user(users: &mut ValueCache<User>, h: u64, which: UserCount, up: bool)
    requires
        old(users).wf(),
    ensures
        final(users).wf(),
        final(users).cap() == old(users).cap(),
        final(users).token() == old(users).token(),
        user_counted(old(users)@, final(users)@, h, which, up),
{
    match users.value_mut(h) {
        Some(user) => match user.mutable.update() {
            Some(m) => {
                match which {
                    UserCount::Posts => {
                        m.post_count = step(m.post_count, up);
                    },
                    UserCount::Comments => {
                        m.comment_count = step(m.comment_count, up);
                    },
                    UserCount::Tags => {
                        m.tag_count = step(m.tag_count, up);
                    },
                }
            },
            None => {},
        },
        None => {},
    }
    proof {
        assert(final(users)@.slots.dom() =~= old(users)@.slots.dom());
    }
}

/// `c` raised (or lowered) by one, wrapping around.
pub fn step(c: u32, up: bool) -> (r: u32)
    ensures
        r == (if up {
            super::posts::wrapping_add_u32(c, 1)
        } else {
            super::posts::wrapping_sub_u32(c, 1)
        }),
{
    if up {
        super::posts::wrapping_add(c, 1)
    } else {
        super::posts::wrapping_sub(c, 1)
    }
}

/// How often `g` occurs in `hs`.
pub open spec fn count_in(hs: Seq<u64>, g: u64) -> nat
    decreases hs.len(),
{
    if hs.len() == 0 {
        0
    } else {
        count_in(hs.drop_last(), g) + if hs.last() == g {
            1nat
        } else {
            0nat
        }
    }
}

pub proof fn lemma_count_single(h: u64, g: u64)
    ensures
        count_in(seq![h], g) == (if h == g {
            1nat
        } else {
            0nat
        }),
{
    assert(seq![h].drop_last() =~= Seq::<u64>::empty());
    assert(count_in(Seq::<u64>::empty(), g) == 0);
    assert(seq![h].last() == h);
}

/// `c` raised (or lowered) by `n`, wrapping around on 32 bits.
pub open spec fn step_n(c: u32, n: nat, up: bool) -> u32 {
    if up {
        ((c + n) % 0x1_0000_0000) as u32
    } else {
        ((c - n) % 0x1_0000_0000) as u32
    }
}

pub proof fn lemma_step_n(c: u32, n: nat, up: bool)
    ensures
        step_n(c, 0, up) == c,
        step_n(c, n + 1, up) == (if up {
            super::posts::wrapping_add_u32(step_n(c, n, up), 1)
        } else {
            super::posts::wrapping_sub_u32(step_n(c, n, up), 1)
        }),
{
    let m: int = 0x1_0000_0000;
    if up {
        let x = (c + n) % m;
        assert((c + n + 1) % m == (if x + 1 < m { x + 1 } else { 0 })) by {
            vstd::arithmetic::div_mod::lemma_add_mod_noop(c + n, 1, m);
        }
    } else {
        let x = (c - n) % m;
        assert((c - n - 1) % m == (if x >= 1 { x - 1 } else { m - 1 })) by {
            vstd::arithmetic::div_mod::lemma_sub_mod_noop(c - n, 1, m);
            vstd::arithmetic::div_mod::lemma_mod_bound(c - n, m);
        }
    }
}

/// The tag cache after the post count of each tag in `hs` changed by one
/// per occurrence.
pub open spec fn tags_counted(before: CacheModel<Tag>, after: CacheModel<Tag>, hs: Seq<u64>, up: bool) -> bool {
    &&& after.entries == before.entries
    &&& after.policy == before.policy
    &&& after.buffered == before.buffered
    &&& after.next_handle == before.next_handle
    &&& after.dropped == before.dropped
    &&& after.slots.dom() == before.slots.dom()
    &&& forall|g: u64| #[trigger] before.slots.contains_key(g) ==> {
        let b = before.slots[g];
        let a = after.slots[g];
        if count_in(hs, g) == 0 {
            a == b
        } else {
            &&& a.id == b.id
            &&& a.refs == b.refs
            &&& a.value.id == b.value.id
            &&& a.value.creator == b.value.creator
            &&& a.value.mutable@ == match b.value.mutable@ {
                Some(m) => Some(TagMut { post_count: step_n(m.post_count, count_in(hs, g), up), ..m }),
                None => None,
            }
        }
    }
}

/// The user cache after one count of each user in `hs` changed by one per
/// occurrence.
pub open spec fn users_counted(before: CacheModel<User>, after: CacheModel<User>, hs: Seq<u64>, which: UserCount, up: bool) -> bool {
    &&& after.entries == before.entries
    &&& after.policy == before.policy
    &&& after.buffered == before.buffered
    &&& after.next_handle == before.next_handle
    &&& after.dropped == before.dropped
    &&& after.slots.dom() == before.slots.dom()
    &&& forall|g: u64| #[trigger] before.slots.contains_key(g) ==> {
        let b = before.slots[g];
        let a = after.slots[g];
        if count_in(hs, g) == 0 {
            a == b
        } else {
            &&& a.id == b.id
            &&& a.refs == b.refs
            &&& a.value.id == b.value.id
            &&& a.value.mutable@ == match b.value.mutable@ {
                Some(m) => Some(counted_n(m, which, count_in(hs, g), up)),
                None => None,
            }
        }
    }
}

/// `m` with one count changed by `n`, wrapping around.
pub open spec fn counted_n(m: UserMut, which: UserCount, n: nat, up: bool) -> UserMut {
    match which {
        UserCount::Posts => UserMut { post_count: step_n(m.post_count, n, up), ..m },
        UserCount::Comments => UserMut { comment_count: step_n(m.comment_count, n, up), ..m },
        UserCount::Tags => UserMut { tag_count: step_n(m.tag_count, n, up), ..m },
    }
}

/// Changes the post count of the tag behind `h` by one, if it is alive and
/// not deleted.
pub fn count_tag(tags: &mut ValueCache<Tag>, h: u64, up: bool)
    requires
        old(tags).wf(),
    ensures
        final(tags).wf(),
        final(tags).cap() == old(tags).cap(),
        final(tags).token() == old(tags).token(),
        tags_counted(old(tags)@, final(tags)@, seq![h], up),
{
    match tags.value_mut(h) {
        Some(tag) => match tag.mutable.update() {
            Some(m) => {
                m.post_count = step(m.post_count, up);
            },
            None => {},
        },
        None => {},
    }
    proof {
        assert(final(tags)@.slots.dom() =~= old(tags)@.slots.dom());
        assert(seq![h].drop_last() =~= Seq::<u64>::empty());
        lemma_step_n(0, 0, up);
        assert forall|g: u64| #[trigger] old(tags)@.slots.contains_key(g) implies count_in(seq![h], g) == (if g == h {
            1nat
        } else {
            0nat
        }) by {
            lemma_count_single(h, g);
        }
        assert forall|c: u32| step_n(c, 1, up) == (if up {
            super::posts::wrapping_add_u32(c, 1)
        } else {
            super::posts::wrapping_sub_u32(c, 1)
        }) by {
            lemma_step_n(c, 0, up);
        }
    }
}

/// Changes the post count of each tag in `hs` by one per occurrence.
pub fn count_tags(tags: &mut ValueCache<Tag>, hs: &Vec<u64>, up: bool)
    requires
        old(tags).wf(),
    ensures
        final(tags).wf(),
        final(tags).cap() == old(tags).cap(),
        final(tags).token() == old(tags).token(),
        tags_counted(old(tags)@, final(tags)@, hs@, up),
{
    let mut i: usize = 0;
    proof {
        assert(hs@.take(0) =~= Seq::<u64>::empty());
        assert forall|c: u32| step_n(c, 0, up) == c by {
            lemma_step_n(c, 0, up);
        }
    }
    while i < hs.len()
        invariant
            0 <= i <= hs@.len(),
            tags.wf(),
            tags.cap() == old(tags).cap(),
            tags.token() == old(tags).token(),
            tags_counted(old(tags)@, tags@, hs@.take(i as int), up),
        decreases hs@.len() - i,
    {
        let ghost mid = tags@;
        count_tag(tags, hs[i], up);
        proof {
            let p = hs@.take(i as int);
            let q = hs@.take(i + 1);
            assert(q.drop_last() =~= p);
            assert(q.last() == hs@[i as int]);
            assert forall|g: u64| #[trigger] old(tags)@.slots.contains_key(g) implies {
                let b = old(tags)@.slots[g];
                let a = tags@.slots[g];
                if count_in(q, g) == 0 {
                    a == b
                } else {
                    &&& a.id == b.id
                    &&& a.refs == b.refs
                    &&& a.value.id == b.value.id
                    &&& a.value.creator == b.value.creator
                    &&& a.value.mutable@ == match b.value.mutable@ {
                        Some(m) => Some(TagMut { post_count: step_n(m.post_count, count_in(q, g), up), ..m }),
                        None => None,
                    }
                }
            } by {
                lemma_step_n(match old(tags)@.slots[g].value.mutable@ { Some(m) => m.post_count, None => 0 }, count_in(p, g), up);
                lemma_count_single(hs@[i as int], g);
            }
        }
        i += 1;
    }
    proof {
        assert(hs@.take(i as int) =~= hs@);
    }
}

/// Changes one count of each user in `hs` by one per occurrence.
pub fn count_users(users: &mut ValueCache<User>, hs: &Vec<u64>, which: UserCount, up: bool)
    requires
        old(users).wf(),
    ensures
        final(users).wf(),
        final(users).cap() == old(users).cap(),
        final(users).token() == old(users).token(),
        users_counted(old(users)@, final(users)@, hs@, which, up),
{
    let mut i: usize = 0;
    proof {
        assert(hs@.take(0) =~= Seq::<u64>::empty());
        assert forall|c: u32| step_n(c, 0, up) == c by {
            lemma_step_n(c, 0, up);
        }
        assert forall|m: UserMut| counted_n(m, which, 0, up) == m by {
            lemma_step_n(m.post_count, 0, up);
            lemma_step_n(m.comment_count, 0, up);
            lemma_step_n(m.tag_count, 0, up);
        }
    }
    while i < hs.len()
        invariant
            0 <= i <= hs@.len(),
            users.wf(),
            users.cap() == old(users).cap(),
            users.token() == old(users).token(),
            users_counted(old(users)@, users@, hs@.take(i as int), which, up),
        decreases hs@.len() - i,
    {
        count_user(users, hs[i], which, up);
        proof {
            let p = hs@.take(i as int);
            let q = hs@.take(i + 1);
            assert(q.drop_last() =~= p);
            assert(q.last() == hs@[i as int]);
            assert forall|g: u64| #[trigger] old(users)@.slots.contains_key(g) implies {
                let b = old(users)@.slots[g];
                let a = users@.slots[g];
                if count_in(q, g) == 0 {
                    a == b
                } else {
                    &&& a.id == b.id
                    &&& a.refs == b.refs
                    &&& a.value.id == b.value.id
                    &&& a.value.mutable@ == match b.value.mutable@ {
                        Some(m) => Some(counted_n(m, which, count_in(q, g), up)),
                        None => None,
                    }
                }
            } by {
                if let Some(m) = old(users)@.slots[g].value.mutable@ {
                    lemma_step_n(m.post_count, count_in(p, g), up);
                    lemma_step_n(m.comment_count, count_in(p, g), up);
                    lemma_step_n(m.tag_count, count_in(p, g), up);
                    lemma_step_n(m.post_count, 0, up);
                    lemma_step_n(m.comment_count, 0, up);
                    lemma_step_n(m.tag_count, 0, up);
                }
            }
        }
        i += 1;
    }
    proof {
        assert(hs@.take(i as int) =~= hs@);
    }
}

pub proof fn lemma_without_post_idem(posts: Seq<u128>, id: u128)
    ensures
        without_post(without_post(posts, id), id) == without_post(posts, id),
        !without_post(posts, id).contains(id),
    decreases posts.len(),
{
    reveal(Seq::filter);
    if posts.len() > 0 {
        lemma_without_post_idem(posts.drop_last(), id);
        let f = without_post(posts.drop_last(), id);
        if posts.last() != id {
            assert(without_post(posts, id) == f.push(posts.last()));
            assert(f.push(posts.last()).drop_last() =~= f);
            assert(without_post(f.push(posts.last()), id) == without_post(f, id).push(posts.last()));
            assert forall|k: int| 0 <= k < f.push(posts.last()).len() implies f.push(posts.last())[k] != id by {
                if k < f.len() {
                    assert(f.contains(f[k]) ==> f[k] != id);
                }
            }
        }
    }
}

/// The object cache after post `id` was recorded in (or forgotten by) each
/// object in `hs`.
pub open spec fn objects_posted(before: CacheModel<Object>, after: CacheModel<Object>, hs: Seq<u64>, id: u128, add: bool) -> bool {
    &&& after.entries == before.entries
    &&& after.policy == before.policy
    &&& after.buffered == before.buffered
    &&& after.next_handle == before.next_handle
    &&& after.dropped == before.dropped
    &&& after.slots.dom() == before.slots.dom()
    &&& forall|g: u64| #[trigger] before.slots.contains_key(g) ==> {
        let b = before.slots[g];
        let a = after.slots[g];
        if count_in(hs, g) == 0 {
            a == b
        } else {
            &&& a.id == b.id
            &&& a.refs == b.refs
            &&& a.value.id == b.value.id
            &&& a.value.preview_id == b.value.preview_id
            &&& a.value.hash == b.value.hash
            &&& a.value.size == b.value.size
            &&& a.value.posts@ == if add {
                with_post(b.value.posts@, id)
            } else {
                without_post(b.value.posts@, id)
            }
        }
    }
}

/// Records post `id` in (or forgets it from) each object in `hs`.
pub fn post_objects(objects: &mut ValueCache<Object>, hs: &Vec<u64>, id: u128, add: bool)
    requires
        old(objects).wf(),
    ensures
        final(objects).wf(),
        final(objects).cap() == old(objects).cap(),
        final(objects).token() == old(objects).token(),
        objects_posted(old(objects)@, final(objects)@, hs@, id, add),
{
    let mut i: usize = 0;
    proof {
        assert(hs@.take(0) =~= Seq::<u64>::empty());
    }
    while i < hs.len()
        invariant
            0 <= i <= hs@.len(),
            objects.wf(),
            objects.cap() == old(objects).cap(),
            objects.token() == old(objects).token(),
            objects_posted(old(objects)@, objects@, hs@.take(i as int), id, add),
        decreases hs@.len() - i,
    {
        let ghost mid = objects@;
        match objects.value_mut(hs[i]) {
            Some(object) => {
                if add {
                    object.add_post(id);
                } else {
                    object.delete_post(id);
                }
            },
            None => {},
        }
        proof {
            let p = hs@.take(i as int);
            let q = hs@.take(i + 1);
            assert(q.drop_last() =~= p);
            assert(q.last() == hs@[i as int]);
            assert(objects@.slots.dom() =~= mid.slots.dom());
            assert forall|g: u64| #[trigger] old(objects)@.slots.contains_key(g) implies {
                let b = old(objects)@.slots[g];
                let a = objects@.slots[g];
                if count_in(q, g) == 0 {
                    a == b
                } else {
                    &&& a.id == b.id
                    &&& a.refs == b.refs
                    &&& a.value.id == b.value.id
                    &&& a.value.preview_id == b.value.preview_id
                    &&& a.value.hash == b.value.hash
                    &&& a.value.size == b.value.size
                    &&& a.value.posts@ == if add {
                        with_post(b.value.posts@, id)
                    } else {
                        without_post(b.value.posts@, id)
                    }
                }
            } by {
                let b = old(objects)@.slots[g];
                lemma_without_post_idem(b.value.posts@, id);
                assert(mid.slots.contains_key(g));
                if g != hs@[i as int] {
                    assert(objects@.slots[g] == mid.slots[g]);
                    assert(count_in(q, g) == count_in(p, g));
                } else {
                    assert(count_in(q, g) == count_in(p, g) + 1);
                    assert(objects@.slots[g].id == mid.slots[g].id);
                    assert(objects@.slots[g].value.posts@ == if add {
                        with_post(mid.slots[g].value.posts@, id)
                    } else {
                        without_post(mid.slots[g].value.posts@, id)
                    });
                }
                if add {
                    assert(with_post(b.value.posts@, id).contains(id)) by {
                        if !b.value.posts@.contains(id) {
                            assert((seq![id] + b.value.posts@)[0] == id);
                        }
                    }
                }
            }
        }
        i += 1;
    }
    proof {
        assert(hs@.take(i as int) =~= hs@);
    }
}

/// The cache after each handle in `hs` was let go once, in order.
pub open spec fn released<T>(m: CacheModel<T>, hs: Seq<u64>) -> CacheModel<T>
    decreases hs.len(),
{
    if hs.len() == 0 {
        m
    } else {
        released(m, hs.drop_last()).release(hs.last())
    }
}

/// Lets go of each handle in `hs` once, in order.
pub fn release_all<T>(cache: &mut ValueCache<T>, hs: &Vec<u64>)
    requires
        old(cache).wf(),
    ensures
        final(cache).wf(),
        final(cache).cap() == old(cache).cap(),
        final(cache).token() == old(cache).token(),
        final(cache)@ == released(old(cache)@, hs@),
{
    let mut i: usize = 0;
    proof {
        assert(hs@.take(0) =~= Seq::<u64>::empty());
    }
    while i < hs.len()
        invariant
            0 <= i <= hs@.len(),
            cache.wf(),
            cache.cap() == old(cache).cap(),
            cache.token() == old(cache).token(),
            cache@ == released(old(cache)@, hs@.take(i as int)),
        decreases hs@.len() - i,
    {
        cache.release(hs[i]);
        proof {
            assert(hs@.take(i + 1).drop_last() =~= hs@.take(i as int));
        }
        i += 1;
    }
    proof {
        assert(hs@.take(i as int) =~= hs@);
    }
}

/// The handles on users that the comments of a thread hold, in order.
pub open spec fn tree_users(t: CommentTree) -> Seq<u64>
    decreases t, 1nat,
{
    (match t.user {
        Some(h) => seq![h],
        None => Seq::empty(),
    }) + forest_users(t.children)
}

pub open spec fn forest_users(f: Seq<CommentTree>) -> Seq<u64>
    decreases f, 0nat,
{
    if f.len() == 0 {
        Seq::empty()
    } else {
        tree_users(f[0]) + forest_users(f.drop_first())
    }
}

pub proof fn lemma_forest_users_push(f: Seq<CommentTree>, t: CommentTree)
    ensures
        forest_users(f.push(t)) == forest_users(f) + tree_users(t),
    decreases f.len(),
{
    if f.len() > 0 {
        assert(f.push(t).drop_first() =~= f.drop_first().push(t));
        assert(f.push(t)[0] == f[0]);
        lemma_forest_users_push(f.drop_first(), t);
        assert(forest_users(f.push(t)) =~= forest_users(f) + tree_users(t));
    } else {
        assert(f.push(t).drop_first() =~= Seq::<CommentTree>::empty());
        assert(f.push(t)[0] == t);
        assert(forest_users(Seq::<CommentTree>::empty()) == Seq::<u64>::empty());
        assert(forest_users(f.push(t)) =~= forest_users(f) + tree_users(t));
    }
}

/// Appends the handles on users that a thread's comments hold.
pub fn thread_users(comments: &Vec<Comment>, out: &mut Vec<u64>)
    ensures
        final(out)@ == old(out)@ + forest_users(forest_of(comments@)),
    decreases comments,
{
    let mut i: usize = 0;
    proof {
        lemma_forest_of(comments@);
        assert(forest_of(comments@).take(0) =~= Seq::<CommentTree>::empty());
        assert(old(out)@ =~= old(out)@ + forest_users(Seq::<CommentTree>::empty()));
    }
    while i < comments.len()
        invariant
            0 <= i <= comments@.len(),
            forest_of(comments@).len() == comments@.len(),
            forall|k: int| 0 <= k < comments@.len() ==> #[trigger] forest_of(comments@)[k] == tree_of(comments@[k]),
            out@ == old(out)@ + forest_users(forest_of(comments@).take(i as int)),
        decreases comments@.len() - i,
    {
        let ghost f = forest_of(comments@);
        let c = &comments[i];
        proof {
            assert(f.take(i + 1) =~= f.take(i as int).push(f[i as int]));
            lemma_forest_users_push(f.take(i as int), f[i as int]);
            lemma_forest_of(c.children@);
        }
        if let Some(h) = c.user {
            out.push(h);
        }
        thread_users(&c.children, out);
        proof {
            assert(out@ =~= old(out)@ + forest_users(f.take(i + 1)));
        }
        i += 1;
    }
    proof {
        assert(forest_of(comments@).take(i as int) =~= forest_of(comments@));
    }
}

pub proof fn lemma_insert_dom<K, V>(m: Map<K, V>, k: K, v: V)
    requires
        m.contains_key(k),
    ensures
        m.insert(k, v).dom() == m.dom(),
{
    assert(m.insert(k, v).dom() =~= m.dom());
}

/// The post cache after the state of the post behind `h` became `state`.
pub open spec fn post_state_set(before: CacheModel<Post>, after: CacheModel<Post>, h: u64, state: Option<PostMut>) -> bool {
    &&& only_value_changed(before, after, h)
    &&& before.slots.contains_key(h) ==> {
        &&& after.slots[h].value.id == before.slots[h].value.id
        &&& after.slots[h].value.poster == before.slots[h].value.poster
        &&& after.slots[h].value.mutable@ == state
    }
}

/// The caches of a repository: users, tags, objects and posts, and where
/// the comments of loaded threads sit.
pub struct Cache {
    pub comments: CommentMap,
    pub objects: ValueCache<Object>,
    pub posts: ValueCache<Post>,
    pub tags: ValueCache<Tag>,
    pub users: ValueCache<User>,
}

impl Cache {
    pub open spec fn wf(&self) -> bool {
        &&& self.objects.wf()
        &&& self.posts.wf()
        &&& self.tags.wf()
        &&& self.users.wf()
    }

    /// Empty caches, each holding as many values as `config` says; each
    /// claims its buffer token from `registry`.
    pub fn new(config: &Config, registry: &mut TokenRegistry) -> (cache: Self)
        requires
            config.wf(),
            old(registry).room_for_claims(4),
        ensures
            cache.wf(),
            cache.comments@.is_empty(),
            cache.objects.cap() == size_or(config.objects, config.default),
            cache.posts.cap() == size_or(config.posts, config.default),
            cache.tags.cap() == size_or(config.tags, config.default),
            cache.users.cap() == size_or(config.users, config.default),
            cache.objects@.entries.is_empty() && cache.objects@.slots.is_empty(),
            cache.posts@.entries.is_empty() && cache.posts@.slots.is_empty(),
            cache.tags@.entries.is_empty() && cache.tags@.slots.is_empty(),
            cache.users@.entries.is_empty() && cache.users@.slots.is_empty(),
            cache.objects.name() == "object"@,
            cache.posts.name() == "post"@,
            cache.tags.name() == "tag"@,
            cache.users.name() == "user"@,
            cache.objects@.next_handle == 0 && cache.posts@.next_handle == 0,
            cache.tags@.next_handle == 0 && cache.users@.next_handle == 0,
            forall|n: nat| n + 2 < u64::MAX ==> {
                &&& #[trigger] cache.objects@.has_room(n)
                &&& cache.posts@.has_room(n)
                &&& cache.tags@.has_room(n)
                &&& cache.users@.has_room(n)
            },
    {
        let ghost r0 = *registry;
        proof {
            lemma_claim_room_pre(r0, 3);
        }
        let objects = ValueCache::new("object", config.objects(), registry);
        let ghost r1 = *registry;
        proof {
            lemma_claim_room(r0, r1, objects.token(), 3);
        }
        let posts = ValueCache::new("post", config.posts(), registry);
        let ghost r2 = *registry;
        proof {
            lemma_claim_room(r1, r2, posts.token(), 2);
        }
        let tags = ValueCache::new("tag", config.tags(), registry);
        let ghost r3 = *registry;
        proof {
            lemma_claim_room(r2, r3, tags.token(), 1);
        }
        let users = ValueCache::new("user", config.users(), registry);
        Cache { comments: CommentMap::new(), objects, posts, tags, users }
    }

    /// Caches the user a database row describes and hands it out.
    pub fn insert_user(&mut self, user: db::User) -> (handle: u64)
        requires
            old(self).wf(),
            old(self).users@.has_room(1),
        ensures
            final(self).wf(),
            exists|v: User|
                #![trigger old(self).users@.insert(old(self).users.cap(), user.id, v)]
                (final(self).users@, handle) == old(self).users@.insert(old(self).users.cap(), user.id, v)
                    && v.id == user.id && (v.mutable@ matches Some(m) && m.email == user.email
                    && m.admin == user.admin && m.post_count == user.post_count && m.comment_count
                    == user.comment_count && m.tag_count == user.tag_count),
            final(self).users.cap() == old(self).users.cap(),
            final(self).posts == old(self).posts,
            final(self).tags == old(self).tags,
            final(self).objects == old(self).objects,
            final(self).comments == old(self).comments,
    {
        let user = User::from_db(user);
        let ghost id = user.id;
        let ghost v = user;
        let handle = self.users.insert(user);
        proof {
            assert(old(self).users@.insert(old(self).users.cap(), id, v) == (self.users@, handle));
        }
        handle
    }

    /// Deletes the user behind `handle`: its state is dropped, and its ID is
    /// marked missing.
    pub fn remove_user(&mut self, handle: u64)
        requires
            old(self).wf(),
        ensures
            final(self).wf(),
            final(self).posts == old(self).posts,
            final(self).tags == old(self).tags,
            final(self).objects == old(self).objects,
            old(self).users@.slots.contains_key(handle) ==> {
                let id = old(self).users@.slots[handle].value.id;
                &&& final(self).users@.slots[handle].value.mutable@ is None
                &&& old(self).users@.entries.contains_key(id) ==> final(self).users@.entries[id] is None
            },
    {
        let id = match self.users.value_mut(handle) {
            Some(user) => {
                user.delete();
                Some(user.id)
            },
            None => None,
        };
        if let Some(id) = id {
            self.users.remove(id);
        }
    }

    /// Caches a new tag made by `creator`, counting it as theirs, and hands
    /// it out. The tag keeps the creator's handle.
    pub fn insert_tag(&mut self, tag: db::Tag, creator: Held) -> (handle: u64)
        requires
            old(self).wf(),
            old(self).tags@.has_room(1),
        ensures
            final(self).wf(),
            user_counted(old(self).users@, final(self).users@, creator.handle, UserCount::Tags, true),
            exists|v: Tag|
                #![trigger old(self).tags@.insert(old(self).tags.cap(), tag.id, v)]
                (final(self).tags@, handle) == old(self).tags@.insert(old(self).tags.cap(), tag.id, v)
                    && v.id == tag.id && v.creator == Some(creator) && (v.mutable@ matches Some(m)
                    && m.post_count == tag.post_count),
            final(self).tags.cap() == old(self).tags.cap(),
            final(self).posts == old(self).posts,
            final(self).objects == old(self).objects,
    {
        count_user(&mut self.users, creator.handle, UserCount::Tags, true);
        let tag = Tag::with_creator(tag, Some(creator));
        let ghost id = tag.id;
        let ghost v = tag;
        let handle = self.tags.insert(tag);
        proof {
            assert(old(self).tags@.insert(old(self).tags.cap(), id, v) == (self.tags@, handle));
        }
        handle
    }

    /// Deletes the tag behind `handle`: its creator counts one tag fewer,
    /// its state is dropped, and its ID is marked missing.
    pub fn remove_tag(&mut self, handle: u64)
        requires
            old(self).wf(),
        ensures
            final(self).wf(),
            final(self).posts == old(self).posts,
            final(self).objects == old(self).objects,
            old(self).tags@.slots.contains_key(handle) ==> {
                let tag = old(self).tags@.slots[handle].value;
                &&& final(self).tags@.slots[handle].value.mutable@ is None
                &&& old(self).tags@.entries.contains_key(tag.id) ==> final(self).tags@.entries[tag.id] is None
                &&& match tag.creator {
                    Some(c) => user_counted(old(self).users@, final(self).users@, c.handle, UserCount::Tags, false),
                    None => final(self).users == old(self).users,
                }
            },
            !old(self).tags@.slots.contains_key(handle) ==> final(self).users == old(self).users,
    {
        let found = match self.tags.value_mut(handle) {
            Some(tag) => {
                tag.mutable.delete();
                Some((tag.id, tag.creator))
            },
            None => None,
        };
        if let Some((id, creator)) = found {
            if let Some(c) = creator {
                count_user(&mut self.users, c.handle, UserCount::Tags, false);
            }
            self.tags.remove(id);
        }
    }

    /// Builds the post a database row describes, with its poster and the
    /// handles of its objects and tags. A new post is recorded in its
    /// objects; a new post that is not a draft also counts for its poster
    /// and its tags.
    pub fn new_post(&mut self, post: db::Post, poster: Option<Held>, objects: Vec<u64>, tags: Vec<u64>, is_new: bool) -> (p: Post)
        requires
            old(self).wf(),
        ensures
            final(self).wf(),
            final(self).posts == old(self).posts,
            final(self).comments == old(self).comments,
            p.id == post.id,
            p.poster == poster,
            p.mutable@ matches Some(m) && m.title == post.title && m.description == post.description
                && (m.visibility == Visibility::Draft) == (post.visibility == db::Visibility::Draft)
                && m.created == post.created && m.modified == post.modified && m.objects == objects
                && m.posts == post.posts && m.tags == tags && m.comment_count == post.comment_count
                && m.comments is None,
            is_new ==> objects_posted(old(self).objects@, final(self).objects@, objects@, post.id, true),
            !is_new ==> final(self).objects == old(self).objects,
            ({
                let counts = is_new && post.visibility != db::Visibility::Draft;
                &&& counts ==> tags_counted(old(self).tags@, final(self).tags@, tags@, true)
                &&& counts ==> match poster {
                    Some(u) => user_counted(old(self).users@, final(self).users@, u.handle, UserCount::Posts, true),
                    None => final(self).users == old(self).users,
                }
                &&& !counts ==> final(self).tags == old(self).tags && final(self).users == old(self).users
            }),
            final(self).objects.cap() == old(self).objects.cap(),
            final(self).tags.cap() == old(self).tags.cap(),
            final(self).users.cap() == old(self).users.cap(),
    {
        let visibility = post.visibility.into_minty();
        if is_new {
            post_objects(&mut self.objects, &objects, post.id, true);
            if visibility != Visibility::Draft {
                if let Some(u) = poster {
                    count_user(&mut self.users, u.handle, UserCount::Posts, true);
                }
                count_tags(&mut self.tags, &tags, true);
            }
        }
        Post {
            id: post.id,
            poster,
            mutable: super::lock::CacheLock::new(
                PostMut {
                    title: post.title,
                    description: post.description,
                    visibility,
                    created: post.created,
                    modified: post.modified,
                    objects,
                    posts: post.posts,
                    tags,
                    comment_count: post.comment_count,
                    comments: None,
                },
            ),
        }
    }


    /// Caches a new post and hands it out (see `new_post`).
    pub fn insert_post(&mut self, post: db::Post, poster: Option<Held>, objects: Vec<u64>, tags: Vec<u64>) -> (handle: u64)
        requires
            old(self).wf(),
            old(self).posts@.has_room(1),
        ensures
            final(self).wf(),
            exists|v: Post|
                #![trigger old(self).posts@.insert(old(self).posts.cap(), post.id, v)]
                (final(self).posts@, handle) == old(self).posts@.insert(old(self).posts.cap(), post.id, v)
                    && v.id == post.id && v.poster == poster && (v.mutable@ matches Some(m)
                    && m.objects@ == objects@ && m.tags@ == tags@ && m.title == post.title
                    && m.comment_count == post.comment_count && m.comments is None),
            objects_posted(old(self).objects@, final(self).objects@, objects@, post.id, true),
            ({
                let counts = post.visibility != db::Visibility::Draft;
                &&& counts ==> tags_counted(old(self).tags@, final(self).tags@, tags@, true)
                &&& counts ==> match poster {
                    Some(u) => user_counted(old(self).users@, final(self).users@, u.handle, UserCount::Posts, true),
                    None => final(self).users == old(self).users,
                }
                &&& !counts ==> final(self).tags == old(self).tags && final(self).users == old(self).users
            }),
            final(self).comments == old(self).comments,
    {
        let ghost objs = objects@;
        let ghost tgs = tags@;
        let p = self.new_post(post, poster, objects, tags, true);
        let ghost v = p;
        let handle = self.posts.insert(p);
        proof {
            assert(old(self).posts@.insert(old(self).posts.cap(), v.id, v) == (self.posts@, handle));
        }
        handle
    }

    /// Lets go of what a deleted post's state holds: its objects, its tags,
    /// and its loaded thread, whose comments are forgotten and whose
    /// authors are let go.
    fn drop_state(&mut self, state: PostMut)
        requires
            old(self).wf(),
        ensures
            final(self).wf(),
            final(self).posts == old(self).posts,
            final(self).objects@ == released(old(self).objects@, state.objects@),
            final(self).tags@ == released(old(self).tags@, state.tags@),
            match state.comments {
                Some(c) => {
                    &&& final(self).users@ == released(old(self).users@, forest_users(forest_of(c@)))
                    &&& final(self).comments@ == old(self).comments@.remove_keys(forest_ids(forest_of(c@)))
                },
                None => final(self).users == old(self).users && final(self).comments == old(self).comments,
            },
            final(self).objects.cap() == old(self).objects.cap(),
            final(self).tags.cap() == old(self).tags.cap(),
            final(self).users.cap() == old(self).users.cap(),
    {
        release_all(&mut self.objects, &state.objects);
        release_all(&mut self.tags, &state.tags);
        match state.comments {
            Some(comments) => {
                let mut held = Vec::new();
                thread_users(&comments, &mut held);
                self.comments.delete(comments);
                release_all(&mut self.users, &held);
            },
            None => {},
        }
    }

    /// Deletes the post behind `handle`: it is forgotten by its objects;
    /// unless it was a draft, its poster and its tags count it no more; its
    /// state is dropped and let go (see `drop_state`); and its ID is marked
    /// missing.
    pub fn remove_post(&mut self, handle: u64)
        requires
            old(self).wf(),
        ensures
            final(self).wf(),
            post_removed(*old(self), *final(self), handle),
    {
        let found = match self.posts.value_mut(handle) {
            Some(post) => {
                let state = post.mutable.delete();
                Some((post.id, post.poster, state))
            },
            None => None,
        };
        if let Some((id, poster, state)) = found {
            proof {
                lemma_insert_dom(old(self).posts@.slots, handle, self.posts@.slots[handle]);
            }
            if let Some(state) = state {
                post_objects(&mut self.objects, &state.objects, id, false);
                let ghost o = self.objects@;
                if state.visibility != Visibility::Draft {
                    if let Some(u) = poster {
                        count_user(&mut self.users, u.handle, UserCount::Posts, false);
                    }
                    count_tags(&mut self.tags, &state.tags, false);
                }
                let ghost t = self.tags@;
                let ghost u = self.users@;
                self.drop_state(state);
                self.posts.remove(id);
                proof {
                    assert(removal_effects(*old(self), *self, old(self).posts@.slots[handle].value, state, o, t, u));
                }
            } else {
                self.posts.remove(id);
            }
        }
    }


    /// Publishes the post behind `handle` at `timestamp`: its poster counts
    /// one more post; if the post is not deleted, its objects record it, its
    /// tags count it, and it becomes public, created and modified at
    /// `timestamp`.
    pub fn publish_post(&mut self, handle: u64, timestamp: i64)
        requires
            old(self).wf(),
        ensures
            final(self).wf(),
            final(self).comments == old(self).comments,
            !old(self).posts@.slots.contains_key(handle) ==> final(self).posts@ == old(self).posts@
                && final(self).objects == old(self).objects && final(self).tags == old(self).tags
                && final(self).users == old(self).users,
            old(self).posts@.slots.contains_key(handle) ==> {
                let post = old(self).posts@.slots[handle].value;
                &&& match post.poster {
                    Some(p) => user_counted(old(self).users@, final(self).users@, p.handle, UserCount::Posts, true),
                    None => final(self).users == old(self).users,
                }
                &&& match post.mutable@ {
                    Some(m) => {
                        &&& objects_posted(old(self).objects@, final(self).objects@, m.objects@, post.id, true)
                        &&& tags_counted(old(self).tags@, final(self).tags@, m.tags@, true)
                        &&& post_state_set(old(self).posts@, final(self).posts@, handle, Some(PostMut {
                            visibility: Visibility::Public,
                            created: timestamp,
                            modified: timestamp,
                            ..m
                        }))
                    },
                    None => final(self).posts@ == old(self).posts@ && final(self).objects == old(self).objects
                        && final(self).tags == old(self).tags,
                }
            },
    {
        let found = match self.posts.value(handle) {
            Some(post) => Some((post.id, post.poster)),
            None => None,
        };
        let (id, poster) = match found {
            Some(f) => f,
            None => {
                return;
            },
        };
        if let Some(p) = poster {
            count_user(&mut self.users, p.handle, UserCount::Posts, true);
        }
        let ghost before_posts = self.posts@;
        match self.posts.value_mut(handle) {
            Some(post) => match post.mutable.update() {
                Some(m) => {
                    post_objects(&mut self.objects, &m.objects, id, true);
                    count_tags(&mut self.tags, &m.tags, true);
                    m.visibility = Visibility::Public;
                    m.created = timestamp;
                    m.modified = timestamp;
                },
                None => {},
            },
            None => {},
        }
        proof {
            lemma_insert_dom(before_posts.slots, handle, self.posts@.slots[handle]);
            let before = before_posts.slots[handle].value;
            let after = self.posts@.slots[handle].value;
            if before.mutable@ is None {
                lemma_lock_view_eq(before.mutable, after.mutable);
                assert(after == before);
                assert(self.posts@.slots =~= before_posts.slots);
                assert(self.posts@ == before_posts);
            }
        }
    }

    /// Sets the title of the post behind `handle`, modified at `modified`.
    pub fn set_post_title(&mut self, handle: u64, title: String, modified: i64)
        requires
            old(self).wf(),
        ensures
            final(self).wf(),
            final(self).users == old(self).users,
            final(self).tags == old(self).tags,
            final(self).objects == old(self).objects,
            final(self).comments == old(self).comments,
            old(self).posts@.slots.contains_key(handle) && old(self).posts@.slots[handle].value.mutable@ is Some ==> {
                let m = old(self).posts@.slots[handle].value.mutable@->0;
                post_state_set(old(self).posts@, final(self).posts@, handle, Some(PostMut { title, modified, ..m }))
            },
            !(old(self).posts@.slots.contains_key(handle) && old(self).posts@.slots[handle].value.mutable@ is Some)
                ==> final(self).posts@.slots.dom() == old(self).posts@.slots.dom(),
    {
        match self.posts.value_mut(handle) {
            Some(post) => match post.mutable.update() {
                Some(m) => {
                    m.title = title;
                    m.modified = modified;
                },
                None => {},
            },
            None => {},
        }
        proof {
            if old(self).posts@.slots.contains_key(handle) {
                lemma_insert_dom(old(self).posts@.slots, handle, self.posts@.slots[handle]);
            }
        }
    }

    /// Sets the description of the post behind `handle`, modified at
    /// `modified`.
    pub fn set_post_description(&mut self, handle: u64, description: String, modified: i64)
        requires
            old(self).wf(),
        ensures
            final(self).wf(),
            final(self).users == old(self).users,
            final(self).tags == old(self).tags,
            final(self).objects == old(self).objects,
            final(self).comments == old(self).comments,
            old(self).posts@.slots.contains_key(handle) && old(self).posts@.slots[handle].value.mutable@ is Some ==> {
                let m = old(self).posts@.slots[handle].value.mutable@->0;
                post_state_set(old(self).posts@, final(self).posts@, handle, Some(PostMut { description, modified, ..m }))
            },
            !(old(self).posts@.slots.contains_key(handle) && old(self).posts@.slots[handle].value.mutable@ is Some)
                ==> final(self).posts@.slots.dom() == old(self).posts@.slots.dom(),
    {
        match self.posts.value_mut(handle) {
            Some(post) => match post.mutable.update() {
                Some(m) => {
                    m.description = description;
                    m.modified = modified;
                },
                None => {},
            },
            None => {},
        }
        proof {
            if old(self).posts@.slots.contains_key(handle) {
                lemma_insert_dom(old(self).posts@.slots, handle, self.posts@.slots[handle]);
            }
        }
    }

    /// Sets the related posts of the post behind `handle`.
    pub fn set_related_posts(&mut self, handle: u64, posts: Vec<u128>)
        requires
            old(self).wf(),
        ensures
            final(self).wf(),
            final(self).users == old(self).users,
            final(self).tags == old(self).tags,
            final(self).objects == old(self).objects,
            final(self).comments == old(self).comments,
            old(self).posts@.slots.contains_key(handle) && old(self).posts@.slots[handle].value.mutable@ is Some ==> {
                let m = old(self).posts@.slots[handle].value.mutable@->0;
                post_state_set(old(self).posts@, final(self).posts@, handle, Some(PostMut { posts, ..m }))
            },
            !(old(self).posts@.slots.contains_key(handle) && old(self).posts@.slots[handle].value.mutable@ is Some)
                ==> final(self).posts@.slots.dom() == old(self).posts@.slots.dom(),
    {
        match self.posts.value_mut(handle) {
            Some(post) => match post.mutable.update() {
                Some(m) => {
                    m.posts = posts;
                },
                None => {},
            },
            None => {},
        }
        proof {
            if old(self).posts@.slots.contains_key(handle) {
                lemma_insert_dom(old(self).posts@.slots, handle, self.posts@.slots[handle]);
            }
        }
    }

}

/// What `remove_post` does with `handle`: nothing where it holds no post;
/// otherwise the post is left deleted, its ID marked missing, and, where it
/// was not deleted yet, the other caches change as `removal_effects` says
/// (and not at all where it was).
pub open spec fn post_removed(before: Cache, after: Cache, handle: u64) -> bool {
    &&& !before.posts@.slots.contains_key(handle) ==> after.posts@ == before.posts@
        && after.objects == before.objects && after.tags == before.tags
        && after.users == before.users && after.comments == before.comments
    &&& before.posts@.slots.contains_key(handle) ==> {
        let post = before.posts@.slots[handle].value;
        &&& after.posts@.slots.contains_key(handle)
        &&& after.posts@.slots[handle].value.mutable@ is None
        &&& before.posts@.entries.contains_key(post.id) ==> after.posts@.entries[post.id] is None
        &&& post.mutable@ is None ==> after.objects == before.objects && after.tags == before.tags
            && after.users == before.users && after.comments == before.comments
        &&& post.mutable@ matches Some(m) ==> exists|o: CacheModel<Object>, t: CacheModel<Tag>, u: CacheModel<User>|
            #[trigger] removal_effects(before, after, post, m, o, t, u)
    }
}

/// What deleting `post`, whose state was `m`, does to the other caches,
/// through the intermediate states `o`, `t` and `u` of the object, tag and
/// user caches: objects forget the post; unless it was a draft, tags and
/// poster count it no more; then the state's handles are let go and its
/// thread forgotten.
pub open spec fn removal_effects(
    before: Cache,
    after: Cache,
    post: Post,
    m: PostMut,
    o: CacheModel<Object>,
    t: CacheModel<Tag>,
    u: CacheModel<User>,
) -> bool {
    &&& objects_posted(before.objects@, o, m.objects@, post.id, false)
    &&& after.objects@ == released(o, m.objects@)
    &&& m.visibility != Visibility::Draft ==> tags_counted(before.tags@, t, m.tags@, false) && match post.poster {
        Some(p) => user_counted(before.users@, u, p.handle, UserCount::Posts, false),
        None => u == before.users@,
    }
    &&& m.visibility == Visibility::Draft ==> t == before.tags@ && u == before.users@
    &&& after.tags@ == released(t, m.tags@)
    &&& match m.comments {
        Some(c) => {
            &&& after.users@ == released(u, forest_users(forest_of(c@)))
            &&& after.comments@ == before.comments@.remove_keys(forest_ids(forest_of(c@)))
        },
        None => after.users@ == u && after.comments == before.comments,
    }
}

pub proof fn lemma_claim_room_pre(r: TokenRegistry, n: nat)
    requires
        r.room_for_claims(n + 1),
    ensures
        r.can_claim(),
{
}

} // verus!

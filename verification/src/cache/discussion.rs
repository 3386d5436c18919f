use vstd::prelude::*;

use super::comment::{
    at_path, comment_at, describes, forest_of, leads_to_comment, lemma_forest_of, replace_path,
    tree_of, valid_path, Comment, CommentTree,
};
use super::inner::Lookup;
use super::posts::wrapping_add;
use crate::model::CommentData;
use super::inner::CacheModel;
use super::posts::{thread_trees, wrapping_add_u32, Held, Post, PostMut, same_but_thread};
use super::store::{
    count_user, count_users, forest_ids, forest_users, only_value_changed, release_all, released,
    thread_users, user_counted, users_counted, Cache, UserCount,
};
use super::posts::{delete_spec, wrapping_sub_u32, PostComments};
use super::comment::{capped_count, replies_upto, tree_is_empty, uncounted};
use crate::model::CommentInfo;
use crate::error::{Error, Result};
use super::inner::Cache as ValueCache;
use super::thread::{build_comments, build_forest, build_path, buildable, thread_nodes};
use super::users::User;
use crate::db;
use super::thread_laws::{distinct_ids, lemma_thread_users_len};

verus! {

/// The thread a new comment starts: the stored comment, by the user behind
/// `user`, with no replies.
pub open spec fn new_comment_tree(comment: db::Comment, user: Option<u64>) -> CommentTree {
    CommentTree {
        id: comment.id,
        user,
        level: comment.level as u8,
        content: comment.content@,
        created: comment.created,
        children: Seq::empty(),
    }
}

/// `after` differs from `before` at most in the state of the post behind
/// `h`, which keeps its ID and poster; a deleted post stays deleted, and a
/// live post's state changes as `change` allows.
pub open spec fn post_changed(
    before: CacheModel<Post>,
    after: CacheModel<Post>,
    h: u64,
    change: spec_fn(PostMut, PostMut) -> bool,
) -> bool {
    &&& only_value_changed(before, after, h)
    &&& before.slots.contains_key(h) ==> {
        let b = before.slots[h].value;
        let a = after.slots[h].value;
        &&& a.id == b.id
        &&& a.poster == b.poster
        &&& match b.mutable@ {
            None => a.mutable@ is None,
            Some(m0) => a.mutable@ matches Some(m1) && change(m0, m1),
        }
    }
}

/// The loaded thread of the live post behind `h`, if there is one.
pub open spec fn loaded_thread(posts: CacheModel<Post>, h: u64) -> Option<Seq<CommentTree>> {
    if posts.slots.contains_key(h) {
        match posts.slots[h].value.mutable@ {
            Some(m) => thread_trees(m),
            None => None,
        }
    } else {
        None
    }
}

/// The state of a post after a new top-level comment `t`: counted, and
/// added to the thread if it is loaded.
pub open spec fn comment_added(m0: PostMut, m1: PostMut, t: CommentTree) -> bool {
    &&& same_but_thread(m0, m1)
    &&& m1.comment_count == wrapping_add_u32(m0.comment_count, 1)
    &&& match thread_trees(m0) {
        None => m1.comments is None,
        Some(f) => thread_trees(m1) == Some(f.push(t)),
    }
}

impl Cache {
    /// Adds the stored top-level comment `comment` by `user` to the post
    /// behind `post`: the user counts one more comment; the post counts it
    /// too and, if its thread is loaded, adds it there and records where.
    /// The comment keeps the user's handle; a comment the thread does not
    /// keep lets it go.
    pub fn add_comment(&mut self, post: u64, comment: db::Comment, user: Held)
        requires
            old(self).wf(),
            comment.level <= 255,
        ensures
            final(self).wf(),
            final(self).objects == old(self).objects,
            final(self).tags == old(self).tags,
            post_changed(
                old(self).posts@,
                final(self).posts@,
                post,
                |m0: PostMut, m1: PostMut| comment_added(m0, m1, new_comment_tree(comment, Some(user.handle))),
            ),
            exists|counted: CacheModel<User>|
                #![trigger user_counted(old(self).users@, counted, user.handle, UserCount::Comments, true)]
                user_counted(old(self).users@, counted, user.handle, UserCount::Comments, true)
                    && final(self).users@ == if loaded_thread(old(self).posts@, post) is Some {
                    counted
                } else {
                    counted.release(user.handle)
                },
            match loaded_thread(old(self).posts@, post) {
                Some(f) => final(self).comments@ == old(self).comments@.insert(
                    comment.id,
                    (post, seq![f.len() as usize]),
                ),
                None => final(self).comments == old(self).comments,
            },
    {
        count_user(&mut self.users, user.handle, UserCount::Comments, true);
        let ghost counted = self.users@;
        let id = comment.id;
        let c = Comment::new(comment, Some(user.handle));
        proof {
            lemma_forest_of(c.children@);
            assert(tree_of(c) =~= new_comment_tree(comment, Some(user.handle)));
        }
        let ghost before_posts = self.posts@;
        let path = match self.posts.value_mut(post) {
            Some(p) => match p.mutable.update() {
                Some(m) => m.add_comment(c),
                None => None,
            },
            None => None,
        };
        match path {
            Some(path) => {
                self.comments.insert(id, post, path);
            },
            None => {
                self.users.release(user.handle);
            },
        }
        proof {
            if before_posts.slots.contains_key(post) {
                super::store::lemma_insert_dom(before_posts.slots, post, self.posts@.slots[post]);
                let b = before_posts.slots[post].value;
                if let Some(m) = b.mutable@ {
                    if let Some(c) = m.comments {
                        lemma_forest_of(c@);
                    }
                }
                if b.mutable@ is None {
                    super::lock::lemma_lock_view_eq(b.mutable, self.posts@.slots[post].value.mutable);
                    assert(self.posts@.slots =~= before_posts.slots);
                }
            }
            assert(user_counted(old(self).users@, counted, user.handle, UserCount::Comments, true));
        }
    }
}

/// Whether a reply can go under the comment at `path` of the post behind
/// `h`: the post is live, its thread is loaded, `path` leads to a comment,
/// and that comment has room for one more reply.
pub open spec fn can_reply(posts: CacheModel<Post>, h: u64, path: Seq<usize>) -> bool {
    match loaded_thread(posts, h) {
        Some(f) => valid_path(f, path) && at_path(f, path).children.len() < usize::MAX,
        None => false,
    }
}

/// The state of a post after the reply `t` went under the comment at
/// `path` of its loaded thread.
pub open spec fn reply_added(m0: PostMut, m1: PostMut, path: Seq<usize>, t: CommentTree) -> bool {
    &&& same_but_thread(m0, m1)
    &&& m1.comment_count == wrapping_add_u32(m0.comment_count, 1)
    &&& match thread_trees(m0) {
        Some(f) => {
            let target = at_path(f, path);
            thread_trees(m1) == Some(
                replace_path(f, path, CommentTree { children: target.children.push(t), ..target }),
            )
        },
        None => false,
    }
}

/// The state of a post that counts one more comment, in a thread it has not
/// loaded.
pub open spec fn comment_counted(m0: PostMut, m1: PostMut) -> bool {
    &&& same_but_thread(m0, m1)
    &&& m1.comments == m0.comments
    &&& m1.comment_count == wrapping_add_u32(m0.comment_count, 1)
}

impl Cache {
    /// Adds the stored comment `comment` by `user` as a reply to the comment
    /// `parent`, and returns it as a thread shows it. The user counts one
    /// more comment. When the parent sits in a loaded thread, the reply is
    /// added under it and recorded; otherwise the reply's post, if cached,
    /// just counts it, and the reply lets go of the user's handle.
    pub fn reply(&mut self, parent: u128, comment: db::Comment, user: Held) -> (data: CommentData)
        requires
            old(self).wf(),
            comment.level <= 255,
        ensures
            final(self).wf(),
            final(self).objects == old(self).objects,
            final(self).tags == old(self).tags,
            exists|counted: CacheModel<User>|
                #![trigger user_counted(old(self).users@, counted, user.handle, UserCount::Comments, true)]
                {
                    &&& user_counted(old(self).users@, counted, user.handle, UserCount::Comments, true)
                    &&& describes(data, new_comment_tree(comment, Some(user.handle)), counted)
                    &&& final(self).users@ == if old(self).comments@.contains_key(parent) && can_reply(
                        old(self).posts@,
                        old(self).comments@[parent].0,
                        old(self).comments@[parent].1,
                    ) {
                        counted
                    } else {
                        counted.release(user.handle)
                    }
                },
            old(self).comments@.contains_key(parent) ==> {
                let (h, path) = old(self).comments@[parent];
                if can_reply(old(self).posts@, h, path) {
                    let k = at_path(loaded_thread(old(self).posts@, h)->0, path).children.len() as usize;
                    &&& post_changed(
                        old(self).posts@,
                        final(self).posts@,
                        h,
                        |m0: PostMut, m1: PostMut| reply_added(m0, m1, path, new_comment_tree(comment, Some(user.handle))),
                    )
                    &&& final(self).comments@ == old(self).comments@.insert(comment.id, (h, path.push(k)))
                } else {
                    &&& final(self).posts@ == old(self).posts@
                    &&& final(self).comments == old(self).comments
                }
            },
            !old(self).comments@.contains_key(parent) ==> {
                &&& final(self).comments == old(self).comments
                &&& match old(self).posts@.lookup(comment.post_id) {
                    Lookup::Hit(h) => post_changed(
                        old(self).posts@,
                        final(self).posts@,
                        h,
                        |m0: PostMut, m1: PostMut| comment_counted(m0, m1),
                    ),
                    _ => final(self).posts@ == old(self).posts@,
                }
            },
    {
        count_user(&mut self.users, user.handle, UserCount::Comments, true);
        let ghost counted = self.users@;
        let post_id = comment.post_id;
        let id = comment.id;
        let c = Comment::new(comment, Some(user.handle));
        proof {
            lemma_forest_of(c.children@);
            assert(tree_of(c) =~= new_comment_tree(comment, Some(user.handle)));
        }
        let data = c.data(&self.users);
        let ghost before_posts = self.posts@;
        match self.comments.get(parent) {
            Some((h, path)) => {
                let kept = match self.posts.value_mut(h) {
                    Some(p) => match p.mutable.update() {
                        Some(m) => {
                            let ok = match &m.comments {
                                Some(cs) => {
                                    if leads_to_comment(cs, path.as_slice()) {
                                        let target = comment_at(cs, path.as_slice());
                                        proof {
                                            lemma_forest_of(target.children@);
                                        }
                                        target.children.len() < usize::MAX
                                    } else {
                                        false
                                    }
                                },
                                None => false,
                            };
                            if ok {
                                m.reply(path.as_slice(), c)
                            } else {
                                None
                            }
                        },
                        None => None,
                    },
                    None => None,
                };
                let ghost path_view = path@;
                match kept {
                    Some(index) => {
                        let mut extended = path;
                        extended.push(index);
                        self.comments.insert(id, h, extended);
                    },
                    None => {
                        self.users.release(user.handle);
                    },
                }
                proof {
                    lemma_post_unchanged_unless(before_posts, self.posts@, h);
                    if can_reply(before_posts, h, path_view) {
                        let m0 = before_posts.slots[h].value.mutable@->0;
                        lemma_forest_of(m0.comments->0@);
                        assert(kept is Some);
                    } else {
                        assert(kept is None);
                        assert(self.posts@ == before_posts);
                    }
                }
            },
            None => {
                match self.posts.lookup(post_id) {
                    Lookup::Hit(h) => {
                        match self.posts.value_mut(h) {
                            Some(p) => match p.mutable.update() {
                                Some(m) => {
                                    m.comment_count = wrapping_add(m.comment_count, 1);
                                },
                                None => {},
                            },
                            None => {},
                        }
                        proof {
                            lemma_post_unchanged_unless(before_posts, self.posts@, h);
                        }
                    },
                    _ => {},
                }
                self.users.release(user.handle);
            },
        }
        proof {
            assert(user_counted(old(self).users@, counted, user.handle, UserCount::Comments, true));
        }
        data
    }
}

/// Where the comment `id` sits, when that is in the loaded thread of a live
/// post: the post's handle, the path, and the thread.
pub open spec fn located(c: Cache, id: u128) -> Option<(u64, Seq<usize>, Seq<CommentTree>)> {
    if c.comments@.contains_key(id) {
        let (h, path) = c.comments@[id];
        match loaded_thread(c.posts@, h) {
            Some(f) => if valid_path(f, path) {
                Some((h, path, f))
            } else {
                None
            },
            None => None,
        }
    } else {
        None
    }
}

/// The state of a post after the comment at `path` of its loaded thread
/// was deleted (see `delete_spec`), its count lowered by what the delete
/// covers.
pub open spec fn comment_deleted(m0: PostMut, m1: PostMut, path: Seq<usize>, recursive: bool) -> bool {
    &&& same_but_thread(m0, m1)
    &&& match thread_trees(m0) {
        Some(f) => {
            &&& thread_trees(m1) == Some(delete_spec(f, path, recursive).0)
            &&& m1.comment_count == wrapping_sub_u32(
                m0.comment_count,
                if recursive {
                    capped_count(at_path(f, path)) as u32
                } else {
                    1
                },
            )
        },
        None => false,
    }
}

/// The state of a post after the content of the comment at `path` of its
/// loaded thread became `content`.
pub open spec fn comment_edited(m0: PostMut, m1: PostMut, path: Seq<usize>, content: Seq<char>) -> bool {
    &&& same_but_thread(m0, m1)
    &&& m1.comment_count == m0.comment_count
    &&& match thread_trees(m0) {
        Some(f) => thread_trees(m1) == Some(
            replace_path(f, path, CommentTree { content, ..at_path(f, path) }),
        ),
        None => false,
    }
}

impl Cache {
    /// Deletes the comment `id`, if it sits in a loaded thread (see
    /// `PostMut::delete_comment`): the users whose comments the delete
    /// covers count one comment fewer each, and the comments it removes
    /// are forgotten and let go of their users.
    pub fn delete_comment(&mut self, id: u128, recursive: bool)
        requires
            old(self).wf(),
        ensures
            final(self).wf(),
            final(self).objects == old(self).objects,
            final(self).tags == old(self).tags,
            match located(*old(self), id) {
                Some((h, path, f)) => {
                    let target = at_path(f, path);
                    let removed = delete_spec(f, path, recursive).1;
                    &&& post_changed(
                        old(self).posts@,
                        final(self).posts@,
                        h,
                        |m0: PostMut, m1: PostMut| comment_deleted(m0, m1, path, recursive),
                    )
                    &&& exists|counted: CacheModel<User>|
                        #![trigger users_counted(old(self).users@, counted, uncounted(target, recursive), UserCount::Comments, false)]
                        users_counted(old(self).users@, counted, uncounted(target, recursive), UserCount::Comments, false)
                            && final(self).users@ == released(counted, forest_users(removed))
                    &&& final(self).comments@ == old(self).comments@.remove_keys(forest_ids(removed))
                },
                None => {
                    &&& final(self).posts@ == old(self).posts@
                    &&& final(self).users == old(self).users
                    &&& final(self).comments == old(self).comments
                },
            },
    {
        let ghost before_posts = self.posts@;
        match self.comments.get(id) {
            Some((h, path)) => {
                let ghost path_view = path@;
                let result = match self.posts.value_mut(h) {
                    Some(p) => match p.mutable.update() {
                        Some(m) => {
                            let ok = match &m.comments {
                                Some(cs) => leads_to_comment(cs, path.as_slice()),
                                None => false,
                            };
                            if ok {
                                Some(m.delete_comment(path.as_slice(), recursive))
                            } else {
                                None
                            }
                        },
                        None => None,
                    },
                    None => None,
                };
                proof {
                    lemma_post_unchanged_unless(before_posts, self.posts@, h);
                }
                match result {
                    Some((removed, uncounted_users)) => {
                        count_users(&mut self.users, &uncounted_users, UserCount::Comments, false);
                        let ghost counted = self.users@;
                        let mut held = Vec::new();
                        thread_users(&removed, &mut held);
                        self.comments.delete(removed);
                        release_all(&mut self.users, &held);
                        proof {
                            assert(held@ =~= forest_users(forest_of(removed@)));
                        }
                    },
                    None => {},
                }
            },
            None => {},
        }
    }

    /// Sets the content of the comment `id`, if it sits in a loaded thread.
    pub fn update_comment(&mut self, id: u128, content: String)
        requires
            old(self).wf(),
        ensures
            final(self).wf(),
            final(self).objects == old(self).objects,
            final(self).tags == old(self).tags,
            final(self).users == old(self).users,
            final(self).comments == old(self).comments,
            match located(*old(self), id) {
                Some((h, path, f)) => post_changed(
                    old(self).posts@,
                    final(self).posts@,
                    h,
                    |m0: PostMut, m1: PostMut| comment_edited(m0, m1, path, content@),
                ),
                None => final(self).posts@ == old(self).posts@,
            },
    {
        let ghost before_posts = self.posts@;
        match self.comments.get(id) {
            Some((h, path)) => {
                match self.posts.value_mut(h) {
                    Some(p) => match p.mutable.update() {
                        Some(m) => {
                            let ok = match &m.comments {
                                Some(cs) => leads_to_comment(cs, path.as_slice()),
                                None => false,
                            };
                            if ok {
                                match m.comment_mut(path.as_slice()) {
                                    Some(c) => {
                                        proof {
                                            lemma_forest_of(c.children@);
                                        }
                                        c.content = content;
                                    },
                                    None => {},
                                }
                            }
                        },
                        None => {},
                    },
                    None => {},
                }
                proof {
                    lemma_post_unchanged_unless(before_posts, self.posts@, h);
                }
            },
            None => {},
        }
    }

    /// The comment `id` on its own, if it sits in a loaded thread: `None`
    /// when its thread has to be loaded first; otherwise what
    /// `PostComments::get` finds (nothing for an empty comment).
    pub fn get_comment(&self, id: u128) -> (found: Option<Option<CommentInfo>>)
        ensures
            found is Some <==> located(*self, id) is Some,
            match located(*self, id) {
                Some((h, path, f)) => {
                    let t = at_path(f, path);
                    let parent = if path.len() > 1 {
                        Some(at_path(f, path.drop_last()).id)
                    } else {
                        None
                    };
                    &&& tree_is_empty(t) ==> found == Some(None::<CommentInfo>)
                    &&& !tree_is_empty(t) ==> (found matches Some(Some(i)) && i.id == t.id && i.post_id
                        == self.posts@.slots[h].value.id && i.parent_id == parent && i.content@ == t.content)
                },
                None => true,
            },
    {
        match self.comments.get(id) {
            Some((h, path)) => match self.posts.value(h) {
                Some(post) => match post.mutable.get() {
                    Some(m) => match &m.comments {
                        Some(cs) => {
                            if leads_to_comment(cs, path.as_slice()) {
                                let view = PostComments { post: post.id, comments: cs };
                                Some(view.get(path.as_slice(), &self.users))
                            } else {
                                None
                            }
                        },
                        None => None,
                    },
                    None => None,
                },
                None => None,
            },
            None => None,
        }
    }

    /// The thread of the post behind `post` as shown (see
    /// `PostComments::get_all`), if the post is live and its thread loaded
    /// (`None` when it has to be loaded first).
    pub fn post_thread(&self, post: u64) -> (thread: Option<Vec<CommentData>>)
        ensures
            match loaded_thread(self.posts@, post) {
                Some(f) => {
                    let shown = replies_upto(f, f.len());
                    &&& thread matches Some(all)
                    &&& thread->0@.len() == shown.len()
                    &&& forall|k: int| 0 <= k < shown.len() ==> describes(#[trigger] thread->0@[k], shown[k], self.users@)
                },
                None => thread is None,
            },
    {
        match self.posts.value(post) {
            Some(p) => match p.mutable.get() {
                Some(m) => match &m.comments {
                    Some(cs) => {
                        proof {
                            lemma_forest_of(cs@);
                        }
                        let view = PostComments { post: p.id, comments: cs };
                        Some(view.get_all(&self.users))
                    },
                    None => None,
                },
                None => None,
            },
            None => None,
        }
    }

    /// Whether `user` may edit the comment `id`, if it sits in a loaded
    /// thread (`None` when its thread has to be loaded first): its author
    /// may; anyone else needs to be an administrator.
    pub fn can_edit_comment(&self, id: u128, user: Held) -> (allowed: Option<Result<()>>)
        ensures
            match located(*self, id) {
                Some((h, path, f)) => {
                    let author = at_path(f, path).user;
                    let is_author = author matches Some(a) && self.users@.slots.contains_key(a)
                        && self.users@.slots[a].value.id == user.id;
                    let admin = self.users@.slots.contains_key(user.handle)
                        && self.users@.slots[user.handle].value.spec_is_admin();
                    if is_author || admin {
                        allowed == Some(Ok::<(), Error>(()))
                    } else {
                        allowed matches Some(Err(Error::Unauthorized))
                    }
                },
                None => allowed is None,
            },
    {
        match self.comment_user(id) {
            Some(author) => {
                let is_author = match author {
                    Some(a) => match self.users.value(a) {
                        Some(u) => u.id == user.id,
                        None => false,
                    },
                    None => false,
                };
                if is_author {
                    Some(Ok(()))
                } else {
                    match self.users.value(user.handle) {
                        Some(u) => match u.deny_permission() {
                            Ok(()) => Some(Ok(())),
                            Err(e) => Some(Err(e)),
                        },
                        None => Some(Err(Error::Unauthorized)),
                    }
                }
            },
            None => None,
        }
    }

    /// The handle of the author of the comment `id`, if it sits in a loaded
    /// thread (`None` when its thread has to be loaded first).
    pub fn comment_user(&self, id: u128) -> (found: Option<Option<u64>>)
        ensures
            match located(*self, id) {
                Some((h, path, f)) => found == Some(at_path(f, path).user),
                None => found is None,
            },
    {
        match self.comments.get(id) {
            Some((h, path)) => match self.posts.value(h) {
                Some(post) => match post.mutable.get() {
                    Some(m) => match &m.comments {
                        Some(cs) => {
                            if leads_to_comment(cs, path.as_slice()) {
                                let view = PostComments { post: post.id, comments: cs };
                                Some(view.user(path.as_slice()))
                            } else {
                                None
                            }
                        },
                        None => None,
                    },
                    None => None,
                },
                None => None,
            },
            None => None,
        }
    }
}

/// The cache after one more holder of each handle in `hs`, in order.
pub open spec fn acquired<T>(m: CacheModel<T>, hs: Seq<u64>) -> CacheModel<T>
    decreases hs.len(),
{
    if hs.len() == 0 {
        m
    } else {
        acquired(m, hs.drop_last()).acquire(hs.last())
    }
}

/// Takes one more holder of each handle in `hs`, in order.
pub fn acquire_all<T>(cache: &mut ValueCache<T>, hs: &Vec<u64>)
    requires
        old(cache).wf(),
        old(cache)@.has_room(hs@.len()),
    ensures
        final(cache).wf(),
        final(cache).cap() == old(cache).cap(),
        final(cache).token() == old(cache).token(),
        final(cache)@ == acquired(old(cache)@, hs@),
{
    let mut i: usize = 0;
    proof {
        assert(hs@.take(0) =~= Seq::<u64>::empty());
    }
    while i < hs.len()
        invariant
            0 <= i <= hs@.len(),
            cache.wf(),
            cache@.has_room((hs@.len() - i) as nat),
            cache.cap() == old(cache).cap(),
            cache.token() == old(cache).token(),
            cache@ == acquired(old(cache)@, hs@.take(i as int)),
        decreases hs@.len() - i,
    {
        proof {
            cache.lemma_wf_model();
            super::inner::lemma_acquire_wf(cache@, hs@[i as int], (hs@.len() - i - 1) as nat);
        }
        cache.acquire(hs[i]);
        proof {
            assert(hs@.take(i + 1).drop_last() =~= hs@.take(i as int));
        }
        i += 1;
    }
    proof {
        assert(hs@.take(i as int) =~= hs@);
    }
}

/// The comment map after the paths of the first `n` comments of the thread
/// `nodes` of the post behind `h` were recorded, in order.
pub open spec fn recorded(
    map: Map<u128, (u64, Seq<usize>)>,
    h: u64,
    nodes: Seq<CommentTree>,
    n: nat,
) -> Map<u128, (u64, Seq<usize>)>
    decreases n,
{
    if n == 0 || n > nodes.len() {
        map
    } else {
        recorded(map, h, nodes, (n - 1) as nat).insert(nodes[n - 1].id, (h, build_path(nodes, n - 1)))
    }
}

/// The handles of pairs of IDs and handles.
pub open spec fn handles_of(users: Seq<(u128, u64)>) -> Seq<u64> {
    users.map_values(|p: (u128, u64)| p.1)
}

/// Whether the thread of the post behind `h` can be loaded from the stored
/// comments `comments` by authors `users`: the post is live and not
/// deleted, its thread is not loaded yet, and the comments build a thread.
pub open spec fn can_load(posts: CacheModel<Post>, h: u64, comments: Seq<db::Comment>, users: Seq<(u128, u64)>) -> bool {
    &&& posts.slots.contains_key(h)
    &&& posts.slots[h].value.mutable@ matches Some(m) && m.comments is None
    &&& forall|k: int| 0 <= k < comments.len() ==> #[trigger] comments[k].level <= 255
    &&& buildable(thread_nodes(comments, users))
}

/// What `load_comments` does: where it loads the thread, the post holds the
/// thread built from the comments (`can_load` allowed it), each comment
/// holds one more of its author's handle, the given handles are let go and
/// where each comment sits is recorded; otherwise only the given handles
/// are let go.
pub open spec fn comments_loaded(
    before: Cache,
    after: Cache,
    post: u64,
    comments: Seq<db::Comment>,
    users: Seq<(u128, u64)>,
    loaded: bool,
) -> bool {
    let nodes = thread_nodes(comments, users);
    if loaded {
        &&& can_load(before.posts@, post, comments, users)
        &&& post_changed(
            before.posts@,
            after.posts@,
            post,
            |m0: PostMut, m1: PostMut| same_but_thread(m0, m1) && m1.comment_count == m0.comment_count
                && thread_trees(m1) == Some(build_forest(nodes)),
        )
        &&& after.users@ == released(
            acquired(before.users@, forest_users(build_forest(nodes))),
            handles_of(users),
        )
        &&& after.comments@ == recorded(before.comments@, post, nodes, nodes.len())
    } else {
        &&& after.posts@ == before.posts@
        &&& after.users@ == released(before.users@, handles_of(users))
        &&& after.comments == before.comments
    }
}

impl Cache {
    /// Loads the thread of the post behind `post` from its stored comments,
    /// given level by level, and the handles loaded for their authors (see
    /// `build_comments`), if `can_load` allows: each comment then holds one
    /// more of its author's handle, and where it sits is recorded. Either
    /// way, the handles in `users` are let go. Returns whether the thread
    /// was loaded. The thread is loaded whenever `can_load` allows and the
    /// comment IDs are distinct; with repeated IDs a reply can be reached
    /// from several comments, and the thread is loaded only while it holds
    /// no more user handles than there are comments, which the room
    /// required of the user cache covers.
    pub fn load_comments(&mut self, post: u64, comments: Vec<db::Comment>, users: Vec<(u128, u64)>) -> (loaded: bool)
        requires
            old(self).wf(),
            old(self).users@.has_room(comments@.len()),
        ensures
            final(self).wf(),
            final(self).objects == old(self).objects,
            final(self).tags == old(self).tags,
            can_load(old(self).posts@, post, comments@, users@) && distinct_ids(comments@) ==> loaded,
            can_load(old(self).posts@, post, comments@, users@) && forest_users(
                build_forest(thread_nodes(comments@, users@)),
            ).len() <= comments@.len() ==> loaded,
            comments_loaded(*old(self), *final(self), post, comments@, users@, loaded),
    {
        proof {
            if distinct_ids(comments@) {
                lemma_thread_users_len(comments@, users@);
            }
        }
        let open = match self.posts.value(post) {
            Some(p) => match p.mutable.get() {
                Some(m) => m.comments.is_none(),
                None => false,
            },
            None => false,
        };
        let mut handles: Vec<u64> = Vec::new();
        let mut i: usize = 0;
        while i < users.len()
            invariant
                0 <= i <= users@.len(),
                handles@ == handles_of(users@.take(i as int)),
            decreases users@.len() - i,
        {
            proof {
                assert(handles_of(users@.take(i + 1)) =~= handles_of(users@.take(i as int)).push(users@[i as int].1));
            }
            handles.push(users[i].1);
            i += 1;
        }
        proof {
            assert(users@.take(i as int) =~= users@);
        }
        let mut loaded = false;
        if open {
            match build_comments(&comments, &users) {
                Some((forest, paths)) => {
                    let ghost nodes = thread_nodes(comments@, users@);
                    let mut held = Vec::new();
                    thread_users(&forest, &mut held);
                    proof {
                        assert(held@ =~= forest_users(forest_of(forest@)));
                    }
                    if held.len() <= comments.len() {
                        acquire_all(&mut self.users, &held);
                        let ghost before_posts = self.posts@;
                        match self.posts.value_mut(post) {
                            Some(p) => match p.mutable.update() {
                                Some(m) => {
                                    m.comments = Some(forest);
                                },
                                None => {},
                            },
                            None => {},
                        }
                        proof {
                            lemma_post_unchanged_unless(before_posts, self.posts@, post);
                        }
                        let ghost posts_now = self.posts;
                        let ghost users_now = self.users;
                        let mut k: usize = 0;
                        while k < paths.len()
                            invariant
                                0 <= k <= paths@.len(),
                                paths@.len() == nodes.len(),
                                forall|j: int|
                                    0 <= j < paths@.len() ==> (#[trigger] paths@[j]).0 == nodes[j].id
                                        && paths@[j].1@ == build_path(nodes, j),
                                self.comments@ == recorded(old(self).comments@, post, nodes, k as nat),
                                self.posts == posts_now,
                                self.users == users_now,
                                self.objects == old(self).objects,
                                self.tags == old(self).tags,
                            decreases paths@.len() - k,
                        {
                            let (id, path) = &paths[k];
                            self.comments.insert(*id, post, path.clone());
                            k += 1;
                        }
                        loaded = true;
                    }
                },
                None => {},
            }
        }
        release_all(&mut self.users, &handles);
        loaded
    }
}

/// A post cache whose value behind `h` changed (as `value_mut` allows)
/// keeps its handles; it is unchanged if the post keeps its state, ID and
/// poster.
pub proof fn lemma_post_unchanged_unless(before: CacheModel<Post>, after: CacheModel<Post>, h: u64)
    requires
        before.slots.contains_key(h) ==> after == (CacheModel {
            slots: before.slots.insert(h, super::inner::Slot { value: after.slots[h].value, ..before.slots[h] }),
            ..before
        }),
        !before.slots.contains_key(h) ==> after == before,
    ensures
        after.slots.dom() == before.slots.dom(),
        before.slots.contains_key(h) && after.slots[h].value.mutable@ == before.slots[h].value.mutable@
            && after.slots[h].value.id == before.slots[h].value.id && after.slots[h].value.poster
            == before.slots[h].value.poster ==> after == before,
{
    if before.slots.contains_key(h) {
        assert(after.slots.dom() =~= before.slots.dom());
        if after.slots[h].value.mutable@ == before.slots[h].value.mutable@
            && after.slots[h].value.id == before.slots[h].value.id && after.slots[h].value.poster
            == before.slots[h].value.poster {
            super::lock::lemma_lock_view_eq(before.slots[h].value.mutable, after.slots[h].value.mutable);
            assert(after.slots[h].value == before.slots[h].value);
            assert(after.slots =~= before.slots);
        }
    }
}

} // verus!

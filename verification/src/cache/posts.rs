use vstd::prelude::*;

use super::comment::{
    at_path, comment_at_mut, forest_of, lemma_forest_of, lemma_forest_of_append,
    lemma_forest_of_push, replace_path, tree_count, capped_count, tree_is_empty, tree_of, uncounted,
    valid_path, valid_tpath, at_tpath, replace_tpath, Comment, CommentTree,
};
use super::comment::{comment_at, describes, push_threads, replies_upto, shows_user, user_preview};
use super::inner::{Cache, CacheModel, Id};
use super::lock::CacheLock;
use super::objects::Object;
use super::users::User;
use crate::error::{Error, Result};
use crate::model::{CommentData, CommentInfo, ObjectPreview, PostPreview, Visibility};

verus! {

/// `a - b` on 32 bits, wrapping around below zero.
pub open spec fn wrapping_sub_u32(a: u32, b: u32) -> u32 {
    if a >= b {
        (a - b) as u32
    } else {
        (a - b + 0x1_0000_0000) as u32
    }
}

/// `a + b` on 32 bits, wrapping around above the maximum.
pub open spec fn wrapping_add_u32(a: u32, b: u32) -> u32 {
    if a + b <= u32::MAX {
        (a + b) as u32
    } else {
        (a + b - 0x1_0000_0000) as u32
    }
}

pub fn wrapping_sub(a: u32, b: u32) -> (r: u32)
    ensures
        r == wrapping_sub_u32(a, b),
{
    if a >= b {
        a - b
    } else {
        (u32::MAX - b) + a + 1
    }
}

pub fn wrapping_add(a: u32, b: u32) -> (r: u32)
    ensures
        r == wrapping_add_u32(a, b),
{
    if a <= u32::MAX - b {
        a + b
    } else {
        a - (u32::MAX - b) - 1
    }
}

/// Every comment in `f` is empty.
pub open spec fn all_empty(f: Seq<CommentTree>) -> bool {
    forall|i: int| 0 <= i < f.len() ==> #[trigger] tree_is_empty(f[i])
}

/// `t` once deleted: no content, and, for a recursive delete, no replies.
pub open spec fn deleted_tree(t: CommentTree, recursive: bool) -> CommentTree {
    CommentTree {
        content: Seq::empty(),
        children: if recursive {
            Seq::empty()
        } else {
            t.children
        },
        ..t
    }
}

/// Walks up from the comment at `path.take(len)` towards the top: while a
/// comment's replies are all empty, they are pruned from it and added to
/// `removed`. Returns the thread, what was removed, and whether the last
/// comment visited was pruned.
pub open spec fn prune_up(
    f: Seq<CommentTree>,
    path: Seq<usize>,
    len: nat,
    removed: Seq<CommentTree>,
    pruned: bool,
) -> (Seq<CommentTree>, Seq<CommentTree>, bool)
    decreases len,
{
    if len == 0 {
        (f, removed, pruned)
    } else {
        let node = at_path(f, path.take(len as int));
        if all_empty(node.children) {
            prune_up(
                replace_path(f, path.take(len as int), CommentTree { children: Seq::empty(), ..node }),
                path,
                (len - 1) as nat,
                removed + node.children,
                true,
            )
        } else {
            (f, removed, false)
        }
    }
}

/// What deleting the comment at `path` from the thread `f` leaves, and the
/// comments it removes: the comment is deleted (see `Comment::delete`);
/// then empty replies are pruned upwards from its parent (see `prune_up`);
/// and if that pruning reached the top and every top-level comment is
/// empty, the whole thread is removed.
pub open spec fn delete_spec(f: Seq<CommentTree>, path: Seq<usize>, recursive: bool) -> (Seq<CommentTree>, Seq<CommentTree>) {
    let target = at_path(f, path);
    let f1 = replace_path(f, path, deleted_tree(target, recursive));
    let removed1 = if recursive {
        target.children
    } else {
        Seq::empty()
    };
    let (f2, removed2, pruned) = prune_up(f1, path, (path.len() - 1) as nat, removed1, false);
    if pruned && all_empty(f2) {
        (Seq::empty(), removed2 + f2)
    } else {
        (f2, removed2)
    }
}

pub proof fn lemma_tpath_prefix(t: CommentTree, p: Seq<usize>, k: int)
    requires
        valid_tpath(t, p),
        0 <= k <= p.len(),
    ensures
        valid_tpath(t, p.take(k)),
    decreases p.len(),
{
    if k > 0 {
        assert(p.take(k).drop_first() =~= p.drop_first().take(k - 1));
        lemma_tpath_prefix(t.children[p[0] as int], p.drop_first(), k - 1);
    } else {
        assert(p.take(k) =~= Seq::<usize>::empty());
    }
}

pub proof fn lemma_tpath_replace_prefix(t: CommentTree, p: Seq<usize>, n: CommentTree, k: int)
    requires
        valid_tpath(t, p),
        0 <= k < p.len(),
    ensures
        valid_tpath(replace_tpath(t, p, n), p.take(k)),
    decreases p.len(),
{
    if k > 0 {
        assert(p.take(k).drop_first() =~= p.drop_first().take(k - 1));
        lemma_tpath_replace_prefix(t.children[p[0] as int], p.drop_first(), n, k - 1);
    } else {
        assert(p.take(k) =~= Seq::<usize>::empty());
    }
}

pub proof fn lemma_tpath_replace_same(t: CommentTree, p: Seq<usize>)
    requires
        valid_tpath(t, p),
    ensures
        replace_tpath(t, p, at_tpath(t, p)) == t,
    decreases p.len(),
{
    if p.len() > 0 {
        lemma_tpath_replace_same(t.children[p[0] as int], p.drop_first());
        assert(t.children.update(p[0] as int, t.children[p[0] as int]) =~= t.children);
    }
}

pub proof fn lemma_path_replace_same(f: Seq<CommentTree>, p: Seq<usize>)
    requires
        valid_path(f, p),
    ensures
        replace_path(f, p, at_path(f, p)) == f,
{
    lemma_tpath_replace_same(f[p[0] as int], p.drop_first());
    assert(f.update(p[0] as int, f[p[0] as int]) =~= f);
}

pub proof fn lemma_path_prefix(f: Seq<CommentTree>, p: Seq<usize>, k: int)
    requires
        valid_path(f, p),
        1 <= k <= p.len(),
    ensures
        valid_path(f, p.take(k)),
{
    assert(p.take(k).drop_first() =~= p.drop_first().take(k - 1));
    lemma_tpath_prefix(f[p[0] as int], p.drop_first(), k - 1);
}

pub proof fn lemma_path_replace_prefix(f: Seq<CommentTree>, p: Seq<usize>, n: CommentTree, k: int)
    requires
        valid_path(f, p),
        1 <= k < p.len(),
    ensures
        valid_path(replace_path(f, p, n), p.take(k)),
{
    assert(p.take(k).drop_first() =~= p.drop_first().take(k - 1));
    lemma_tpath_replace_prefix(f[p[0] as int], p.drop_first(), n, k - 1);
}

/// The parts of a post that change.
#[derive(Debug)]
pub struct PostMut {
    pub title: String,
    pub description: String,
    pub visibility: Visibility,
    pub created: i64,
    pub modified: i64,
    /// Handles of the post's objects, in the object cache.
    pub objects: Vec<u64>,
    pub posts: Vec<u128>,
    /// Handles of the post's tags, in the tag cache.
    pub tags: Vec<u64>,
    pub comment_count: u32,
    /// The post's comments, once they have been loaded.
    pub comments: Option<Vec<Comment>>,
}

/// The thread of `post`, as a tree of comments.
pub open spec fn thread_trees(post: PostMut) -> Option<Seq<CommentTree>> {
    match post.comments {
        Some(c) => Some(forest_of(c@)),
        None => None,
    }
}

/// Whether every comment in `comments` is empty.
pub fn all_comments_empty(comments: &Vec<Comment>) -> (empty: bool)
    ensures
        empty == all_empty(forest_of(comments@)),
{
    proof {
        lemma_forest_of(comments@);
    }
    let mut i: usize = 0;
    while i < comments.len()
        invariant
            0 <= i <= comments@.len(),
            forest_of(comments@).len() == comments@.len(),
            forall|k: int| 0 <= k < comments@.len() ==> #[trigger] forest_of(comments@)[k] == tree_of(comments@[k]),
            forall|k: int| 0 <= k < i ==> #[trigger] tree_is_empty(forest_of(comments@)[k]),
        decreases comments@.len() - i,
    {
        if !comments[i].is_empty() {
            proof {
                assert(!tree_is_empty(forest_of(comments@)[i as int]));
            }
            return false;
        }
        i += 1;
    }
    true
}

/// `a` and `b` differ at most in their comment count and thread.
pub open spec fn same_but_thread(a: PostMut, b: PostMut) -> bool {
    &&& a.title == b.title
    &&& a.description == b.description
    &&& a.visibility == b.visibility
    &&& a.created == b.created
    &&& a.modified == b.modified
    &&& a.objects == b.objects
    &&& a.posts == b.posts
    &&& a.tags == b.tags
}

impl PostMut {
    /// Counts a new top-level comment and, if the thread is loaded, adds the
    /// comment to it, returning the path to it.
    pub fn add_comment(&mut self, comment: Comment) -> (path: Option<Vec<usize>>)
        ensures
            final(self).comment_count == wrapping_add_u32(old(self).comment_count, 1),
            same_but_thread(*old(self), *final(self)),
            match old(self).comments {
                None => path is None && final(self).comments is None,
                Some(c) => path matches Some(p) && p@ == seq![c@.len() as usize] && thread_trees(
                    *final(self),
                ) == Some(forest_of(c@).push(tree_of(comment))),
            },
    {
        self.comment_count = wrapping_add(self.comment_count, 1);
        match &mut self.comments {
            Some(comments) => {
                proof {
                    lemma_forest_of_push(comments@, comment);
                }
                comments.push(comment);
                let mut path = Vec::new();
                path.push(comments.len() - 1);
                Some(path)
            },
            None => None,
        }
    }

    /// Mutable access to the comment at `path`, if the thread is loaded.
    pub fn comment_mut(&mut self, path: &[usize]) -> (target: Option<&mut Comment>)
        requires
            old(self).comments matches Some(c) ==> valid_path(forest_of(c@), path@),
        ensures
            old(self).comments is None ==> target is None && *final(self) == *old(self),
            old(self).comments matches Some(c) ==> (target matches Some(t) && tree_of(*t) == at_path(
                forest_of(c@),
                path@,
            ) && thread_trees(*final(self)) == Some(
                replace_path(forest_of(c@), path@, tree_of(*final(t))),
            )),
            final(self).comment_count == old(self).comment_count,
            same_but_thread(*old(self), *final(self)),
    {
        match &mut self.comments {
            Some(comments) => Some(comment_at_mut(comments, path)),
            None => None,
        }
    }

    /// Adds `reply` under the comment at `path`, if the thread is loaded,
    /// counting it and returning its index among that comment's replies.
    pub fn reply(&mut self, path: &[usize], reply: Comment) -> (index: Option<usize>)
        requires
            old(self).comments matches Some(c) ==> valid_path(forest_of(c@), path@)
                && at_path(forest_of(c@), path@).children.len() < usize::MAX,
        ensures
            old(self).comments is None ==> index is None && *final(self) == *old(self),
            old(self).comments matches Some(c) ==> ({
                let target = at_path(forest_of(c@), path@);
                &&& index == Some(target.children.len() as usize)
                &&& thread_trees(*final(self)) == Some(
                    replace_path(
                        forest_of(c@),
                        path@,
                        CommentTree { children: target.children.push(tree_of(reply)), ..target },
                    ),
                )
                &&& final(self).comment_count == wrapping_add_u32(old(self).comment_count, 1)
            }),
            same_but_thread(*old(self), *final(self)),
    {
        match &mut self.comments {
            Some(comments) => {
                let parent = comment_at_mut(comments, path);
                proof {
                    lemma_forest_of(parent.children@);
                }
                let index = parent.reply(reply);
                self.comment_count = wrapping_add(self.comment_count, 1);
                Some(index)
            },
            None => None,
        }
    }

    /// Deletes the comment at `path` (see `delete_spec`), if the thread is
    /// loaded, and lowers the comment count by the number of comments the
    /// delete covers. Returns the comments removed from the thread and the
    /// users whose comment count drops.
    pub fn delete_comment(&mut self, path: &[usize], recursive: bool) -> (result: (Vec<Comment>, Vec<u64>))
        requires
            old(self).comments matches Some(c) ==> valid_path(forest_of(c@), path@),
        ensures
            old(self).comments is None ==> result.0@ == Seq::<Comment>::empty() && result.1@ == Seq::<
                u64,
            >::empty() && *final(self) == *old(self),
            old(self).comments matches Some(c) ==> ({
                let target = at_path(forest_of(c@), path@);
                let (f, removed) = delete_spec(forest_of(c@), path@, recursive);
                &&& thread_trees(*final(self)) == Some(f)
                &&& forest_of(result.0@) == removed
                &&& result.1@ == uncounted(target, recursive)
                &&& final(self).comment_count == wrapping_sub_u32(
                    old(self).comment_count,
                    if recursive {
                        capped_count(target) as u32
                    } else {
                        1
                    },
                )
            }),
            same_but_thread(*old(self), *final(self)),
    {
        let comments = match &mut self.comments {
            Some(comments) => comments,
            None => {
                return (Vec::new(), Vec::new());
            },
        };
        let ghost f0 = forest_of(comments@);
        let target = comment_at_mut(comments, path);
        let count: u32 = if recursive {
            target.count() as u32
        } else {
            1
        };
        proof {
            lemma_forest_of(target.children@);
        }
        let (mut result, users) = target.delete(recursive);
        proof {
            lemma_forest_of(target.children@);
            assert(tree_of(*target) =~= deleted_tree(at_path(f0, path@), recursive));
        }
        let ghost f1 = forest_of(comments@);
        let ghost removed1 = forest_of(result@);
        proof {
            lemma_forest_of(result@);
            assert(removed1 =~= (if recursive {
                at_path(f0, path@).children
            } else {
                Seq::<CommentTree>::empty()
            }));
        }
        self.comment_count = wrapping_sub(self.comment_count, count);
        let comments = match &mut self.comments {
            Some(comments) => comments,
            None => {
                return (result, users);
            },
        };
        let mut pruned = false;
        let mut stop = false;
        let mut len: usize = path.len() - 1;
        let ghost target_state = prune_up(f1, path@, (path@.len() - 1) as nat, removed1, false);
        proof {
            lemma_forest_of(result@);
            assert forall|k: int| 1 <= k <= len implies valid_path(forest_of(comments@), #[trigger] path@.take(k)) by {
                lemma_path_replace_prefix(f0, path@, deleted_tree(at_path(f0, path@), recursive), k);
            }
        }
        while len >= 1 && !stop
            invariant
                1 <= path@.len(),
                len < path@.len(),
                forall|k: int| 1 <= k <= len ==> valid_path(forest_of(comments@), #[trigger] path@.take(k)),
                stop ==> !pruned,
                target_state == (if stop {
                    (forest_of(comments@), forest_of(result@), false)
                } else {
                    prune_up(forest_of(comments@), path@, len as nat, forest_of(result@), pruned)
                }),
            decreases len + (if stop {
                0int
            } else {
                1int
            }),
        {
            let prefix = vstd::slice::slice_subrange(path, 0, len);
            proof {
                assert(prefix@ =~= path@.take(len as int));
            }
            let ghost c_before = forest_of(comments@);
            let ghost r_before = forest_of(result@);
            let node = comment_at_mut(comments, prefix);
            if all_comments_empty(&node.children) {
                let ghost node_before = tree_of(*node);
                proof {
                    lemma_forest_of(node.children@);
                    lemma_forest_of_append(result@, node.children@);
                }
                result.append(&mut node.children);
                proof {
                    lemma_forest_of(node.children@);
                    assert(tree_of(*node) =~= CommentTree { children: Seq::empty(), ..node_before });
                }
                pruned = true;
                proof {
                    let n = tree_of(*node);
                    assert forall|k: int| 1 <= k <= len - 1 implies valid_path(
                        forest_of(comments@),
                        #[trigger] path@.take(k),
                    ) by {
                        assert(path@.take(len as int).take(k) =~= path@.take(k));
                        lemma_path_replace_prefix(c_before, path@.take(len as int), n, k);
                    }
                }
                len = len - 1;
            } else {
                proof {
                    lemma_path_replace_same(c_before, path@.take(len as int));
                }
                pruned = false;
                stop = true;
            }
        }
        let ghost before_top = forest_of(comments@);
        if pruned && all_comments_empty(comments) {
            proof {
                lemma_forest_of_append(result@, comments@);
            }
            result.append(comments);
            proof {
                lemma_forest_of(comments@);
                assert(forest_of(comments@) =~= Seq::<CommentTree>::empty());
            }
        }
        (result, users)
    }
}

/// A handle held on a user, with the user's ID.
#[derive(Clone, Copy, Debug, PartialEq, Eq, Structural)]
pub struct Held {
    pub id: u128,
    pub handle: u64,
}

/// A cached post. Once deleted, it has no state left.
#[derive(Debug)]
pub struct Post {
    pub id: u128,
    pub poster: Option<Held>,
    pub mutable: CacheLock<PostMut>,
}

impl Id for Post {
    open spec fn spec_id(&self) -> u128 {
        self.id
    }

    fn id(&self) -> (id: u128) {
        self.id
    }
}

/// Whether `user` is the post's poster.
pub open spec fn is_poster(post: Post, user: Option<Held>) -> bool {
    user matches Some(u) && post.poster matches Some(p) && p.id == u.id
}

/// `preview` is what the object cache shows of the object behind `handle`.
pub open spec fn shows_object(objects: CacheModel<Object>, handle: u64, preview: Option<ObjectPreview>) -> bool {
    if objects.slots.contains_key(handle) {
        let o = objects.slots[handle].value;
        preview matches Some(p) && p.id == o.id && p.preview_id == o.preview_id && p.media_type@ == o.media_type@
            && p.subtype@ == o.subtype@
    } else {
        preview is None
    }
}

/// The preview of the object behind `handle`, as the object cache shows it.
pub fn object_preview(objects: &Cache<Object>, handle: u64) -> (preview: Option<ObjectPreview>)
    ensures
        shows_object(objects@, handle, preview),
{
    match objects.value(handle) {
        Some(o) => Some(o.preview()),
        None => None,
    }
}

impl Post {
    /// Lets the poster through; anyone else needs to be an administrator.
    pub fn can_edit(&self, user: Held, users: &Cache<User>) -> (result: Result<()>)
        ensures
            ({
                let admin = users@.slots.contains_key(user.handle) && users@.slots[user.handle].value.spec_is_admin();
                if is_poster(*self, Some(user)) || admin {
                    result is Ok
                } else {
                    result matches Err(Error::Unauthorized)
                }
            }),
    {
        let is_poster = match self.poster {
            Some(p) => p.id == user.id,
            None => false,
        };
        if is_poster {
            Ok(())
        } else {
            match users.value(user.handle) {
                Some(u) => u.deny_permission(),
                None => Err(Error::Unauthorized),
            }
        }
    }

    /// Anyone may see a post that is not a draft; a draft only its poster.
    /// A deleted post is not found.
    pub fn can_view(&self, user: Option<Held>) -> (result: Result<()>)
        ensures
            self.mutable@ is None ==> result == Err::<(), Error>(Error::NotFound { entity: "post", id: self.id }),
            self.mutable@ matches Some(m) ==> if m.visibility != Visibility::Draft || is_poster(*self, user) {
                result is Ok
            } else {
                result matches Err(Error::Unauthorized)
            },
    {
        let is_draft = match self.mutable.get() {
            Some(post) => post.visibility == Visibility::Draft,
            None => {
                return Err(Error::NotFound { entity: "post", id: self.id });
            },
        };
        let is_poster = match (user, self.poster) {
            (Some(u), Some(p)) => u.id == p.id,
            _ => false,
        };
        if !is_draft || is_poster {
            Ok(())
        } else {
            Err(Error::Unauthorized)
        }
    }

    /// A summary of the post for `user`: none for a deleted post, or for a
    /// draft that `user` did not post.
    pub fn preview(&self, user: Option<Held>, users: &Cache<User>, objects: &Cache<Object>) -> (preview: Option<PostPreview>)
        requires
            self.mutable@ matches Some(m) ==> m.objects@.len() <= u32::MAX,
        ensures
            self.mutable@ is None ==> preview is None,
            self.mutable@ matches Some(m) ==> if m.visibility != Visibility::Draft || is_poster(*self, user) {
                preview matches Some(p) && p.id == self.id && p.title@ == m.title@
                    && p.comment_count == m.comment_count && p.object_count == m.objects@.len()
                    && p.created == m.created && shows_user(users@, self.poster_handle(), p.poster)
                    && (if m.objects@.len() == 0 {
                        p.preview is None
                    } else {
                        shows_object(objects@, m.objects@[0], p.preview)
                    })
            } else {
                preview is None
            },
    {
        match self.mutable.get() {
            Some(post) => {
                let is_poster = match (user, self.poster) {
                    (Some(u), Some(p)) => u.id == p.id,
                    _ => false,
                };
                if post.visibility != Visibility::Draft || is_poster {
                    let first = if post.objects.len() > 0 {
                        object_preview(objects, post.objects[0])
                    } else {
                        None
                    };
                    let poster = match self.poster {
                        Some(p) => user_preview(users, Some(p.handle)),
                        None => None,
                    };
                    Some(
                        PostPreview {
                            id: self.id,
                            poster,
                            title: post.title.clone(),
                            preview: first,
                            comment_count: post.comment_count,
                            object_count: post.objects.len() as u32,
                            created: post.created,
                        },
                    )
                } else {
                    None
                }
            },
            None => None,
        }
    }

    pub open spec fn poster_handle(&self) -> Option<u64> {
        match self.poster {
            Some(p) => Some(p.handle),
            None => None,
        }
    }
}

/// The loaded thread of a post.
pub struct PostComments<'a> {
    pub post: u128,
    pub comments: &'a Vec<Comment>,
}

impl<'a> PostComments<'a> {
    /// The comment at `path`.
    pub fn comment(&self, path: &[usize]) -> (c: &Comment)
        requires
            valid_path(forest_of(self.comments@), path@),
        ensures
            tree_of(*c) == at_path(forest_of(self.comments@), path@),
    {
        comment_at(self.comments, path)
    }

    /// The comment at `path`, with its post and parent, unless it is empty.
    pub fn get(&self, path: &[usize], users: &Cache<User>) -> (info: Option<CommentInfo>)
        requires
            valid_path(forest_of(self.comments@), path@),
        ensures
            ({
                let t = at_path(forest_of(self.comments@), path@);
                let parent = if path@.len() > 1 {
                    Some(at_path(forest_of(self.comments@), path@.drop_last()).id)
                } else {
                    None
                };
                &&& tree_is_empty(t) ==> info is None
                &&& !tree_is_empty(t) ==> (info matches Some(i) && i.id == t.id && i.post_id
                    == self.post && i.parent_id == parent && i.content@ == t.content)
            }),
    {
        let comment = comment_at(self.comments, path);
        let parent = if path.len() > 1 {
            proof {
                lemma_path_prefix(forest_of(self.comments@), path@, path@.len() - 1);
                assert(path@.take(path@.len() - 1) =~= path@.drop_last());
            }
            let prefix = vstd::slice::slice_subrange(path, 0, path.len() - 1);
            proof {
                assert(prefix@ =~= path@.drop_last());
            }
            Some(comment_at(self.comments, prefix).id)
        } else {
            None
        };
        comment.model(self.post, parent, users)
    }

    /// The whole thread as shown: top-level comments that are not empty,
    /// newest first, each followed by its own thread (see `replies_upto`).
    pub fn get_all(&self, users: &Cache<User>) -> (all: Vec<CommentData>)
        ensures
            ({
                let shown = replies_upto(forest_of(self.comments@), self.comments@.len());
                &&& all@.len() == shown.len()
                &&& forall|k: int| 0 <= k < shown.len() ==> describes(#[trigger] all@[k], shown[k], users@)
            }),
    {
        let mut all = Vec::new();
        push_threads(self.comments, &mut all, users);
        proof {
            let shown = replies_upto(forest_of(self.comments@), self.comments@.len());
            assert forall|k: int| 0 <= k < shown.len() implies describes(#[trigger] all@[k], shown[k], users@) by {
                assert(all@[k] == all@[0 + k]);
            }
        }
        all
    }

    /// The handle of the author of the comment at `path`.
    pub fn user(&self, path: &[usize]) -> (user: Option<u64>)
        requires
            valid_path(forest_of(self.comments@), path@),
        ensures
            user == at_path(forest_of(self.comments@), path@).user,
    {
        comment_at(self.comments, path).user
    }
}

} // verus!

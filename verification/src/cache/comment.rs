use vstd::prelude::*;

use super::inner::{Cache, CacheModel};
use super::users::User;
use crate::db;
use crate::model::{CommentData, CommentInfo, UserPreview};

verus! {

/// The abstract shape of a comment and its replies.
pub struct CommentTree {
    pub id: u128,
    pub user: Option<u64>,
    pub level: u8,
    pub content: Seq<char>,
    pub created: i64,
    pub children: Seq<CommentTree>,
}

/// A comment on a post, with its replies, oldest first. A deleted comment
/// keeps its place in the thread with empty content.
#[derive(Debug)]
pub struct Comment {
    pub id: u128,
    /// The handle of the commenting user, in the user cache.
    pub user: Option<u64>,
    pub level: u8,
    pub content: String,
    pub created: i64,
    pub children: Vec<Comment>,
}

pub open spec fn tree_of(c: Comment) -> CommentTree
    decreases c, 1nat,
{
    CommentTree {
        id: c.id,
        user: c.user,
        level: c.level,
        content: c.content@,
        created: c.created,
        children: forest_of(c.children@),
    }
}

pub open spec fn forest_of(cs: Seq<Comment>) -> Seq<CommentTree>
    decreases cs, 0nat,
{
    if cs.len() == 0 {
        Seq::empty()
    } else {
        seq![tree_of(cs[0])] + forest_of(cs.drop_first())
    }
}

pub proof fn lemma_forest_of(cs: Seq<Comment>)
    ensures
        forest_of(cs).len() == cs.len(),
        forall|i: int| 0 <= i < cs.len() ==> #[trigger] forest_of(cs)[i] == tree_of(cs[i]),
    decreases cs.len(),
{
    if cs.len() > 0 {
        lemma_forest_of(cs.drop_first());
        assert forall|i: int| 0 <= i < cs.len() implies #[trigger] forest_of(cs)[i] == tree_of(cs[i]) by {
            if i > 0 {
                assert(cs.drop_first()[i - 1] == cs[i]);
            }
        }
    }
}

pub proof fn lemma_forest_of_update(cs: Seq<Comment>, i: int, c: Comment)
    requires
        0 <= i < cs.len(),
    ensures
        forest_of(cs.update(i, c)) == forest_of(cs).update(i, tree_of(c)),
{
    lemma_forest_of(cs);
    lemma_forest_of(cs.update(i, c));
    assert(forest_of(cs.update(i, c)) =~= forest_of(cs).update(i, tree_of(c)));
}

pub proof fn lemma_forest_of_push(cs: Seq<Comment>, c: Comment)
    ensures
        forest_of(cs.push(c)) == forest_of(cs).push(tree_of(c)),
{
    lemma_forest_of(cs);
    lemma_forest_of(cs.push(c));
    assert(forest_of(cs.push(c)) =~= forest_of(cs).push(tree_of(c)));
}

pub proof fn lemma_forest_of_append(a: Seq<Comment>, b: Seq<Comment>)
    ensures
        forest_of(a + b) == forest_of(a) + forest_of(b),
{
    lemma_forest_of(a);
    lemma_forest_of(b);
    lemma_forest_of(a + b);
    assert(forest_of(a + b) =~= forest_of(a) + forest_of(b));
}

/// A comment with no content and no replies left.
pub open spec fn tree_is_empty(t: CommentTree) -> bool {
    t.content.len() == 0 && t.children.len() == 0
}

/// How many comments a tree holds.
pub open spec fn tree_count(t: CommentTree) -> nat
    decreases t, 1nat,
{
    1 + forest_count(t.children)
}

/// `n`, or `usize::MAX` if it is larger.
pub open spec fn capped(n: nat) -> usize {
    if n <= usize::MAX {
        n as usize
    } else {
        usize::MAX
    }
}

/// The number of comments in the thread under `t`, capped at `usize::MAX`.
pub open spec fn capped_count(t: CommentTree) -> usize {
    capped(tree_count(t))
}

pub open spec fn forest_count(f: Seq<CommentTree>) -> nat
    decreases f, 0nat,
{
    if f.len() == 0 {
        0
    } else {
        tree_count(f[0]) + forest_count(f.drop_first())
    }
}

pub proof fn lemma_forest_count_push(f: Seq<CommentTree>, t: CommentTree)
    ensures
        forest_count(f.push(t)) == forest_count(f) + tree_count(t),
    decreases f.len(),
{
    if f.len() > 0 {
        assert(f.push(t).drop_first() =~= f.drop_first().push(t));
        assert(f.push(t)[0] == f[0]);
        lemma_forest_count_push(f.drop_first(), t);
    } else {
        assert(f.push(t).drop_first() =~= Seq::<CommentTree>::empty());
        assert(f.push(t)[0] == t);
        assert(forest_count(Seq::<CommentTree>::empty()) == 0);
    }
}

/// The users whose comment counts drop when `t` is deleted: its author, if
/// it was not deleted already, and, for a recursive delete, the authors of
/// every reply not yet deleted. Replies under an already-deleted comment
/// are not visited.
pub open spec fn uncounted(t: CommentTree, recursive: bool) -> Seq<u64>
    decreases t, 1nat,
{
    if t.content.len() == 0 {
        Seq::empty()
    } else {
        let own = match t.user {
            Some(h) => seq![h],
            None => Seq::empty(),
        };
        if recursive {
            own + forest_uncounted(t.children)
        } else {
            own
        }
    }
}

pub open spec fn forest_uncounted(f: Seq<CommentTree>) -> Seq<u64>
    decreases f, 0nat,
{
    if f.len() == 0 {
        Seq::empty()
    } else {
        uncounted(f[0], true) + forest_uncounted(f.drop_first())
    }
}

pub proof fn lemma_forest_uncounted_push(f: Seq<CommentTree>, t: CommentTree)
    ensures
        forest_uncounted(f.push(t)) == forest_uncounted(f) + uncounted(t, true),
    decreases f.len(),
{
    if f.len() > 0 {
        assert(f.push(t).drop_first() =~= f.drop_first().push(t));
        assert(f.push(t)[0] == f[0]);
        lemma_forest_uncounted_push(f.drop_first(), t);
        assert(forest_uncounted(f.push(t)) =~= forest_uncounted(f) + uncounted(t, true));
    } else {
        assert(f.push(t).drop_first() =~= Seq::<CommentTree>::empty());
        assert(f.push(t)[0] == t);
        assert(forest_uncounted(Seq::<CommentTree>::empty()) == Seq::<u64>::empty());
        assert(forest_uncounted(f.push(t)) =~= forest_uncounted(f) + uncounted(t, true));
    }
}

/// Whether `level` can be placed under `t` by descending into last
/// replies: somewhere down that line a comment sits one level above it.
pub open spec fn can_place(t: CommentTree, level: u8) -> bool
    decreases t,
{
    &&& t.level < 255
    &&& (level == t.level + 1 || (t.children.len() > 0 && can_place(t.children.last(), level)))
}

/// `t` with `c` placed as the newest reply of the first comment one level
/// above `c`, found by descending into last replies.
pub open spec fn place(t: CommentTree, c: CommentTree) -> CommentTree
    decreases t,
{
    if c.level == t.level + 1 {
        CommentTree { children: t.children.push(c), ..t }
    } else if t.children.len() > 0 {
        CommentTree {
            children: t.children.update(
                t.children.len() - 1,
                place(t.children.last(), c),
            ),
            ..t
        }
    } else {
        t
    }
}

/// The child indices that lead from `t` to where `place` puts a comment of
/// `level`.
pub open spec fn place_path(t: CommentTree, level: u8) -> Seq<usize>
    decreases t,
{
    if level == t.level + 1 {
        seq![t.children.len() as usize]
    } else if t.children.len() > 0 {
        seq![(t.children.len() - 1) as usize] + place_path(t.children.last(), level)
    } else {
        Seq::empty()
    }
}

impl Comment {
    /// A comment built from its stored form, by the given user.
    pub fn new(comment: db::Comment, user: Option<u64>) -> (c: Self)
        requires
            comment.level <= 255,
        ensures
            c.id == comment.id,
            c.user == user,
            c.level == comment.level,
            c.content == comment.content,
            c.created == comment.created,
            c.children@ == Seq::<Comment>::empty(),
    {
        Comment {
            id: comment.id,
            user,
            level: comment.level as u8,
            content: comment.content,
            created: comment.created,
            children: Vec::new(),
        }
    }

    /// Whether the comment is deleted and has no replies left.
    pub fn is_empty(&self) -> (empty: bool)
        ensures
            empty == tree_is_empty(tree_of(*self)),
    {
        proof {
            lemma_forest_of(self.children@);
        }
        self.content.as_str().unicode_len() == 0 && self.children.len() == 0
    }

    /// How many comments the thread under this one holds, itself included
    /// (capped at `usize::MAX`, which no thread in memory reaches).
    pub fn count(&self) -> (n: usize)
        ensures
            n == capped_count(tree_of(*self)),
        decreases self,
    {
        let mut total: usize = 1;
        let mut i: usize = 0;
        proof {
            lemma_forest_of(self.children@);
        }
        while i < self.children.len()
            invariant
                0 <= i <= self.children@.len(),
                forest_of(self.children@).len() == self.children@.len(),
                forall|k: int| 0 <= k < self.children@.len() ==> #[trigger] forest_of(self.children@)[k] == tree_of(self.children@[k]),
                total == capped(1 + forest_count(forest_of(self.children@).take(i as int))),
                1 + forest_count(forest_of(self.children@)) == tree_count(tree_of(*self)),
            decreases self.children@.len() - i,
        {
            let ghost f = forest_of(self.children@);
            proof {
                assert(f.take(i + 1) =~= f.take(i as int).push(f[i as int]));
                lemma_forest_count_push(f.take(i as int), f[i as int]);
            }
            let n = self.children[i].count();
            total = total.saturating_add(n);
            i += 1;
        }
        proof {
            assert(forest_of(self.children@).take(i as int) =~= forest_of(self.children@));
        }
        total
    }

    /// The users whose comment count deleting this comment lowers.
    pub fn uncounted(&self, recursive: bool) -> (users: Vec<u64>)
        ensures
            users@ == uncounted(tree_of(*self), recursive),
        decreases self,
    {
        let mut users: Vec<u64> = Vec::new();
        if self.content.as_str().unicode_len() == 0 {
            return users;
        }
        if let Some(h) = self.user {
            users.push(h);
        }
        if recursive {
            let ghost own = users@;
            let mut i: usize = 0;
            proof {
                lemma_forest_of(self.children@);
            }
            while i < self.children.len()
                invariant
                    0 <= i <= self.children@.len(),
                    forest_of(self.children@).len() == self.children@.len(),
                    forall|k: int| 0 <= k < self.children@.len() ==> #[trigger] forest_of(self.children@)[k] == tree_of(self.children@[k]),
                    users@ == own + forest_uncounted(forest_of(self.children@).take(i as int)),
                decreases self.children@.len() - i,
            {
                let ghost f = forest_of(self.children@);
                proof {
                    assert(f.take(i + 1) =~= f.take(i as int).push(f[i as int]));
                    lemma_forest_uncounted_push(f.take(i as int), f[i as int]);
                }
                let mut more = self.children[i].uncounted(true);
                users.append(&mut more);
                proof {
                    assert(users@ =~= own + forest_uncounted(f.take(i + 1)));
                }
                i += 1;
            }
            proof {
                assert(forest_of(self.children@).take(i as int) =~= forest_of(self.children@));
            }
        }
        users
    }

    /// Deletes the comment: its content is cleared and, for a recursive
    /// delete, its replies are taken away and returned. Also returns the
    /// users whose comment count drops (see `uncounted`).
    pub fn delete(&mut self, recursive: bool) -> (result: (Vec<Comment>, Vec<u64>))
        ensures
            result.1@ == uncounted(tree_of(*old(self)), recursive),
            final(self).id == old(self).id,
            final(self).user == old(self).user,
            final(self).level == old(self).level,
            final(self).created == old(self).created,
            final(self).content@ == Seq::<char>::empty(),
            recursive ==> final(self).children@ == Seq::<Comment>::empty() && result.0@ == old(self).children@,
            !recursive ==> final(self).children@ == old(self).children@ && result.0@ == Seq::<Comment>::empty(),
    {
        let users = self.uncounted(recursive);
        self.content = String::new();
        let removed = if recursive {
            let mut taken = Vec::new();
            std::mem::swap(&mut taken, &mut self.children);
            taken
        } else {
            Vec::new()
        };
        (removed, users)
    }

    /// Places `comment` under this one, as the newest reply of the first
    /// comment one level above it found by descending into last replies,
    /// and extends `path` with the child indices that lead to it.
    pub fn push(&mut self, comment: Comment, path: &mut Vec<usize>)
        requires
            can_place(tree_of(*old(self)), comment.level),
        ensures
            tree_of(*final(self)) == place(tree_of(*old(self)), tree_of(comment)),
            final(path)@ == old(path)@ + place_path(tree_of(*old(self)), comment.level),
        decreases *old(self),
    {
        proof {
            lemma_forest_of(self.children@);
        }
        if comment.level == self.level + 1 {
            path.push(self.children.len());
            proof {
                lemma_forest_of_push(self.children@, comment);
            }
            self.children.push(comment);
            proof {
                assert(path@ =~= old(path)@ + place_path(tree_of(*old(self)), comment.level));
            }
        } else {
            let last = self.children.len() - 1;
            path.push(last);
            let ghost before = self.children@;
            let child = &mut self.children[last];
            child.push(comment, path);
            proof {
                lemma_forest_of_update(before, last as int, self.children@[last as int]);
                assert(self.children@ == before.update(last as int, self.children@[last as int]));
                assert(path@ =~= old(path)@ + place_path(tree_of(*old(self)), comment.level));
            }
        }
    }

    /// Whether a comment of `level` can be placed under this one (see
    /// `can_place`).
    pub fn can_place(&self, level: u8) -> (ok: bool)
        ensures
            ok == can_place(tree_of(*self), level),
        decreases self,
    {
        proof {
            lemma_forest_of(self.children@);
        }
        if self.level == 255 {
            return false;
        }
        if level == self.level + 1 {
            return true;
        }
        if self.children.len() == 0 {
            return false;
        }
        self.children[self.children.len() - 1].can_place(level)
    }

    /// Adds `reply` as the newest reply and returns its index.
    pub fn reply(&mut self, reply: Comment) -> (index: usize)
        requires
            old(self).children@.len() < usize::MAX,
        ensures
            index == old(self).children@.len(),
            final(self).children@ == old(self).children@.push(reply),
            tree_of(*final(self)) == (CommentTree {
                children: tree_of(*old(self)).children.push(tree_of(reply)),
                ..tree_of(*old(self))
            }),
    {
        proof {
            lemma_forest_of_push(self.children@, reply);
        }
        self.children.push(reply);
        self.children.len() - 1
    }
}

/// Whether `path` leads from `t` down through its replies.
pub open spec fn valid_tpath(t: CommentTree, path: Seq<usize>) -> bool
    decreases path.len(),
{
    path.len() == 0 || (path[0] < t.children.len() && valid_tpath(t.children[path[0] as int], path.drop_first()))
}

/// The comment `path` leads to from `t`.
pub open spec fn at_tpath(t: CommentTree, path: Seq<usize>) -> CommentTree
    decreases path.len(),
{
    if path.len() == 0 {
        t
    } else {
        at_tpath(t.children[path[0] as int], path.drop_first())
    }
}

/// `t` with the comment that `path` leads to replaced by `n`.
pub open spec fn replace_tpath(t: CommentTree, path: Seq<usize>, n: CommentTree) -> CommentTree
    decreases path.len(),
{
    if path.len() == 0 {
        n
    } else {
        CommentTree {
            children: t.children.update(
                path[0] as int,
                replace_tpath(t.children[path[0] as int], path.drop_first(), n),
            ),
            ..t
        }
    }
}

/// Whether `path` leads to a comment of the thread `f`: its first index
/// picks a top-level comment, the rest descend through replies.
pub open spec fn valid_path(f: Seq<CommentTree>, path: Seq<usize>) -> bool {
    path.len() > 0 && path[0] < f.len() && valid_tpath(f[path[0] as int], path.drop_first())
}

pub open spec fn at_path(f: Seq<CommentTree>, path: Seq<usize>) -> CommentTree {
    at_tpath(f[path[0] as int], path.drop_first())
}

pub open spec fn replace_path(f: Seq<CommentTree>, path: Seq<usize>, n: CommentTree) -> Seq<CommentTree> {
    f.update(path[0] as int, replace_tpath(f[path[0] as int], path.drop_first(), n))
}

/// Mutable access to the comment that `path[i..]` leads to from `c`.
fn descend<'a>(c: &'a mut Comment, path: &[usize], i: usize) -> (target: &'a mut Comment)
    requires
        i <= path@.len(),
        valid_tpath(tree_of(*old(c)), path@.skip(i as int)),
    ensures
        tree_of(*target) == at_tpath(tree_of(*old(c)), path@.skip(i as int)),
        tree_of(*final(c)) == replace_tpath(tree_of(*old(c)), path@.skip(i as int), tree_of(*final(target))),
    decreases path@.len() - i,
{
    if i == path.len() {
        proof {
            assert(path@.skip(i as int) =~= Seq::<usize>::empty());
        }
        c
    } else {
        proof {
            lemma_forest_of(c.children@);
            assert(path@.skip(i as int)[0] == path@[i as int]);
            assert(path@.skip(i as int).drop_first() =~= path@.skip(i + 1));
        }
        let index = path[i];
        let ghost before = c.children@;
        let child = &mut c.children[index];
        proof {
            lemma_forest_of_update(before, index as int, *final(child));
        }
        descend(child, path, i + 1)
    }
}

/// Mutable access to the comment of the thread `forest` that `path` leads
/// to.
pub fn comment_at_mut<'a>(forest: &'a mut Vec<Comment>, path: &[usize]) -> (target: &'a mut Comment)
    requires
        valid_path(forest_of(old(forest)@), path@),
    ensures
        tree_of(*target) == at_path(forest_of(old(forest)@), path@),
        forest_of(final(forest)@) == replace_path(forest_of(old(forest)@), path@, tree_of(*final(target))),
{
    proof {
        lemma_forest_of(forest@);
        assert(path@.skip(1) =~= path@.drop_first());
    }
    let first = path[0];
    let ghost before = forest@;
    let root = &mut forest[first];
    proof {
        lemma_forest_of_update(before, first as int, *final(root));
    }
    descend(root, path, 1)
}

/// Read access to the comment that `path[i..]` leads to from `c`.
fn descend_ref<'a>(c: &'a Comment, path: &[usize], i: usize) -> (target: &'a Comment)
    requires
        i <= path@.len(),
        valid_tpath(tree_of(*c), path@.skip(i as int)),
    ensures
        tree_of(*target) == at_tpath(tree_of(*c), path@.skip(i as int)),
    decreases path@.len() - i,
{
    if i == path.len() {
        proof {
            assert(path@.skip(i as int) =~= Seq::<usize>::empty());
        }
        c
    } else {
        proof {
            lemma_forest_of(c.children@);
            assert(path@.skip(i as int)[0] == path@[i as int]);
            assert(path@.skip(i as int).drop_first() =~= path@.skip(i + 1));
        }
        descend_ref(&c.children[path[i]], path, i + 1)
    }
}

/// The comment of the thread `forest` that `path` leads to.
pub fn comment_at<'a>(forest: &'a Vec<Comment>, path: &[usize]) -> (target: &'a Comment)
    requires
        valid_path(forest_of(forest@), path@),
    ensures
        tree_of(*target) == at_path(forest_of(forest@), path@),
{
    proof {
        lemma_forest_of(forest@);
        assert(path@.skip(1) =~= path@.drop_first());
    }
    descend_ref(&forest[path[0]], path, 1)
}

/// Whether `path[i..]` leads from `c` to a comment.
fn leads_from(c: &Comment, path: &[usize], i: usize) -> (valid: bool)
    requires
        i <= path@.len(),
    ensures
        valid == valid_tpath(tree_of(*c), path@.skip(i as int)),
    decreases path@.len() - i,
{
    if i == path.len() {
        proof {
            assert(path@.skip(i as int) =~= Seq::<usize>::empty());
        }
        true
    } else {
        proof {
            lemma_forest_of(c.children@);
            assert(path@.skip(i as int)[0] == path@[i as int]);
            assert(path@.skip(i as int).drop_first() =~= path@.skip(i + 1));
        }
        if path[i] < c.children.len() {
            leads_from(&c.children[path[i]], path, i + 1)
        } else {
            false
        }
    }
}

/// Whether `path` leads to a comment of the thread `forest`.
pub fn leads_to_comment(forest: &Vec<Comment>, path: &[usize]) -> (valid: bool)
    ensures
        valid == valid_path(forest_of(forest@), path@),
{
    proof {
        lemma_forest_of(forest@);
        if path@.len() > 0 {
            assert(path@.skip(1) =~= path@.drop_first());
        }
    }
    if path.len() == 0 || path[0] >= forest.len() {
        false
    } else {
        leads_from(&forest[path[0]], path, 1)
    }
}

/// `preview` is what the user cache shows of the user behind `user`: the
/// name and avatar of a live, undeleted user, or nothing.
pub open spec fn shows_user(users: CacheModel<User>, user: Option<u64>, preview: Option<UserPreview>) -> bool {
    match user {
        Some(h) => if users.slots.contains_key(h) && users.slots[h].value.mutable@ is Some {
            let u = users.slots[h].value;
            let m = u.mutable@->0;
            preview matches Some(p) && p.id == u.id && p.name@ == m.profile.name@ && p.avatar == m.profile.avatar
        } else {
            preview is None
        },
        None => preview is None,
    }
}

/// The preview of the user behind `user`, as the user cache shows it.
pub fn user_preview(users: &Cache<User>, user: Option<u64>) -> (preview: Option<UserPreview>)
    ensures
        shows_user(users@, user, preview),
{
    match user {
        Some(h) => match users.value(h) {
            Some(u) => u.preview(),
            None => None,
        },
        None => None,
    }
}

/// `d` describes the comment `t`.
pub open spec fn describes(d: CommentData, t: CommentTree, users: CacheModel<User>) -> bool {
    &&& d.id == t.id
    &&& d.content@ == t.content
    &&& d.level == t.level
    &&& d.created == t.created
    &&& shows_user(users, t.user, d.user)
}

/// The comments a thread shows under `t`, in the order shown: `t`, then
/// each reply that is not empty, newest first, each with its own thread.
pub open spec fn thread_of(t: CommentTree) -> Seq<CommentTree>
    decreases t, 0nat,
{
    seq![t] + replies_upto(t.children, t.children.len())
}

/// The threads of the comments `f[0..n]` that are not empty, last first.
pub open spec fn replies_upto(f: Seq<CommentTree>, n: nat) -> Seq<CommentTree>
    decreases f, n,
{
    if n == 0 || n > f.len() {
        Seq::empty()
    } else {
        (if tree_is_empty(f[n - 1]) {
            Seq::empty()
        } else {
            thread_of(f[n - 1])
        }) + replies_upto(f, (n - 1) as nat)
    }
}

/// The threads of the comments `f[i..]` that are not empty, last first.
pub open spec fn replies_after(f: Seq<CommentTree>, i: nat) -> Seq<CommentTree>
    decreases f.len() - i,
{
    if i >= f.len() {
        Seq::empty()
    } else {
        replies_after(f, i + 1) + (if tree_is_empty(f[i as int]) {
            Seq::empty()
        } else {
            thread_of(f[i as int])
        })
    }
}

pub proof fn lemma_replies_split(f: Seq<CommentTree>, i: nat)
    requires
        i <= f.len(),
    ensures
        replies_after(f, i) + replies_upto(f, i) == replies_upto(f, f.len()),
    decreases f.len() - i,
{
    if i == f.len() {
        assert(replies_after(f, i) + replies_upto(f, i) =~= replies_upto(f, i));
    } else {
        lemma_replies_split(f, i + 1);
        assert(replies_after(f, i) + replies_upto(f, i) =~= replies_after(f, i + 1) + replies_upto(f, i + 1));
    }
}

/// Appends to `result` the threads of the comments in `comments` that are
/// not empty, last first (see `replies_upto`).
pub fn push_threads(comments: &Vec<Comment>, result: &mut Vec<CommentData>, users: &Cache<User>)
    ensures
        ({
            let shown = replies_upto(forest_of(comments@), comments@.len());
            &&& final(result)@.len() == old(result)@.len() + shown.len()
            &&& forall|k: int| 0 <= k < old(result)@.len() ==> #[trigger] final(result)@[k] == old(result)@[k]
            &&& forall|k: int|
                0 <= k < shown.len() ==> describes(#[trigger] final(result)@[old(result)@.len() + k], shown[k], users@)
        }),
    decreases comments, 0nat,
{
    let ghost f = forest_of(comments@);
    let ghost start = result@.len();
    proof {
        lemma_forest_of(comments@);
    }
    let mut i: usize = comments.len();
    while i > 0
        invariant
            0 <= i <= comments@.len(),
            f == forest_of(comments@),
            f.len() == comments@.len(),
            forall|k: int| 0 <= k < comments@.len() ==> #[trigger] f[k] == tree_of(comments@[k]),
            result@.len() == start + replies_after(f, i as nat).len(),
            forall|k: int| 0 <= k < start ==> #[trigger] result@[k] == old(result)@[k],
            forall|k: int|
                0 <= k < replies_after(f, i as nat).len() ==> describes(
                    #[trigger] result@[start + k],
                    replies_after(f, i as nat)[k],
                    users@,
                ),
        decreases i,
    {
        i = i - 1;
        let ghost before = result@;
        let child = &comments[i];
        if !child.is_empty() {
            child.thread(result, users);
        }
        proof {
            let prev = replies_after(f, (i + 1) as nat);
            assert(replies_after(f, i as nat) == prev + (if tree_is_empty(f[i as int]) {
                Seq::<CommentTree>::empty()
            } else {
                thread_of(f[i as int])
            }));
            assert forall|k: int|
                0 <= k < replies_after(f, i as nat).len() implies describes(
                #[trigger] result@[start + k],
                replies_after(f, i as nat)[k],
                users@,
            ) by {
                if k < prev.len() {
                    assert(result@[start + k] == before[start + k]);
                } else {
                    let k2 = k - prev.len();
                    assert(start + k == before.len() + k2);
                    assert(f[i as int] == tree_of(comments@[i as int]));
                }
            }
        }
    }
    proof {
        lemma_replies_split(f, 0);
        assert(replies_upto(f, 0) =~= Seq::<CommentTree>::empty());
        assert(replies_after(f, 0) =~= replies_upto(f, f.len()));
    }
}

impl Comment {
    /// The comment as a thread shows it.
    pub fn data(&self, users: &Cache<User>) -> (data: CommentData)
        ensures
            describes(data, tree_of(*self), users@),
    {
        CommentData {
            id: self.id,
            user: user_preview(users, self.user),
            content: self.content.clone(),
            level: self.level,
            created: self.created,
        }
    }

    /// The comment on its own, with its post and parent, unless it is empty.
    pub fn model(&self, post_id: u128, parent_id: Option<u128>, users: &Cache<User>) -> (info: Option<CommentInfo>)
        ensures
            tree_is_empty(tree_of(*self)) ==> info is None,
            !tree_is_empty(tree_of(*self)) ==> (info matches Some(i) && i.id == self.id
                && i.post_id == post_id && i.parent_id == parent_id && i.level == self.level
                && i.content@ == self.content@ && i.created == self.created
                && shows_user(users@, self.user, i.user)),
    {
        if self.is_empty() {
            None
        } else {
            Some(
                CommentInfo {
                    id: self.id,
                    user: user_preview(users, self.user),
                    post_id,
                    parent_id,
                    level: self.level,
                    content: self.content.clone(),
                    created: self.created,
                },
            )
        }
    }

    /// Appends the thread under this comment to `result` (see `thread_of`).
    pub fn thread(&self, result: &mut Vec<CommentData>, users: &Cache<User>)
        ensures
            final(result)@.len() == old(result)@.len() + thread_of(tree_of(*self)).len(),
            forall|k: int| 0 <= k < old(result)@.len() ==> #[trigger] final(result)@[k] == old(result)@[k],
            forall|k: int|
                0 <= k < thread_of(tree_of(*self)).len() ==> describes(
                    #[trigger] final(result)@[old(result)@.len() + k],
                    thread_of(tree_of(*self))[k],
                    users@,
                ),
        decreases self, 1nat,
    {
        let ghost start = result@.len();
        result.push(self.data(users));
        let ghost mid = result@;
        push_threads(&self.children, result, users);
        proof {
            lemma_forest_of(self.children@);
            let t = tree_of(*self);
            assert(t.children.len() == self.children@.len());
            assert forall|k: int|
                0 <= k < thread_of(t).len() implies describes(
                #[trigger] result@[start + k],
                thread_of(t)[k],
                users@,
            ) by {
                if k == 0 {
                    assert(result@[start as int] == mid[start as int]);
                } else {
                    assert(thread_of(t)[k] == replies_upto(t.children, t.children.len())[k - 1]);
                    assert(result@[start + k] == result@[mid.len() + (k - 1)]);
                }
            }
        }
    }
}

} // verus!

use vstd::prelude::*;

use super::comment::{describes, replies_upto, thread_of, tree_is_empty, CommentTree};
use super::inner::CacheModel;
use super::objects::with_post;
use super::users::User;
use crate::model::CommentData;

verus! {

/// The shown thread of the comments `f[0..n]` starts with the newest of
/// them, `f[n - 1]`, when that comment is not empty.
pub proof fn law_newest_comment_first(f: Seq<CommentTree>, n: nat)
    requires
        0 < n <= f.len(),
        !tree_is_empty(f[n - 1]),
    ensures
        replies_upto(f, n).len() > 0,
        replies_upto(f, n)[0] == f[n - 1],
{
    let t = f[n - 1];
    assert(thread_of(t)[0] == t);
    assert(replies_upto(f, n) == thread_of(t) + replies_upto(f, (n - 1) as nat));
}

/// Comments without replies, none of them empty, are shown newest first:
/// in reverse of the order in which they are stored.
pub proof fn law_replies_newest_first(f: Seq<CommentTree>, n: nat)
    requires
        n <= f.len(),
        forall|k: int| 0 <= k < f.len() ==> (#[trigger] f[k]).children.len() == 0 && f[k].content.len() > 0,
    ensures
        replies_upto(f, n) == f.take(n as int).reverse(),
    decreases n,
{
    if n == 0 {
        assert(f.take(0).reverse() =~= Seq::<CommentTree>::empty());
    } else {
        law_replies_newest_first(f, (n - 1) as nat);
        let t = f[n - 1];
        assert(t.children.len() == 0);
        assert(replies_upto(t.children, t.children.len()) == Seq::<CommentTree>::empty());
        assert(thread_of(t) =~= seq![t]);
        assert(f.take(n as int).reverse() =~= seq![t] + f.take(n - 1).reverse());
    }
}

/// The replies of a comment show right after it, the newest first: when a
/// comment's newest reply is not empty, it is shown second.
pub proof fn law_newest_reply_right_after(t: CommentTree)
    requires
        t.children.len() > 0,
        !tree_is_empty(t.children.last()),
    ensures
        thread_of(t)[0] == t,
        thread_of(t)[1] == t.children.last(),
{
    law_newest_comment_first(t.children, t.children.len());
}

/// What a shown thread of a post's top-level comments `f` starts with: the
/// description of the newest top-level comment, when it is not empty.
pub proof fn law_thread_shows_newest_first(f: Seq<CommentTree>, shown: Seq<CommentData>, users: CacheModel<User>)
    requires
        f.len() > 0,
        !tree_is_empty(f.last()),
        shown.len() == replies_upto(f, f.len()).len(),
        forall|k: int|
            0 <= k < shown.len() ==> describes(#[trigger] shown[k], replies_upto(f, f.len())[k], users),
    ensures
        shown.len() > 0,
        shown[0].id == f.last().id,
        shown[0].content@ == f.last().content,
{
    law_newest_comment_first(f, f.len());
    assert(describes(shown[0], replies_upto(f, f.len())[0], users));
}

/// Recording a post an object is not yet recorded in puts it first, ahead
/// of the posts recorded before, which keep their order; recording a post
/// again changes nothing.
pub proof fn law_newest_post_first(posts: Seq<u128>, id: u128)
    ensures
        !posts.contains(id) ==> {
            &&& with_post(posts, id).len() == posts.len() + 1
            &&& with_post(posts, id)[0] == id
            &&& forall|k: int| 0 <= k < posts.len() ==> #[trigger] with_post(posts, id)[k + 1] == posts[k]
        },
        posts.contains(id) ==> with_post(posts, id) == posts,
        with_post(posts, id).contains(id),
{
    if !posts.contains(id) {
        assert(with_post(posts, id)[0] == id);
    }
}

} // verus!

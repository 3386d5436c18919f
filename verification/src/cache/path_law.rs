use vstd::prelude::*;

use super::comment::{at_path, at_tpath, can_place, place, place_path, valid_path, valid_tpath, CommentTree};
use super::discussion::{comments_loaded, loaded_thread, recorded};
use super::store::Cache;
use super::thread::{build_forest, build_path, buildable, thread_nodes, thread_order};
use super::thread_laws::{distinct_ids, lemma_thread_order_unique};
use super::tree_law::step;
use crate::db;

verus! {

/// `a` and `b` are the same comment, whatever their replies.
pub open spec fn same_comment(a: CommentTree, b: CommentTree) -> bool {
    a.id == b.id && a.user == b.user && a.level == b.level && a.content == b.content && a.created == b.created
}

/// No comment in `t` has more than `b` replies.
pub open spec fn small_tree(t: CommentTree, b: nat) -> bool
    decreases t,
{
    t.children.len() <= b && forall|i: int| 0 <= i < t.children.len() ==> small_tree(#[trigger] t.children[i], b)
}

/// No tree of `f`, and no comment in them, has more than `b` entries.
pub open spec fn small_forest(f: Seq<CommentTree>, b: nat) -> bool {
    f.len() <= b && forall|i: int| 0 <= i < f.len() ==> small_tree(#[trigger] f[i], b)
}

proof fn lemma_small_more(t: CommentTree, b: nat)
    requires
        small_tree(t, b),
    ensures
        small_tree(t, b + 1),
    decreases t,
{
    assert forall|i: int| 0 <= i < t.children.len() implies small_tree(#[trigger] t.children[i], b + 1) by {
        lemma_small_more(t.children[i], b);
    }
}

proof fn lemma_place_small(t: CommentTree, c: CommentTree, b: nat)
    requires
        small_tree(t, b),
        c.children.len() == 0,
    ensures
        small_tree(place(t, c), b + 1),
    decreases t,
{
    let p = place(t, c);
    lemma_small_more(t, b);
    if c.level == t.level + 1 {
        assert forall|i: int| 0 <= i < p.children.len() implies small_tree(#[trigger] p.children[i], b + 1) by {
            if i < t.children.len() {
                assert(p.children[i] == t.children[i]);
            } else {
                assert(p.children[i] == c);
            }
        }
    } else if t.children.len() > 0 {
        let last = t.children.last();
        lemma_place_small(last, c, b);
        assert forall|i: int| 0 <= i < p.children.len() implies small_tree(#[trigger] p.children[i], b + 1) by {
            if i < t.children.len() - 1 {
                assert(p.children[i] == t.children[i]);
            } else {
                assert(p.children[i] == place(last, c));
            }
        }
    }
}

proof fn lemma_step_small(f: Seq<CommentTree>, c: CommentTree, b: nat)
    requires
        small_forest(f, b),
        c.children.len() == 0,
    ensures
        small_forest(step(f, c), b + 1),
{
    let g = step(f, c);
    assert forall|i: int| 0 <= i < f.len() implies small_tree(#[trigger] f[i], b + 1) by {
        lemma_small_more(f[i], b);
    }
    if c.level == 0 {
        assert forall|i: int| 0 <= i < g.len() implies small_tree(#[trigger] g[i], b + 1) by {
            if i < f.len() {
                assert(g[i] == f[i]);
            } else {
                assert(g[i] == c);
            }
        }
    } else if f.len() > 0 {
        lemma_place_small(f.last(), c, b);
        assert forall|i: int| 0 <= i < g.len() implies small_tree(#[trigger] g[i], b + 1) by {
            if i < f.len() - 1 {
                assert(g[i] == f[i]);
            } else {
                assert(g[i] == place(f.last(), c));
            }
        }
    }
}

proof fn lemma_built_small(nodes: Seq<CommentTree>, n: int)
    requires
        0 <= n <= nodes.len(),
        forall|i: int| 0 <= i < nodes.len() ==> (#[trigger] nodes[i]).children.len() == 0,
    ensures
        small_forest(build_forest(nodes.take(n)), n as nat),
    decreases n,
{
    if n == 0 {
        assert(nodes.take(0) =~= Seq::<CommentTree>::empty());
    } else {
        lemma_built_small(nodes, n - 1);
        lemma_build_step(nodes, n - 1);
        lemma_step_small(build_forest(nodes.take(n - 1)), nodes[n - 1], (n - 1) as nat);
    }
}

/// A comment placed under `t` is found where `place_path` leads.
proof fn lemma_place_lands(t: CommentTree, c: CommentTree, b: nat)
    requires
        can_place(t, c.level),
        small_tree(t, b),
        b < usize::MAX,
    ensures
        valid_tpath(place(t, c), place_path(t, c.level)),
        at_tpath(place(t, c), place_path(t, c.level)) == c,
    decreases t,
{
    let p = place(t, c);
    let path = place_path(t, c.level);
    if c.level == t.level + 1 {
        assert(path == seq![t.children.len() as usize]);
        assert(path[0] == t.children.len());
        assert(p.children[t.children.len() as int] == c);
        assert(path.drop_first() =~= Seq::<usize>::empty());
        assert(valid_tpath(c, Seq::<usize>::empty()));
        assert(at_tpath(c, Seq::<usize>::empty()) == c);
    } else {
        let last = t.children.last();
        assert(small_tree(t.children[t.children.len() - 1], b));
        lemma_place_lands(last, c, b);
        assert(path == seq![(t.children.len() - 1) as usize] + place_path(last, c.level));
        assert(path[0] == t.children.len() - 1);
        assert(path.drop_first() =~= place_path(last, c.level));
        assert(p.children[t.children.len() - 1] == place(last, c));
    }
}

/// Placing a comment under `t` keeps every comment a path led to where it
/// was.
proof fn lemma_place_keeps(t: CommentTree, c: CommentTree, path: Seq<usize>)
    requires
        valid_tpath(t, path),
    ensures
        valid_tpath(place(t, c), path),
        same_comment(at_tpath(place(t, c), path), at_tpath(t, path)),
    decreases path.len(),
{
    let p = place(t, c);
    if path.len() > 0 {
        let i = path[0] as int;
        let rest = path.drop_first();
        if c.level == t.level + 1 {
            assert(p.children[i] == t.children[i]);
        } else if t.children.len() > 0 {
            if i == t.children.len() - 1 {
                lemma_place_keeps(t.children[i], c, rest);
                assert(p.children[i] == place(t.children[i], c));
            } else {
                assert(p.children[i] == t.children[i]);
            }
        }
    }
}

proof fn lemma_step_keeps(f: Seq<CommentTree>, c: CommentTree, path: Seq<usize>)
    requires
        valid_path(f, path),
    ensures
        valid_path(step(f, c), path),
        same_comment(at_path(step(f, c), path), at_path(f, path)),
{
    let i = path[0] as int;
    let g = step(f, c);
    if c.level == 0 {
        assert(g[i] == f[i]);
    } else if f.len() > 0 {
        if i == f.len() - 1 {
            lemma_place_keeps(f[i], c, path.drop_first());
            assert(g[i] == place(f[i], c));
        } else {
            assert(g[i] == f[i]);
        }
    }
}

proof fn lemma_build_step(nodes: Seq<CommentTree>, n: int)
    requires
        0 <= n < nodes.len(),
    ensures
        build_forest(nodes.take(n + 1)) == step(build_forest(nodes.take(n)), nodes[n]),
        buildable(nodes.take(n + 1)) ==> buildable(nodes.take(n)),
{
    assert(nodes.take(n + 1).drop_last() =~= nodes.take(n));
    assert(nodes.take(n + 1).last() == nodes[n]);
}

proof fn lemma_buildable_prefix(nodes: Seq<CommentTree>, n: int)
    requires
        buildable(nodes),
        0 <= n <= nodes.len(),
    ensures
        buildable(nodes.take(n)),
    decreases nodes.len() - n,
{
    if n == nodes.len() {
        assert(nodes.take(n) =~= nodes);
    } else {
        lemma_buildable_prefix(nodes, n + 1);
        lemma_build_step(nodes, n);
    }
}

/// The path a comment landed at leads to it in every later thread.
proof fn lemma_path_stays(nodes: Seq<CommentTree>, k: int, n: int)
    requires
        buildable(nodes),
        0 <= k < n <= nodes.len(),
        nodes.len() < usize::MAX,
        forall|i: int| 0 <= i < nodes.len() ==> (#[trigger] nodes[i]).children.len() == 0,
    ensures
        valid_path(build_forest(nodes.take(n)), build_path(nodes, k)),
        same_comment(at_path(build_forest(nodes.take(n)), build_path(nodes, k)), nodes[k]),
    decreases n - k,
{
    let f = build_forest(nodes.take(n - 1));
    lemma_build_step(nodes, n - 1);
    if n == k + 1 {
        lemma_buildable_prefix(nodes, k + 1);
        let c = nodes[k];
        let path = build_path(nodes, k);
        assert(nodes.take(k + 1).drop_last() =~= nodes.take(k));
        assert(nodes.take(k + 1).last() == c);
        lemma_built_small(nodes, k);
        if c.level == 0 {
            assert(step(f, c)[f.len() as int] == c);
            assert(path.drop_first() =~= Seq::<usize>::empty());
        } else {
            assert(small_tree(f[f.len() - 1], k as nat));
            lemma_place_lands(f.last(), c, k as nat);
            assert(path[0] == f.len() - 1);
            assert(path.drop_first() =~= place_path(f.last(), c.level));
            assert(step(f, c)[f.len() - 1] == place(f.last(), c));
        }
    } else {
        lemma_path_stays(nodes, k, n - 1);
        lemma_step_keeps(f, nodes[n - 1], build_path(nodes, k));
    }
}

/// In a thread built from comments given in thread order, the path at which
/// each comment landed leads to that comment.
pub proof fn law_paths_lead_to_comments(nodes: Seq<CommentTree>, k: int)
    requires
        buildable(nodes),
        0 <= k < nodes.len(),
        nodes.len() < usize::MAX,
        forall|i: int| 0 <= i < nodes.len() ==> (#[trigger] nodes[i]).children.len() == 0,
    ensures
        valid_path(build_forest(nodes), build_path(nodes, k)),
        same_comment(at_path(build_forest(nodes), build_path(nodes, k)), nodes[k]),
{
    lemma_path_stays(nodes, k, nodes.len() as int);
    assert(nodes.take(nodes.len() as int) =~= nodes);
}

proof fn lemma_recorded(map: Map<u128, (u64, Seq<usize>)>, h: u64, nodes: Seq<CommentTree>, n: nat, k: int)
    requires
        0 <= k < n <= nodes.len(),
        forall|i: int, j: int| 0 <= i < j < nodes.len() ==> #[trigger] nodes[i].id != #[trigger] nodes[j].id,
    ensures
        recorded(map, h, nodes, n).contains_key(nodes[k].id),
        recorded(map, h, nodes, n)[nodes[k].id] == (h, build_path(nodes, k)),
    decreases n,
{
    if k < n - 1 {
        lemma_recorded(map, h, nodes, (n - 1) as nat, k);
        assert(nodes[k].id != nodes[n - 1].id);
    }
}

/// Once a post's thread is loaded from stored comments with distinct IDs,
/// the path recorded for each comment of the thread leads to that comment
/// in the post's thread.
pub proof fn law_recorded_paths_reach_comments(
    before: Cache,
    after: Cache,
    post: u64,
    comments: Seq<db::Comment>,
    users: Seq<(u128, u64)>,
    k: int,
)
    requires
        comments_loaded(before, after, post, comments, users, true),
        distinct_ids(comments),
        0 <= k < thread_nodes(comments, users).len(),
        thread_nodes(comments, users).len() < usize::MAX,
    ensures
        ({
            let nodes = thread_nodes(comments, users);
            let thread = loaded_thread(after.posts@, post)->0;
            &&& after.comments@.contains_key(nodes[k].id)
            &&& after.comments@[nodes[k].id].0 == post
            &&& valid_path(thread, after.comments@[nodes[k].id].1)
            &&& same_comment(at_path(thread, after.comments@[nodes[k].id].1), nodes[k])
        }),
{
    let nodes = thread_nodes(comments, users);
    assert(after.posts@.slots.contains_key(post));
    lemma_thread_order_unique(comments);
    let order = thread_order(comments);
    assert forall|i: int, j: int| 0 <= i < j < nodes.len() implies #[trigger] nodes[i].id != #[trigger] nodes[j].id by {
        assert(nodes[i].id == comments[order[i]].id);
        assert(nodes[j].id == comments[order[j]].id);
        assert(order[i] != order[j]);
    }
    lemma_recorded(before.comments@, post, nodes, nodes.len(), k);
    law_paths_lead_to_comments(nodes, k);
}

} // verus!

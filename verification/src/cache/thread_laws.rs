use vstd::prelude::*;

use super::comment::{place, CommentTree};
use super::store::{forest_users, lemma_forest_users_push, tree_users};
use super::thread::{
    build_forest, find_children, lemma_find_children_bounds, lemma_level_end, lemma_parent_end, level_end,
    level_runs, node_of, parent_end, thread_nodes, thread_order, walk_node, walk_range,
};
use crate::db;
use vstd::set_lib::{lemma_int_range, lemma_len_subset, set_int_range};

verus! {

/// No two of the comments share an ID, as the store guarantees.
pub open spec fn distinct_ids(cs: Seq<db::Comment>) -> bool {
    forall|i: int, j: int|
        0 <= i < cs.len() && 0 <= j < cs.len() && i != j ==> #[trigger] cs[i].id != #[trigger] cs[j].id
}

/// The runs are non-empty, lie within `[0, n)` and follow one another.
pub open spec fn chained(levels: Seq<(int, int)>, n: int) -> bool {
    &&& forall|d: int| 0 <= d < levels.len() ==> 0 <= #[trigger] levels[d].0 < levels[d].1 <= n
    &&& forall|d: int| 0 <= d < levels.len() - 1 ==> #[trigger] levels[d].1 == levels[d + 1].0
}

proof fn lemma_level_runs_empty(cs: Seq<db::Comment>, s: int)
    requires
        0 <= s <= cs.len(),
        level_runs(cs, s).len() == 0,
    ensures
        s == cs.len(),
{
    if s < cs.len() {
        lemma_level_end(cs, s);
        assert(level_runs(cs, s).len() >= 1);
    }
}

pub proof fn lemma_level_runs_chained(cs: Seq<db::Comment>, s: int)
    requires
        0 <= s,
    ensures
        chained(level_runs(cs, s), cs.len() as int),
        level_runs(cs, s).len() > 0 ==> level_runs(cs, s)[0].0 == s,
        level_runs(cs, s).len() > 0 ==> level_runs(cs, s).last().1 == cs.len(),
        0 <= s < cs.len() ==> level_runs(cs, s).len() > 0,
        forall|d: int| 0 <= d < level_runs(cs, s).len() ==> #[trigger] level_runs(cs, s)[d].1 == level_end(cs, level_runs(cs, s)[d].0),
    decreases cs.len() - s,
{
    if s < cs.len() {
        lemma_level_end(cs, s);
        let e = level_end(cs, s);
        lemma_level_runs_chained(cs, e);
        let r = level_runs(cs, s);
        let t = level_runs(cs, e);
        assert(r == seq![(s, e)] + t);
        assert forall|d: int| 0 <= d < r.len() implies 0 <= #[trigger] r[d].0 < r[d].1 <= cs.len() by {
            if d > 0 {
                assert(r[d] == t[d - 1]);
            }
        }
        assert forall|d: int| 0 <= d < r.len() - 1 implies #[trigger] r[d].1 == r[d + 1].0 by {
            assert(r[d + 1] == t[d]);
            if d > 0 {
                assert(r[d] == t[d - 1]);
            }
        }
        assert forall|d: int| 0 <= d < r.len() implies #[trigger] r[d].1 == level_end(cs, r[d].0) by {
            if d > 0 {
                assert(r[d] == t[d - 1]);
            }
        }
        if t.len() > 0 {
            assert(r.last() == t.last());
        } else {
            lemma_level_runs_empty(cs, e);
        }
    }
}

pub proof fn lemma_parent_run(cs: Seq<db::Comment>, s: int, e: int)
    requires
        s < e,
    ensures
        forall|k: int| s <= k < parent_end(cs, s, e) ==> #[trigger] cs[k].parent_id == cs[s].parent_id,
    decreases e - s,
{
    if !(s + 1 >= e || cs[s + 1].parent_id != cs[s].parent_id) {
        lemma_parent_run(cs, s + 1, e);
    }
}

/// The replies found for `id` within `[s, e)` all have `id` as parent.
pub proof fn lemma_find_children_parent(cs: Seq<db::Comment>, s: int, e: int, id: u128)
    ensures
        find_children(cs, s, e, id) matches Some((a, b)) ==> s <= a < b <= e && forall|k: int|
            a <= k < b ==> #[trigger] cs[k].parent_id == Some(id),
    decreases e - s,
{
    lemma_find_children_bounds(cs, s, e, id);
    if s < e {
        lemma_parent_end(cs, s, e);
        if cs[s].parent_id == Some(id) {
            lemma_parent_run(cs, s, e);
        } else {
            lemma_find_children_parent(cs, parent_end(cs, s, e), e, id);
        }
    }
}

/// A walk from a comment of run `depth` starts with it; the rest lies in
/// later runs.
pub proof fn lemma_walk_node_after(cs: Seq<db::Comment>, levels: Seq<(int, int)>, depth: int, i: int)
    requires
        chained(levels, cs.len() as int),
        0 <= depth < levels.len(),
        levels[depth].0 <= i < levels[depth].1,
    ensures
        walk_node(cs, levels, depth, i).len() >= 1,
        walk_node(cs, levels, depth, i)[0] == i,
        forall|k: int|
            1 <= k < walk_node(cs, levels, depth, i).len() ==> levels[depth].1 <= #[trigger] walk_node(
                cs,
                levels,
                depth,
                i,
            )[k] < cs.len(),
    decreases levels.len() - depth, 0int,
{
    let w = walk_node(cs, levels, depth, i);
    if depth + 1 < levels.len() {
        let r = levels[depth + 1];
        lemma_find_children_bounds(cs, r.0, r.1, cs[i].id);
        match find_children(cs, r.0, r.1, cs[i].id) {
            Some((a, b)) => {
                lemma_walk_range_after(cs, levels, depth + 1, a, b);
                let t = walk_range(cs, levels, depth + 1, a, b);
                assert(w == seq![i] + t);
                assert forall|k: int| 1 <= k < w.len() implies levels[depth].1 <= #[trigger] w[k] < cs.len() by {
                    assert(w[k] == t[k - 1]);
                }
            },
            None => {
                assert(w =~= seq![i]);
            },
        }
    } else {
        assert(w =~= seq![i]);
    }
}

/// A walk over `[s, e)` within run `depth` stays from that run on.
proof fn lemma_walk_range_after(cs: Seq<db::Comment>, levels: Seq<(int, int)>, depth: int, s: int, e: int)
    requires
        chained(levels, cs.len() as int),
        0 <= depth < levels.len(),
        levels[depth].0 <= s,
        e <= levels[depth].1,
    ensures
        forall|k: int|
            0 <= k < walk_range(cs, levels, depth, s, e).len() ==> levels[depth].0 <= #[trigger] walk_range(
                cs,
                levels,
                depth,
                s,
                e,
            )[k] < cs.len(),
    decreases levels.len() - depth, e - s,
{
    if s < e {
        lemma_walk_node_after(cs, levels, depth, s);
        lemma_walk_range_after(cs, levels, depth, s + 1, e);
        let a = walk_node(cs, levels, depth, s);
        let b = walk_range(cs, levels, depth, s + 1, e);
        let w = walk_range(cs, levels, depth, s, e);
        assert(w == a + b);
        assert forall|k: int| 0 <= k < w.len() implies levels[depth].0 <= #[trigger] w[k] < cs.len() by {
            if k < a.len() {
                assert(w[k] == a[k]);
            } else {
                assert(w[k] == b[k - a.len()]);
            }
        }
    }
}

/// What a walk over `[s, e)` visits, the walk from one of those comments
/// visits.
proof fn lemma_in_walk_range(cs: Seq<db::Comment>, levels: Seq<(int, int)>, depth: int, s: int, e: int, k: int)
    requires
        walk_range(cs, levels, depth, s, e).contains(k),
    ensures
        exists|x: int| s <= x < e && #[trigger] walk_node(cs, levels, depth, x).contains(k),
    decreases e - s,
{
    if !(s >= e || depth >= levels.len()) {
        let a = walk_node(cs, levels, depth, s);
        let b = walk_range(cs, levels, depth, s + 1, e);
        let w = walk_range(cs, levels, depth, s, e);
        assert(w == a + b);
        let p = choose|p: int| 0 <= p < w.len() && w[p] == k;
        if p < a.len() {
            assert(a[p] == k);
            assert(a.contains(k));
        } else {
            assert(b[p - a.len()] == k);
            assert(b.contains(k));
            lemma_in_walk_range(cs, levels, depth, s + 1, e, k);
        }
    }
}

/// With distinct IDs, a comment is reached from at most one comment of a
/// given run.
proof fn lemma_walk_node_owner(cs: Seq<db::Comment>, levels: Seq<(int, int)>, depth: int, i: int, j: int, k: int)
    requires
        chained(levels, cs.len() as int),
        distinct_ids(cs),
        0 <= depth < levels.len(),
        levels[depth].0 <= i < levels[depth].1,
        levels[depth].0 <= j < levels[depth].1,
        walk_node(cs, levels, depth, i).contains(k),
        walk_node(cs, levels, depth, j).contains(k),
    ensures
        i == j,
    decreases levels.len() - depth,
{
    let wi = walk_node(cs, levels, depth, i);
    let wj = walk_node(cs, levels, depth, j);
    lemma_walk_node_after(cs, levels, depth, i);
    lemma_walk_node_after(cs, levels, depth, j);
    let p = choose|p: int| 0 <= p < wi.len() && wi[p] == k;
    let q = choose|q: int| 0 <= q < wj.len() && wj[q] == k;
    if p == 0 || q == 0 {
        if p != 0 {
            assert(wi[p] >= levels[depth].1);
        }
        if q != 0 {
            assert(wj[q] >= levels[depth].1);
        }
    } else {
        let r = levels[depth + 1];
        lemma_find_children_parent(cs, r.0, r.1, cs[i].id);
        lemma_find_children_parent(cs, r.0, r.1, cs[j].id);
        match (find_children(cs, r.0, r.1, cs[i].id), find_children(cs, r.0, r.1, cs[j].id)) {
            (Some((a, b)), Some((c, d))) => {
                let ti = walk_range(cs, levels, depth + 1, a, b);
                let tj = walk_range(cs, levels, depth + 1, c, d);
                assert(wi == seq![i] + ti);
                assert(wj == seq![j] + tj);
                assert(ti[p - 1] == k);
                assert(tj[q - 1] == k);
                assert(ti.contains(k));
                assert(tj.contains(k));
                lemma_in_walk_range(cs, levels, depth + 1, a, b, k);
                lemma_in_walk_range(cs, levels, depth + 1, c, d, k);
                let x = choose|x: int| a <= x < b && #[trigger] walk_node(cs, levels, depth + 1, x).contains(k);
                let y = choose|y: int| c <= y < d && #[trigger] walk_node(cs, levels, depth + 1, y).contains(k);
                lemma_walk_node_owner(cs, levels, depth + 1, x, y, k);
                assert(cs[x].parent_id == Some(cs[i].id));
                assert(cs[y].parent_id == Some(cs[j].id));
            },
            (None, _) => {
                assert(wi =~= seq![i]);
            },
            (_, None) => {
                assert(wj =~= seq![j]);
            },
        }
    }
}

proof fn lemma_walk_node_unique(cs: Seq<db::Comment>, levels: Seq<(int, int)>, depth: int, i: int)
    requires
        chained(levels, cs.len() as int),
        distinct_ids(cs),
        0 <= depth < levels.len(),
        levels[depth].0 <= i < levels[depth].1,
    ensures
        walk_node(cs, levels, depth, i).no_duplicates(),
    decreases levels.len() - depth, 0int,
{
    let w = walk_node(cs, levels, depth, i);
    if depth + 1 < levels.len() {
        let r = levels[depth + 1];
        lemma_find_children_bounds(cs, r.0, r.1, cs[i].id);
        match find_children(cs, r.0, r.1, cs[i].id) {
            Some((a, b)) => {
                lemma_walk_range_unique(cs, levels, depth + 1, a, b);
                lemma_walk_range_after(cs, levels, depth + 1, a, b);
                let t = walk_range(cs, levels, depth + 1, a, b);
                assert(w == seq![i] + t);
                vstd::seq_lib::lemma_no_dup_in_concat(seq![i], t);
            },
            None => {
                assert(w =~= seq![i]);
            },
        }
    } else {
        assert(w =~= seq![i]);
    }
}

proof fn lemma_walk_range_unique(cs: Seq<db::Comment>, levels: Seq<(int, int)>, depth: int, s: int, e: int)
    requires
        chained(levels, cs.len() as int),
        distinct_ids(cs),
        0 <= depth < levels.len(),
        levels[depth].0 <= s,
        e <= levels[depth].1,
    ensures
        walk_range(cs, levels, depth, s, e).no_duplicates(),
    decreases levels.len() - depth, e - s,
{
    if s < e {
        lemma_walk_node_unique(cs, levels, depth, s);
        lemma_walk_range_unique(cs, levels, depth, s + 1, e);
        let a = walk_node(cs, levels, depth, s);
        let b = walk_range(cs, levels, depth, s + 1, e);
        assert(walk_range(cs, levels, depth, s, e) == a + b);
        assert forall|m: int, n: int| 0 <= m < a.len() && 0 <= n < b.len() implies a[m] != b[n] by {
            if a[m] == b[n] {
                let k = a[m];
                assert(a.contains(k));
                assert(b.contains(k));
                lemma_in_walk_range(cs, levels, depth, s + 1, e, k);
                let x = choose|x: int| s + 1 <= x < e && #[trigger] walk_node(cs, levels, depth, x).contains(k);
                lemma_walk_node_owner(cs, levels, depth, s, x, k);
            }
        }
        vstd::seq_lib::lemma_no_dup_in_concat(a, b);
    }
}

/// With distinct IDs, a thread lists each comment at most once.
pub proof fn lemma_thread_order_unique(cs: Seq<db::Comment>)
    requires
        distinct_ids(cs),
    ensures
        thread_order(cs).no_duplicates(),
        forall|k: int| 0 <= k < thread_order(cs).len() ==> 0 <= #[trigger] thread_order(cs)[k] < cs.len(),
{
    let levels = level_runs(cs, 0);
    lemma_level_runs_chained(cs, 0);
    if levels.len() > 0 {
        lemma_walk_range_unique(cs, levels, 0, levels[0].0, levels[0].1);
        lemma_walk_range_after(cs, levels, 0, levels[0].0, levels[0].1);
    } else {
        assert(thread_order(cs) =~= Seq::<int>::empty());
    }
}

/// With distinct IDs, a thread visits each comment at most once, so it has
/// no more nodes than there are comments.
pub proof fn lemma_thread_order_len(cs: Seq<db::Comment>)
    requires
        distinct_ids(cs),
    ensures
        thread_order(cs).len() <= cs.len(),
{
    let levels = level_runs(cs, 0);
    lemma_level_runs_chained(cs, 0);
    if levels.len() > 0 {
        let w = walk_range(cs, levels, 0, levels[0].0, levels[0].1);
        assert(thread_order(cs) == w);
        lemma_walk_range_unique(cs, levels, 0, levels[0].0, levels[0].1);
        lemma_walk_range_after(cs, levels, 0, levels[0].0, levels[0].1);
        w.unique_seq_to_set();
        lemma_int_range(0, cs.len() as int);
        assert(w.to_set().subset_of(set_int_range(0, cs.len() as int)));
        lemma_len_subset(w.to_set(), set_int_range(0, cs.len() as int));
    }
}

proof fn lemma_place_users(t: CommentTree, c: CommentTree)
    ensures
        tree_users(place(t, c)).len() <= tree_users(t).len() + tree_users(c).len(),
    decreases t,
{
    if c.level == t.level + 1 {
        lemma_forest_users_push(t.children, c);
    } else if t.children.len() > 0 {
        let last = t.children.last();
        let rest = t.children.drop_last();
        let placed = place(last, c);
        lemma_place_users(last, c);
        lemma_forest_users_push(rest, last);
        lemma_forest_users_push(rest, placed);
        assert(t.children == rest.push(last));
        assert(t.children.update(t.children.len() - 1, placed) == rest.push(placed));
    }
}

/// A thread built from comments without replies holds at most one user
/// handle per comment.
pub proof fn lemma_build_forest_users(nodes: Seq<CommentTree>)
    requires
        forall|k: int| 0 <= k < nodes.len() ==> (#[trigger] nodes[k]).children.len() == 0,
    ensures
        forest_users(build_forest(nodes)).len() <= nodes.len(),
    decreases nodes.len(),
{
    if nodes.len() > 0 {
        let rest = nodes.drop_last();
        let c = nodes.last();
        let f = build_forest(rest);
        lemma_build_forest_users(rest);
        assert(c.children == Seq::<CommentTree>::empty());
        assert(forest_users(c.children) == Seq::<u64>::empty());
        assert(tree_users(c).len() <= 1);
        if c.level == 0 {
            lemma_forest_users_push(f, c);
        } else if f.len() > 0 {
            let g = f.drop_last();
            lemma_place_users(f.last(), c);
            lemma_forest_users_push(g, f.last());
            lemma_forest_users_push(g, place(f.last(), c));
            assert(f == g.push(f.last()));
            assert(f.update(f.len() - 1, place(f.last(), c)) == g.push(place(f.last(), c)));
        }
    }
}

/// With distinct comment IDs, the thread built from `comments` holds at
/// most as many user handles as there are comments.
pub proof fn lemma_thread_users_len(comments: Seq<db::Comment>, users: Seq<(u128, u64)>)
    requires
        distinct_ids(comments),
    ensures
        forest_users(build_forest(thread_nodes(comments, users))).len() <= comments.len(),
{
    lemma_thread_order_len(comments);
    lemma_build_forest_users(thread_nodes(comments, users));
}

/// A run of equal levels ends where the level changes.
pub proof fn lemma_level_end_change(cs: Seq<db::Comment>, s: int)
    requires
        0 <= s < cs.len(),
    ensures
        level_end(cs, s) < cs.len() ==> cs[level_end(cs, s)].level != cs[level_end(cs, s) - 1].level,
    decreases cs.len() - s,
{
    if !(s + 1 >= cs.len() || cs[s + 1].level != cs[s].level) {
        lemma_level_end_change(cs, s + 1);
    }
}

/// The IDs of the top-level trees of a thread, in order.
pub open spec fn tree_ids(f: Seq<CommentTree>) -> Seq<u128> {
    f.map_values(|t: CommentTree| t.id)
}

/// The IDs of the top-level nodes among `nodes`, in order.
pub open spec fn top_ids(nodes: Seq<CommentTree>) -> Seq<u128>
    decreases nodes.len(),
{
    if nodes.len() == 0 {
        Seq::empty()
    } else {
        top_ids(nodes.drop_last()) + if nodes.last().level == 0 {
            seq![nodes.last().id]
        } else {
            Seq::empty()
        }
    }
}

/// The IDs of the top-level comments among `cs`, in order.
pub open spec fn top_level_ids(cs: Seq<db::Comment>) -> Seq<u128>
    decreases cs.len(),
{
    if cs.len() == 0 {
        Seq::empty()
    } else {
        top_level_ids(cs.drop_last()) + if cs.last().level == 0 {
            seq![cs.last().id]
        } else {
            Seq::empty()
        }
    }
}

/// The comments are given level by level, lowest first, and each level
/// fits a thread.
pub open spec fn levels_ascending(cs: Seq<db::Comment>) -> bool {
    &&& forall|i: int, j: int| 0 <= i <= j < cs.len() ==> #[trigger] cs[i].level <= #[trigger] cs[j].level
    &&& forall|k: int| 0 <= k < cs.len() ==> #[trigger] cs[k].level <= 255
}

pub open spec fn nodes_at(cs: Seq<db::Comment>, users: Seq<(u128, u64)>, idx: Seq<int>) -> Seq<CommentTree> {
    idx.map_values(|i: int| node_of(cs[i], users))
}

pub open spec fn span(s: int, e: int) -> Seq<int> {
    Seq::new((e - s) as nat, |k: int| s + k)
}

proof fn lemma_top_ids_add(a: Seq<CommentTree>, b: Seq<CommentTree>)
    ensures
        top_ids(a + b) == top_ids(a) + top_ids(b),
    decreases b.len(),
{
    if b.len() == 0 {
        assert(a + b =~= a);
        assert(top_ids(a) + top_ids(b) =~= top_ids(a));
    } else {
        assert((a + b).drop_last() =~= a + b.drop_last());
        assert((a + b).last() == b.last());
        lemma_top_ids_add(a, b.drop_last());
        assert(top_ids(a + b) =~= top_ids(a) + top_ids(b));
    }
}

proof fn lemma_build_forest_roots(nodes: Seq<CommentTree>)
    ensures
        tree_ids(build_forest(nodes)) == top_ids(nodes),
    decreases nodes.len(),
{
    if nodes.len() > 0 {
        let rest = nodes.drop_last();
        let c = nodes.last();
        let f = build_forest(rest);
        lemma_build_forest_roots(rest);
        if c.level == 0 {
            assert(tree_ids(f.push(c)) =~= tree_ids(f).push(c.id));
        } else if f.len() > 0 {
            let placed = place(f.last(), c);
            assert(placed.id == f.last().id);
            assert(tree_ids(f.update(f.len() - 1, placed)) =~= tree_ids(f));
            assert(top_ids(nodes) =~= top_ids(rest));
        } else {
            assert(top_ids(nodes) =~= top_ids(rest));
        }
    }
}

/// Comments none of which is top-level add no top-level node.
proof fn lemma_no_top(cs: Seq<db::Comment>, users: Seq<(u128, u64)>, idx: Seq<int>)
    requires
        levels_ascending(cs),
        forall|k: int| 0 <= k < idx.len() ==> 0 <= #[trigger] idx[k] < cs.len() && cs[idx[k]].level != 0,
    ensures
        top_ids(nodes_at(cs, users, idx)) == Seq::<u128>::empty(),
    decreases idx.len(),
{
    if idx.len() > 0 {
        let n = nodes_at(cs, users, idx);
        assert(n.drop_last() =~= nodes_at(cs, users, idx.drop_last()));
        lemma_no_top(cs, users, idx.drop_last());
        let i = idx.last();
        assert(idx[idx.len() - 1] == i);
        assert(cs[i].level <= 255);
        assert(n.last().level == cs[i].level as u8);
        assert(top_ids(n) =~= Seq::<u128>::empty());
    }
}

pub proof fn lemma_nodes_at_add(cs: Seq<db::Comment>, users: Seq<(u128, u64)>, a: Seq<int>, b: Seq<int>)
    ensures
        nodes_at(cs, users, a + b) == nodes_at(cs, users, a) + nodes_at(cs, users, b),
{
    assert(nodes_at(cs, users, a + b) =~= nodes_at(cs, users, a) + nodes_at(cs, users, b));
}

/// Within the first run of levels, the walk adds the same top-level nodes
/// as the comments it starts from.
proof fn lemma_walk_roots(cs: Seq<db::Comment>, users: Seq<(u128, u64)>, levels: Seq<(int, int)>, s: int, e: int)
    requires
        levels_ascending(cs),
        chained(levels, cs.len() as int),
        levels.len() > 0,
        levels[0].0 == 0,
        levels[0].1 == level_end(cs, 0),
        0 <= s <= e <= levels[0].1,
    ensures
        top_ids(nodes_at(cs, users, walk_range(cs, levels, 0, s, e))) == top_ids(nodes_at(cs, users, span(s, e))),
    decreases e - s,
{
    if s < e {
        lemma_walk_roots(cs, users, levels, s + 1, e);
        lemma_walk_node_after(cs, levels, 0, s);
        lemma_level_end(cs, 0);
        lemma_level_end_change(cs, 0);
        let w = walk_node(cs, levels, 0, s);
        let tail = w.drop_first();
        assert(w == seq![s] + tail);
        let e0 = levels[0].1;
        assert forall|k: int| 0 <= k < tail.len() implies 0 <= #[trigger] tail[k] < cs.len() && cs[tail[k]].level != 0 by {
            assert(tail[k] == w[k + 1]);
            let j = tail[k];
            assert(e0 <= j);
            if e0 < cs.len() {
                assert(cs[e0].level != cs[e0 - 1].level);
                assert(cs[e0 - 1].level == cs[0].level);
                assert(cs[0].level <= cs[e0 - 1].level);
                assert(cs[e0].level <= cs[j].level);
            }
        }
        lemma_no_top(cs, users, tail);
        assert(walk_range(cs, levels, 0, s, e) == w + walk_range(cs, levels, 0, s + 1, e));
        lemma_nodes_at_add(cs, users, seq![s] + tail, walk_range(cs, levels, 0, s + 1, e));
        lemma_nodes_at_add(cs, users, seq![s], tail);
        lemma_top_ids_add(nodes_at(cs, users, seq![s] + tail), nodes_at(cs, users, walk_range(cs, levels, 0, s + 1, e)));
        lemma_top_ids_add(nodes_at(cs, users, seq![s]), nodes_at(cs, users, tail));
        assert(span(s, e) =~= seq![s] + span(s + 1, e));
        lemma_nodes_at_add(cs, users, seq![s], span(s + 1, e));
        lemma_top_ids_add(nodes_at(cs, users, seq![s]), nodes_at(cs, users, span(s + 1, e)));
        assert(top_ids(nodes_at(cs, users, seq![s])) + Seq::<u128>::empty() =~= top_ids(nodes_at(cs, users, seq![s])));
    } else {
        assert(span(s, e) =~= Seq::<int>::empty());
        assert(nodes_at(cs, users, span(s, e)) =~= Seq::<CommentTree>::empty());
    }
}

proof fn lemma_top_level_ids(cs: Seq<db::Comment>, users: Seq<(u128, u64)>, n: int)
    requires
        levels_ascending(cs),
        0 <= n <= cs.len(),
    ensures
        top_level_ids(cs.take(n)) == top_ids(nodes_at(cs, users, span(0, n))),
    decreases n,
{
    if n == 0 {
        assert(cs.take(0) =~= Seq::<db::Comment>::empty());
        assert(nodes_at(cs, users, span(0, 0)) =~= Seq::<CommentTree>::empty());
    } else {
        lemma_top_level_ids(cs, users, n - 1);
        assert(cs.take(n).drop_last() =~= cs.take(n - 1));
        assert(cs.take(n).last() == cs[n - 1]);
        let m = nodes_at(cs, users, span(0, n));
        assert(m.drop_last() =~= nodes_at(cs, users, span(0, n - 1)));
        assert(m.last() == node_of(cs[n - 1], users));
        assert(cs[n - 1].level <= 255);
    }
}

/// For comments given level by level, lowest first, the top-level comments
/// of the thread built from them are the top-level comments, in the order
/// given.
pub proof fn law_thread_roots(cs: Seq<db::Comment>, users: Seq<(u128, u64)>)
    requires
        levels_ascending(cs),
    ensures
        tree_ids(build_forest(thread_nodes(cs, users))) == top_level_ids(cs),
{
    lemma_build_forest_roots(thread_nodes(cs, users));
    assert(cs.take(cs.len() as int) =~= cs);
    lemma_top_level_ids(cs, users, cs.len() as int);
    let levels = level_runs(cs, 0);
    lemma_level_runs_chained(cs, 0);
    if cs.len() == 0 {
        assert(thread_order(cs) =~= Seq::<int>::empty());
        assert(thread_nodes(cs, users) =~= nodes_at(cs, users, span(0, 0)));
    } else {
        lemma_level_end(cs, 0);
        lemma_level_end_change(cs, 0);
        let e0 = level_end(cs, 0);
        assert(levels[0] == (0int, e0));
        assert(thread_nodes(cs, users) == nodes_at(cs, users, walk_range(cs, levels, 0, 0, e0)));
        lemma_walk_roots(cs, users, levels, 0, e0);
        assert(span(0, cs.len() as int) =~= span(0, e0) + span(e0, cs.len() as int));
        lemma_nodes_at_add(cs, users, span(0, e0), span(e0, cs.len() as int));
        lemma_top_ids_add(nodes_at(cs, users, span(0, e0)), nodes_at(cs, users, span(e0, cs.len() as int)));
        let rest = span(e0, cs.len() as int);
        assert forall|k: int| 0 <= k < rest.len() implies 0 <= #[trigger] rest[k] < cs.len() && cs[rest[k]].level != 0 by {
            let j = rest[k];
            assert(cs[e0].level != cs[e0 - 1].level);
            assert(cs[e0 - 1].level == cs[0].level);
            assert(cs[0].level <= cs[e0 - 1].level);
            assert(cs[e0].level <= cs[j].level);
        }
        lemma_no_top(cs, users, rest);
        assert(top_ids(nodes_at(cs, users, span(0, e0))) + Seq::<u128>::empty() =~= top_ids(nodes_at(cs, users, span(0, e0))));
    }
}

} // verus!

use vstd::prelude::*;

use super::comment::{place, CommentTree};
use super::thread::{
    build_forest, find_children, lemma_find_children_bounds, lemma_level_end, level_runs,
    node_of, thread_nodes, thread_order, walk_node, walk_range,
};
use super::thread_laws::{
    chained, distinct_ids, law_thread_roots, lemma_level_end_change, lemma_level_runs_chained,
    lemma_nodes_at_add, lemma_parent_run, levels_ascending, nodes_at, span, top_level_ids, tree_ids,
};
use super::thread::{lemma_parent_end, parent_end};
use crate::db;

verus! {

/// One comment placed into a thread the way `build_forest` places it.
pub open spec fn step(f: Seq<CommentTree>, c: CommentTree) -> Seq<CommentTree> {
    if c.level == 0 {
        f.push(c)
    } else if f.len() > 0 {
        f.update(f.len() - 1, place(f.last(), c))
    } else {
        f
    }
}

/// The comments `q`, in order, placed into the thread `f`.
pub open spec fn build_from(f: Seq<CommentTree>, q: Seq<CommentTree>) -> Seq<CommentTree>
    decreases q.len(),
{
    if q.len() == 0 {
        f
    } else {
        step(build_from(f, q.drop_last()), q.last())
    }
}

/// A comment without its replies.
pub open spec fn leaf(t: CommentTree) -> CommentTree {
    CommentTree { children: Seq::empty(), ..t }
}

/// A tree listed comment by comment: each comment, then its replies' lists.
pub open spec fn pre_tree(t: CommentTree) -> Seq<CommentTree>
    decreases t, 1nat,
{
    seq![leaf(t)] + pre_forest(t.children)
}

pub open spec fn pre_forest(f: Seq<CommentTree>) -> Seq<CommentTree>
    decreases f, 0nat,
{
    if f.len() == 0 {
        Seq::empty()
    } else {
        pre_tree(f[0]) + pre_forest(f.drop_first())
    }
}

/// Each reply in `t` is one level below the comment it replies to.
pub open spec fn stepped(t: CommentTree) -> bool
    decreases t, 1nat,
{
    stepped_forest(t.children, t.level + 1)
}

/// Each tree of `f` is at `level` and stepped.
pub open spec fn stepped_forest(f: Seq<CommentTree>, level: int) -> bool
    decreases f, 0nat,
{
    f.len() == 0 || (f[0].level == level && stepped(f[0]) && stepped_forest(f.drop_first(), level))
}

/// Descending into last replies from `t` reaches a comment at `level`,
/// through comments above it.
pub open spec fn spine_has(t: CommentTree, level: int) -> bool
    decreases t,
{
    t.level == level || (t.level < level && t.children.len() > 0 && spine_has(t.children.last(), level))
}

/// A comment at `level` can go into `f`: it is top-level, or the last tree
/// reaches a comment one level above it.
pub open spec fn takes(f: Seq<CommentTree>, level: int) -> bool {
    level == 0 || (f.len() > 0 && spine_has(f.last(), level - 1))
}

proof fn lemma_build_forest_from(nodes: Seq<CommentTree>)
    ensures
        build_forest(nodes) == build_from(Seq::empty(), nodes),
    decreases nodes.len(),
{
    if nodes.len() > 0 {
        lemma_build_forest_from(nodes.drop_last());
    }
}

proof fn lemma_build_from_add(f: Seq<CommentTree>, a: Seq<CommentTree>, b: Seq<CommentTree>)
    ensures
        build_from(f, a + b) == build_from(build_from(f, a), b),
    decreases b.len(),
{
    if b.len() == 0 {
        assert(a + b =~= a);
    } else {
        assert((a + b).drop_last() =~= a + b.drop_last());
        assert((a + b).last() == b.last());
        lemma_build_from_add(f, a, b.drop_last());
    }
}

proof fn lemma_place_twice(t: CommentTree, s: CommentTree, c: CommentTree)
    requires
        spine_has(t, s.level - 1),
        c.level == s.level + 1,
    ensures
        place(place(t, s), c) == place(t, CommentTree { children: s.children.push(c), ..s }),
        spine_has(place(t, s), s.level as int),
    decreases t,
{
    let s2 = CommentTree { children: s.children.push(c), ..s };
    let p = place(t, s);
    if s.level == t.level + 1 {
        assert(p == CommentTree { children: t.children.push(s), ..t });
        assert(p.children.last() == s);
        assert(place(s, c) == s2);
        assert(place(p, c) == CommentTree { children: p.children.update(p.children.len() - 1, place(s, c)), ..p });
        assert(p.children.update(p.children.len() - 1, s2) =~= t.children.push(s2));
        assert(place(t, s2) == CommentTree { children: t.children.push(s2), ..t });
        assert(spine_has(s, s.level as int));
    } else {
        assert(t.level < s.level - 1);
        let last = t.children.last();
        lemma_place_twice(last, s, c);
        assert(p == CommentTree { children: t.children.update(t.children.len() - 1, place(last, s)), ..t });
        assert(p.children.last() == place(last, s));
        assert(place(p, c) == CommentTree {
            children: p.children.update(p.children.len() - 1, place(place(last, s), c)),
            ..p
        });
        assert(p.children.update(p.children.len() - 1, place(place(last, s), c)) =~= t.children.update(
            t.children.len() - 1,
            place(last, s2),
        ));
        assert(place(t, s2) == CommentTree { children: t.children.update(t.children.len() - 1, place(last, s2)), ..t });
    }
}

/// Placing a reply of `s` right after `s` went into `f` gives `s` with that
/// reply added; afterwards `f` takes a comment one level below `s`.
proof fn lemma_step_twice(f: Seq<CommentTree>, s: CommentTree, c: CommentTree)
    requires
        takes(f, s.level as int),
        c.level == s.level + 1,
    ensures
        step(step(f, s), c) == step(f, CommentTree { children: s.children.push(c), ..s }),
        takes(step(f, s), c.level as int),
{
    let s2 = CommentTree { children: s.children.push(c), ..s };
    if s.level == 0 {
        let g = f.push(s);
        assert(g.last() == s);
        assert(g.update(g.len() - 1, s2) =~= f.push(s2));
    } else {
        lemma_place_twice(f.last(), s, c);
        let g = f.update(f.len() - 1, place(f.last(), s));
        assert(g.last() == place(f.last(), s));
        assert(g.update(g.len() - 1, place(place(f.last(), s), c)) =~= f.update(
            f.len() - 1,
            place(f.last(), s2),
        ));
    }
}

/// Placing a stepped tree's comments, in order, into a thread that takes
/// it places the whole tree.
proof fn lemma_build_tree(f: Seq<CommentTree>, t: CommentTree)
    requires
        takes(f, t.level as int),
        stepped(t),
    ensures
        build_from(f, pre_tree(t)) == step(f, t),
    decreases t, 1nat,
{
    let l = leaf(t);
    assert(pre_tree(t) == seq![l] + pre_forest(t.children));
    lemma_build_from_add(f, seq![l], pre_forest(t.children));
    assert(seq![l].drop_last() =~= Seq::<CommentTree>::empty());
    assert(build_from(f, Seq::<CommentTree>::empty()) == f);
    assert(build_from(f, seq![l]) == step(f, l));
    lemma_build_replies(f, l, t.children);
    assert(l.children + t.children =~= t.children);
    assert(CommentTree { children: l.children + t.children, ..l } == t);
}

/// Placing the comments of stepped replies of `s`, in order, right after
/// `s` went into `f`, gives `s` with those replies added.
proof fn lemma_build_replies(f: Seq<CommentTree>, s: CommentTree, cs: Seq<CommentTree>)
    requires
        takes(f, s.level as int),
        stepped_forest(cs, s.level + 1),
    ensures
        build_from(step(f, s), pre_forest(cs)) == step(f, CommentTree { children: s.children + cs, ..s }),
    decreases cs, 0nat,
{
    if cs.len() == 0 {
        assert(s.children + cs =~= s.children);
        assert(CommentTree { children: s.children + cs, ..s } == s);
    } else {
        let c = cs[0];
        let rest = cs.drop_first();
        let s2 = CommentTree { children: s.children.push(c), ..s };
        lemma_step_twice(f, s, c);
        lemma_build_from_add(step(f, s), pre_tree(c), pre_forest(rest));
        lemma_build_tree(step(f, s), c);
        lemma_build_replies(f, s2, rest);
        assert(s2.children + rest =~= s.children + cs);
    }
}

/// Placing the comments of stepped top-level trees, in order, appends the
/// trees.
pub proof fn lemma_build_forest_of_trees(ts: Seq<CommentTree>)
    requires
        stepped_forest(ts, 0),
    ensures
        build_forest(pre_forest(ts)) == ts,
{
    lemma_build_forest_from(pre_forest(ts));
    lemma_build_top(Seq::empty(), ts);
    assert(Seq::<CommentTree>::empty() + ts =~= ts);
}

proof fn lemma_build_top(f: Seq<CommentTree>, ts: Seq<CommentTree>)
    requires
        stepped_forest(ts, 0),
    ensures
        build_from(f, pre_forest(ts)) == f + ts,
    decreases ts.len(),
{
    if ts.len() == 0 {
        assert(f + ts =~= f);
    } else {
        let t = ts[0];
        let rest = ts.drop_first();
        lemma_build_from_add(f, pre_tree(t), pre_forest(rest));
        lemma_build_tree(f, t);
        lemma_build_top(f.push(t), rest);
        assert(f.push(t) + rest =~= f + ts);
    }
}

/// The tree that the walk from the comment at index `i`, in run `depth`,
/// lists: the comment, with the trees of its replies found one run deeper.
pub open spec fn tree_at(
    cs: Seq<db::Comment>,
    users: Seq<(u128, u64)>,
    levels: Seq<(int, int)>,
    depth: int,
    i: int,
) -> CommentTree
    decreases levels.len() - depth, 0int,
{
    CommentTree {
        children: if 0 <= depth && depth + 1 < levels.len() {
            match find_children(cs, levels[depth + 1].0, levels[depth + 1].1, cs[i].id) {
                Some((a, b)) => trees_in(cs, users, levels, depth + 1, a, b),
                None => Seq::empty(),
            }
        } else {
            Seq::empty()
        },
        ..node_of(cs[i], users)
    }
}

/// The trees of the comments at indices `[s, e)`, in run `depth`.
pub open spec fn trees_in(
    cs: Seq<db::Comment>,
    users: Seq<(u128, u64)>,
    levels: Seq<(int, int)>,
    depth: int,
    s: int,
    e: int,
) -> Seq<CommentTree>
    decreases levels.len() - depth, e - s,
{
    if s >= e || depth >= levels.len() {
        Seq::empty()
    } else {
        seq![tree_at(cs, users, levels, depth, s)] + trees_in(cs, users, levels, depth, s + 1, e)
    }
}

proof fn lemma_pre_forest_cons(t: CommentTree, rest: Seq<CommentTree>)
    ensures
        pre_forest(seq![t] + rest) == pre_tree(t) + pre_forest(rest),
{
    assert((seq![t] + rest)[0] == t);
    assert((seq![t] + rest).drop_first() =~= rest);
}

proof fn lemma_walk_node_pre(cs: Seq<db::Comment>, users: Seq<(u128, u64)>, levels: Seq<(int, int)>, depth: int, i: int)
    ensures
        nodes_at(cs, users, walk_node(cs, levels, depth, i)) == pre_tree(tree_at(cs, users, levels, depth, i)),
    decreases levels.len() - depth, 0int,
{
    let t = tree_at(cs, users, levels, depth, i);
    let w = walk_node(cs, levels, depth, i);
    let rest = w.drop_first();
    assert(w == seq![i] + rest);
    lemma_nodes_at_add(cs, users, seq![i], rest);
    assert(leaf(t) == node_of(cs[i], users));
    assert(nodes_at(cs, users, seq![i]) =~= seq![leaf(t)]);
    if 0 <= depth && depth + 1 < levels.len() {
        match find_children(cs, levels[depth + 1].0, levels[depth + 1].1, cs[i].id) {
            Some((a, b)) => {
                assert(rest == walk_range(cs, levels, depth + 1, a, b));
                lemma_walk_range_pre(cs, users, levels, depth + 1, a, b);
            },
            None => {
                assert(rest =~= Seq::<int>::empty());
                assert(nodes_at(cs, users, rest) =~= Seq::<CommentTree>::empty());
            },
        }
    } else {
        assert(rest =~= Seq::<int>::empty());
        assert(nodes_at(cs, users, rest) =~= Seq::<CommentTree>::empty());
    }
}

proof fn lemma_walk_range_pre(cs: Seq<db::Comment>, users: Seq<(u128, u64)>, levels: Seq<(int, int)>, depth: int, s: int, e: int)
    ensures
        nodes_at(cs, users, walk_range(cs, levels, depth, s, e)) == pre_forest(trees_in(cs, users, levels, depth, s, e)),
    decreases levels.len() - depth, e - s,
{
    if s >= e || depth >= levels.len() {
        assert(nodes_at(cs, users, walk_range(cs, levels, depth, s, e)) =~= Seq::<CommentTree>::empty());
    } else {
        lemma_walk_node_pre(cs, users, levels, depth, s);
        lemma_walk_range_pre(cs, users, levels, depth, s + 1, e);
        lemma_nodes_at_add(cs, users, walk_node(cs, levels, depth, s), walk_range(cs, levels, depth, s + 1, e));
        lemma_pre_forest_cons(tree_at(cs, users, levels, depth, s), trees_in(cs, users, levels, depth, s + 1, e));
    }
}

/// The comments are given level by level: top-level ones first, each level
/// at most one deeper than the one before, none deeper than a thread holds.
pub open spec fn levels_consecutive(cs: Seq<db::Comment>) -> bool {
    &&& forall|k: int| 0 <= k < cs.len() ==> #[trigger] cs[k].level <= 255
    &&& cs.len() > 0 ==> cs[0].level == 0
    &&& forall|k: int|
        0 < k < cs.len() ==> #[trigger] cs[k].level == cs[k - 1].level || cs[k].level == cs[k - 1].level + 1
}

/// In comments given level by level, run `d` holds the comments of level `d`.
proof fn lemma_run_levels(cs: Seq<db::Comment>, d: int)
    requires
        levels_consecutive(cs),
        0 <= d < level_runs(cs, 0).len(),
    ensures
        forall|k: int|
            level_runs(cs, 0)[d].0 <= k < level_runs(cs, 0)[d].1 ==> #[trigger] cs[k].level == d,
    decreases d,
{
    let levels = level_runs(cs, 0);
    lemma_level_runs_chained(cs, 0);
    let r = levels[d];
    lemma_level_end(cs, r.0);
    if d == 0 {
        assert(cs[0].level == 0);
    } else {
        lemma_run_levels(cs, d - 1);
        let q = levels[d - 1];
        lemma_level_end_change(cs, q.0);
        assert(q.1 == r.0);
        assert(cs[r.0 - 1].level == d - 1);
    }
}

proof fn lemma_trees_stepped(
    cs: Seq<db::Comment>,
    users: Seq<(u128, u64)>,
    levels: Seq<(int, int)>,
    depth: int,
    s: int,
    e: int,
)
    requires
        levels == level_runs(cs, 0),
        levels_consecutive(cs),
        chained(levels, cs.len() as int),
        0 <= depth < levels.len(),
        levels[depth].0 <= s,
        e <= levels[depth].1,
    ensures
        stepped_forest(trees_in(cs, users, levels, depth, s, e), depth),
    decreases levels.len() - depth, e - s,
{
    if s < e {
        let f = trees_in(cs, users, levels, depth, s, e);
        let t = tree_at(cs, users, levels, depth, s);
        let rest = trees_in(cs, users, levels, depth, s + 1, e);
        assert(f == seq![t] + rest);
        assert(f[0] == t);
        assert(f.drop_first() =~= rest);
        lemma_trees_stepped(cs, users, levels, depth, s + 1, e);
        assert(t.level == depth) by {
            lemma_run_levels(cs, depth);
            assert(cs[s].level == depth);
        }
        assert(stepped(t)) by {
            if depth + 1 < levels.len() {
                let r = levels[depth + 1];
                lemma_find_children_bounds(cs, r.0, r.1, cs[s].id);
                match find_children(cs, r.0, r.1, cs[s].id) {
                    Some((a, b)) => {
                        lemma_trees_stepped(cs, users, levels, depth + 1, a, b);
                    },
                    None => {
                        assert(t.children =~= Seq::<CommentTree>::empty());
                    },
                }
            } else {
                assert(t.children =~= Seq::<CommentTree>::empty());
            }
        }
    }
}

/// For comments given level by level, the thread built from them is made
/// of the trees of the top-level comments.
proof fn lemma_thread_trees(cs: Seq<db::Comment>, users: Seq<(u128, u64)>)
    requires
        levels_consecutive(cs),
        cs.len() > 0,
    ensures
        build_forest(thread_nodes(cs, users)) == trees_in(cs, users, level_runs(cs, 0), 0, 0, level_runs(cs, 0)[0].1),
{
    let levels = level_runs(cs, 0);
    lemma_level_runs_chained(cs, 0);
    let e0 = levels[0].1;
    assert(thread_order(cs) == walk_range(cs, levels, 0, levels[0].0, e0));
    assert(thread_nodes(cs, users) == nodes_at(cs, users, walk_range(cs, levels, 0, 0, e0)));
    lemma_walk_range_pre(cs, users, levels, 0, 0, e0);
    lemma_trees_stepped(cs, users, levels, 0, 0, e0);
    lemma_build_forest_of_trees(trees_in(cs, users, levels, 0, 0, e0));
}

/// The IDs of the comments among `cs` that reply to `id`, in order.
pub open spec fn reply_ids(cs: Seq<db::Comment>, id: u128) -> Seq<u128>
    decreases cs.len(),
{
    if cs.len() == 0 {
        Seq::empty()
    } else {
        reply_ids(cs.drop_last(), id) + if cs.last().parent_id == Some(id) {
            seq![cs.last().id]
        } else {
            Seq::empty()
        }
    }
}

/// Each comment in `t` has as replies exactly the comments of `cs` that
/// reply to it, in their order in `cs`.
pub open spec fn replies_match(t: CommentTree, cs: Seq<db::Comment>) -> bool
    decreases t, 1nat,
{
    tree_ids(t.children) == reply_ids(cs, t.id) && replies_match_forest(t.children, cs)
}

pub open spec fn replies_match_forest(f: Seq<CommentTree>, cs: Seq<db::Comment>) -> bool
    decreases f, 0nat,
{
    f.len() == 0 || (replies_match(f[0], cs) && replies_match_forest(f.drop_first(), cs))
}

/// Stored comments as a post's thread is read from them: level by level
/// (see `levels_consecutive`), with distinct IDs, each reply one level below
/// the comment it replies to, and the replies to one comment listed
/// together.
pub open spec fn thread_input(cs: Seq<db::Comment>) -> bool {
    &&& levels_consecutive(cs)
    &&& distinct_ids(cs)
    &&& forall|i: int, k: int|
        0 <= i < cs.len() && 0 <= k < cs.len() && #[trigger] cs[k].parent_id == Some(#[trigger] cs[i].id) ==> cs[k].level
            == cs[i].level + 1
    &&& forall|a: int, b: int, c: int|
        0 <= a < b < c < cs.len() && #[trigger] cs[a].parent_id == #[trigger] cs[c].parent_id ==> #[trigger] cs[b].parent_id
            == cs[a].parent_id
}

spec fn ids_at(cs: Seq<db::Comment>, idx: Seq<int>) -> Seq<u128> {
    idx.map_values(|k: int| cs[k].id)
}

spec fn replies_in(cs: Seq<db::Comment>, idx: Seq<int>, id: u128) -> Seq<u128>
    decreases idx.len(),
{
    if idx.len() == 0 {
        Seq::empty()
    } else {
        replies_in(cs, idx.drop_last(), id) + if cs[idx.last()].parent_id == Some(id) {
            seq![cs[idx.last()].id]
        } else {
            Seq::empty()
        }
    }
}

proof fn lemma_replies_in_add(cs: Seq<db::Comment>, a: Seq<int>, b: Seq<int>, id: u128)
    ensures
        replies_in(cs, a + b, id) == replies_in(cs, a, id) + replies_in(cs, b, id),
    decreases b.len(),
{
    if b.len() == 0 {
        assert(a + b =~= a);
        assert(replies_in(cs, a, id) + replies_in(cs, b, id) =~= replies_in(cs, a, id));
    } else {
        assert((a + b).drop_last() =~= a + b.drop_last());
        assert((a + b).last() == b.last());
        lemma_replies_in_add(cs, a, b.drop_last(), id);
        assert(replies_in(cs, a + b, id) =~= replies_in(cs, a, id) + replies_in(cs, b, id));
    }
}

proof fn lemma_replies_in_span(cs: Seq<db::Comment>, s: int, e: int, id: u128)
    requires
        0 <= s <= e <= cs.len(),
    ensures
        (forall|k: int| s <= k < e ==> #[trigger] cs[k].parent_id != Some(id)) ==> replies_in(cs, span(s, e), id)
            == Seq::<u128>::empty(),
        (forall|k: int| s <= k < e ==> #[trigger] cs[k].parent_id == Some(id)) ==> replies_in(cs, span(s, e), id)
            == ids_at(cs, span(s, e)),
    decreases e - s,
{
    if s < e {
        lemma_replies_in_span(cs, s, e - 1, id);
        assert(span(s, e).drop_last() =~= span(s, e - 1));
        assert(span(s, e).last() == e - 1);
        assert(ids_at(cs, span(s, e)) =~= ids_at(cs, span(s, e - 1)).push(cs[e - 1].id));
        if forall|k: int| s <= k < e ==> #[trigger] cs[k].parent_id != Some(id) {
            assert(cs[e - 1].parent_id != Some(id));
            assert(replies_in(cs, span(s, e), id) =~= Seq::<u128>::empty());
        }
        if forall|k: int| s <= k < e ==> #[trigger] cs[k].parent_id == Some(id) {
            assert(cs[e - 1].parent_id == Some(id));
            assert(replies_in(cs, span(s, e), id) =~= ids_at(cs, span(s, e)));
        }
    } else {
        assert(span(s, e) =~= Seq::<int>::empty());
        assert(ids_at(cs, span(s, e)) =~= Seq::<u128>::empty());
    }
}

proof fn lemma_reply_ids(cs: Seq<db::Comment>, id: u128, n: int)
    requires
        0 <= n <= cs.len(),
    ensures
        reply_ids(cs.take(n), id) == replies_in(cs, span(0, n), id),
    decreases n,
{
    if n == 0 {
        assert(cs.take(0) =~= Seq::<db::Comment>::empty());
        assert(span(0, 0) =~= Seq::<int>::empty());
    } else {
        lemma_reply_ids(cs, id, n - 1);
        assert(cs.take(n).drop_last() =~= cs.take(n - 1));
        assert(cs.take(n).last() == cs[n - 1]);
        assert(span(0, n).drop_last() =~= span(0, n - 1));
        assert(span(0, n).last() == n - 1);
    }
}

proof fn lemma_trees_ids(cs: Seq<db::Comment>, users: Seq<(u128, u64)>, levels: Seq<(int, int)>, depth: int, s: int, e: int)
    requires
        0 <= depth < levels.len(),
        s <= e,
    ensures
        tree_ids(trees_in(cs, users, levels, depth, s, e)) == ids_at(cs, span(s, e)),
    decreases e - s,
{
    if s < e {
        lemma_trees_ids(cs, users, levels, depth, s + 1, e);
        let t = tree_at(cs, users, levels, depth, s);
        let rest = trees_in(cs, users, levels, depth, s + 1, e);
        assert(trees_in(cs, users, levels, depth, s, e) == seq![t] + rest);
        assert(t.id == cs[s].id);
        assert(tree_ids(seq![t] + rest) =~= seq![t.id] + tree_ids(rest));
        assert(span(s, e) =~= seq![s] + span(s + 1, e));
        assert(ids_at(cs, seq![s] + span(s + 1, e)) =~= seq![cs[s].id] + ids_at(cs, span(s + 1, e)));
    } else {
        assert(span(s, e) =~= Seq::<int>::empty());
        assert(tree_ids(trees_in(cs, users, levels, depth, s, e)) =~= Seq::<u128>::empty());
    }
}

/// Where a run of equal parents ends, the parent changes.
proof fn lemma_parent_end_change(cs: Seq<db::Comment>, s: int, e: int)
    requires
        s < e,
    ensures
        parent_end(cs, s, e) < e ==> cs[parent_end(cs, s, e)].parent_id != cs[parent_end(cs, s, e) - 1].parent_id,
    decreases e - s,
{
    if !(s + 1 >= e || cs[s + 1].parent_id != cs[s].parent_id) {
        lemma_parent_end_change(cs, s + 1, e);
    }
}

/// What `find_children` finds within `[s, e)`: before it, no reply to
/// `id`; within it, only replies to `id`; right after it, no reply to `id`.
proof fn lemma_find_children_exact(cs: Seq<db::Comment>, s: int, e: int, id: u128)
    ensures
        match find_children(cs, s, e, id) {
            Some((a, b)) => {
                &&& s <= a < b <= e
                &&& forall|k: int| s <= k < a ==> #[trigger] cs[k].parent_id != Some(id)
                &&& forall|k: int| a <= k < b ==> #[trigger] cs[k].parent_id == Some(id)
                &&& b < e ==> cs[b].parent_id != Some(id)
            },
            None => forall|k: int| s <= k < e ==> #[trigger] cs[k].parent_id != Some(id),
        },
    decreases e - s,
{
    lemma_find_children_bounds(cs, s, e, id);
    if s < e {
        lemma_parent_end(cs, s, e);
        lemma_parent_run(cs, s, e);
        lemma_parent_end_change(cs, s, e);
        if cs[s].parent_id != Some(id) {
            lemma_find_children_exact(cs, parent_end(cs, s, e), e, id);
        }
    }
}

/// Every comment lies in some run.
proof fn lemma_in_some_run(cs: Seq<db::Comment>, levels: Seq<(int, int)>, r: int, k: int)
    requires
        levels == level_runs(cs, 0),
        chained(levels, cs.len() as int),
        levels.len() > 0,
        levels[0].0 == 0,
        0 <= r < levels.len(),
        0 <= k < levels[r].1,
    ensures
        exists|q: int| 0 <= q <= r && levels[q].0 <= k < #[trigger] levels[q].1,
    decreases r,
{
    if k < levels[r].0 {
        assert(levels[r - 1].1 == levels[r].0);
        lemma_in_some_run(cs, levels, r - 1, k);
        let q = choose|q: int| 0 <= q <= r - 1 && levels[q].0 <= k < #[trigger] levels[q].1;
        assert(levels[q].0 <= k < levels[q].1);
    } else {
        assert(levels[r].0 <= k < levels[r].1);
    }
}

/// A reply to the comment at index `i`, in run `depth`, lies in the next
/// run.
proof fn lemma_reply_in_next_run(cs: Seq<db::Comment>, levels: Seq<(int, int)>, depth: int, i: int, k: int)
    requires
        levels == level_runs(cs, 0),
        thread_input(cs),
        chained(levels, cs.len() as int),
        levels.len() > 0,
        levels[0].0 == 0,
        levels.last().1 == cs.len(),
        0 <= depth < levels.len(),
        levels[depth].0 <= i < levels[depth].1,
        0 <= k < cs.len(),
        cs[k].parent_id == Some(cs[i].id),
    ensures
        depth + 1 < levels.len(),
        levels[depth + 1].0 <= k < levels[depth + 1].1,
{
    lemma_run_levels(cs, depth);
    assert(cs[i].level == depth);
    assert(cs[k].level == cs[i].level + 1);
    lemma_in_some_run(cs, levels, levels.len() - 1, k);
    let q = choose|q: int| 0 <= q <= levels.len() - 1 && levels[q].0 <= k < #[trigger] levels[q].1;
    lemma_run_levels(cs, q);
    assert(cs[k].level == q);
}

/// When the replies to `id` are exactly the comments at `[a, b)`, they are
/// what `reply_ids` lists.
proof fn lemma_replies_exactly(cs: Seq<db::Comment>, id: u128, a: int, b: int)
    requires
        0 <= a <= b <= cs.len(),
        forall|k: int| 0 <= k < cs.len() ==> (#[trigger] cs[k].parent_id == Some(id) <==> a <= k < b),
    ensures
        reply_ids(cs, id) == ids_at(cs, span(a, b)),
{
    let n = cs.len() as int;
    lemma_reply_ids(cs, id, n);
    assert(cs.take(n) =~= cs);
    lemma_replies_in_span(cs, 0, a, id);
    lemma_replies_in_span(cs, a, b, id);
    lemma_replies_in_span(cs, b, n, id);
    assert(span(0, n) =~= span(0, a) + span(a, b) + span(b, n));
    lemma_replies_in_add(cs, span(0, a) + span(a, b), span(b, n), id);
    lemma_replies_in_add(cs, span(0, a), span(a, b), id);
    assert(replies_in(cs, span(0, n), id) =~= ids_at(cs, span(a, b)));
}

/// Replies to one comment listed together: past the end of a run of
/// replies to `id` that stops early, no reply to `id` follows.
proof fn lemma_replies_together(cs: Seq<db::Comment>, id: u128, a: int, b: int, k: int)
    requires
        thread_input(cs),
        0 <= a < b < k < cs.len(),
        cs[a].parent_id == Some(id),
        cs[b].parent_id != Some(id),
    ensures
        cs[k].parent_id != Some(id),
{
    if cs[k].parent_id == Some(id) {
        assert(cs[a].parent_id == cs[k].parent_id);
        assert(cs[b].parent_id == cs[a].parent_id);
    }
}

/// The replies of the comment at index `i`, in run `depth`, that its tree
/// lists are exactly the comments that reply to it.
proof fn lemma_tree_replies(cs: Seq<db::Comment>, users: Seq<(u128, u64)>, levels: Seq<(int, int)>, depth: int, i: int)
    requires
        levels == level_runs(cs, 0),
        thread_input(cs),
        chained(levels, cs.len() as int),
        levels.len() > 0,
        levels[0].0 == 0,
        levels.last().1 == cs.len(),
        0 <= depth < levels.len(),
        levels[depth].0 <= i < levels[depth].1,
    ensures
        tree_ids(tree_at(cs, users, levels, depth, i).children) == reply_ids(cs, cs[i].id),
{
    let id = cs[i].id;
    let n = cs.len() as int;
    let t = tree_at(cs, users, levels, depth, i);
    if depth + 1 < levels.len() {
        let r = levels[depth + 1];
        lemma_find_children_exact(cs, r.0, r.1, id);
        match find_children(cs, r.0, r.1, id) {
            Some((a, b)) => {
                lemma_trees_ids(cs, users, levels, depth + 1, a, b);
                assert(t.children == trees_in(cs, users, levels, depth + 1, a, b));
                assert forall|k: int| 0 <= k < n implies (#[trigger] cs[k].parent_id == Some(id) <==> a <= k < b) by {
                    if cs[k].parent_id == Some(id) {
                        lemma_reply_in_next_run(cs, levels, depth, i, k);
                        if k > b {
                            lemma_replies_together(cs, id, a, b, k);
                        }
                    }
                }
                lemma_replies_exactly(cs, id, a, b);
            },
            None => {
                assert(t.children =~= Seq::<CommentTree>::empty());
                assert forall|k: int| 0 <= k < n implies (#[trigger] cs[k].parent_id == Some(id) <==> 0 <= k < 0) by {
                    if cs[k].parent_id == Some(id) {
                        lemma_reply_in_next_run(cs, levels, depth, i, k);
                    }
                }
                lemma_replies_exactly(cs, id, 0, 0);
                assert(span(0, 0) =~= Seq::<int>::empty());
                assert(tree_ids(t.children) =~= ids_at(cs, span(0, 0)));
            },
        }
    } else {
        assert(t.children =~= Seq::<CommentTree>::empty());
        assert forall|k: int| 0 <= k < n implies (#[trigger] cs[k].parent_id == Some(id) <==> 0 <= k < 0) by {
            if cs[k].parent_id == Some(id) {
                lemma_reply_in_next_run(cs, levels, depth, i, k);
            }
        }
        lemma_replies_exactly(cs, id, 0, 0);
        assert(span(0, 0) =~= Seq::<int>::empty());
        assert(tree_ids(t.children) =~= ids_at(cs, span(0, 0)));
    }
}

proof fn lemma_trees_match(cs: Seq<db::Comment>, users: Seq<(u128, u64)>, levels: Seq<(int, int)>, depth: int, s: int, e: int)
    requires
        levels == level_runs(cs, 0),
        thread_input(cs),
        chained(levels, cs.len() as int),
        levels.len() > 0,
        levels[0].0 == 0,
        levels.last().1 == cs.len(),
        0 <= depth < levels.len(),
        levels[depth].0 <= s,
        e <= levels[depth].1,
    ensures
        replies_match_forest(trees_in(cs, users, levels, depth, s, e), cs),
    decreases levels.len() - depth, e - s,
{
    if s < e {
        let f = trees_in(cs, users, levels, depth, s, e);
        let t = tree_at(cs, users, levels, depth, s);
        let rest = trees_in(cs, users, levels, depth, s + 1, e);
        assert(f == seq![t] + rest);
        assert(f[0] == t);
        assert(f.drop_first() =~= rest);
        lemma_trees_match(cs, users, levels, depth, s + 1, e);
        lemma_tree_replies(cs, users, levels, depth, s);
        assert(t.id == cs[s].id);
        if depth + 1 < levels.len() {
            let r = levels[depth + 1];
            lemma_find_children_bounds(cs, r.0, r.1, cs[s].id);
            match find_children(cs, r.0, r.1, cs[s].id) {
                Some((a, b)) => {
                    lemma_trees_match(cs, users, levels, depth + 1, a, b);
                },
                None => {
                    assert(t.children =~= Seq::<CommentTree>::empty());
                },
            }
        } else {
            assert(t.children =~= Seq::<CommentTree>::empty());
        }
        assert(replies_match(t, cs));
    } else {
        assert(trees_in(cs, users, levels, depth, s, e) =~= Seq::<CommentTree>::empty());
    }
}

proof fn lemma_consecutive_ascending(cs: Seq<db::Comment>)
    requires
        levels_consecutive(cs),
    ensures
        levels_ascending(cs),
{
    assert forall|i: int, j: int| 0 <= i <= j < cs.len() implies #[trigger] cs[i].level <= #[trigger] cs[j].level by {
        lemma_ascending_from(cs, i, j);
    }
}

proof fn lemma_ascending_from(cs: Seq<db::Comment>, i: int, j: int)
    requires
        levels_consecutive(cs),
        0 <= i <= j < cs.len(),
    ensures
        cs[i].level <= cs[j].level,
    decreases j - i,
{
    if i < j {
        lemma_ascending_from(cs, i, j - 1);
        assert(cs[j].level == cs[j - 1].level || cs[j].level == cs[j - 1].level + 1);
    }
}

/// The thread built from stored comments is the tree they describe: its
/// top-level comments are the top-level comments, in their order, and each
/// comment has as replies exactly the comments that reply to it, in their
/// order.
pub proof fn law_thread_shape(cs: Seq<db::Comment>, users: Seq<(u128, u64)>)
    requires
        thread_input(cs),
    ensures
        tree_ids(build_forest(thread_nodes(cs, users))) == top_level_ids(cs),
        replies_match_forest(build_forest(thread_nodes(cs, users)), cs),
{
    lemma_consecutive_ascending(cs);
    law_thread_roots(cs, users);
    if cs.len() == 0 {
        assert(thread_order(cs) =~= Seq::<int>::empty());
        assert(thread_nodes(cs, users) =~= Seq::<CommentTree>::empty());
        assert(build_forest(thread_nodes(cs, users)) == Seq::<CommentTree>::empty());
    } else {
        let levels = level_runs(cs, 0);
        lemma_level_runs_chained(cs, 0);
        lemma_thread_trees(cs, users);
        lemma_trees_match(cs, users, levels, 0, 0, levels[0].1);
    }
}

} // verus!

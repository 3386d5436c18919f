use vstd::prelude::*;

use super::comment::{
    can_place, forest_of, lemma_forest_of, lemma_forest_of_push, lemma_forest_of_update, place,
    place_path, tree_of, Comment, CommentTree,
};
use crate::db;

verus! {

/// Where the run of comments of equal level that starts at `s` ends.
pub open spec fn level_end(cs: Seq<db::Comment>, s: int) -> int
    decreases cs.len() - s,
{
    if s + 1 >= cs.len() || cs[s + 1].level != cs[s].level {
        s + 1
    } else {
        level_end(cs, s + 1)
    }
}

pub proof fn lemma_level_end(cs: Seq<db::Comment>, s: int)
    requires
        0 <= s < cs.len(),
    ensures
        s < level_end(cs, s) <= cs.len(),
        forall|k: int| s <= k < level_end(cs, s) ==> #[trigger] cs[k].level == cs[s].level,
    decreases cs.len() - s,
{
    if !(s + 1 >= cs.len() || cs[s + 1].level != cs[s].level) {
        lemma_level_end(cs, s + 1);
    }
}

pub proof fn lemma_parent_end(cs: Seq<db::Comment>, s: int, e: int)
    requires
        s < e,
    ensures
        s < parent_end(cs, s, e) <= e,
    decreases e - s,
{
    if !(s + 1 >= e || cs[s + 1].parent_id != cs[s].parent_id) {
        lemma_parent_end(cs, s + 1, e);
    }
}

/// The runs of comments of equal level from `s` on, as index ranges.
pub open spec fn level_runs(cs: Seq<db::Comment>, s: int) -> Seq<(int, int)>
    decreases cs.len() - s,
{
    if s < 0 || s >= cs.len() {
        Seq::empty()
    } else {
        proof {
            lemma_level_end(cs, s);
        }
        seq![(s, level_end(cs, s))] + level_runs(cs, level_end(cs, s))
    }
}

/// Where the run of comments with the same parent that starts at `s` ends,
/// within `[s, e)`.
pub open spec fn parent_end(cs: Seq<db::Comment>, s: int, e: int) -> int
    decreases e - s,
{
    if s + 1 >= e || cs[s + 1].parent_id != cs[s].parent_id {
        s + 1
    } else {
        parent_end(cs, s + 1, e)
    }
}

/// Within `[s, e)`, the first run of comments with the same parent whose
/// parent is `id`.
pub open spec fn find_children(cs: Seq<db::Comment>, s: int, e: int, id: u128) -> Option<(int, int)>
    decreases e - s,
{
    if s >= e {
        None
    } else if cs[s].parent_id == Some(id) {
        Some((s, parent_end(cs, s, e)))
    } else {
        proof {
            lemma_parent_end(cs, s, e);
        }
        find_children(cs, parent_end(cs, s, e), e, id)
    }
}

/// The thread under the comment at index `i`, at `depth`, in order: the
/// comment, then, for each of its replies in turn, that reply's thread.
/// The replies of a comment are the first run, in the run of levels one
/// deeper, of comments whose parent it is.
pub open spec fn walk_node(cs: Seq<db::Comment>, levels: Seq<(int, int)>, depth: int, i: int) -> Seq<int>
    decreases levels.len() - depth, 0int,
{
    seq![i] + if 0 <= depth && depth + 1 < levels.len() {
        match find_children(cs, levels[depth + 1].0, levels[depth + 1].1, cs[i].id) {
            Some((s, e)) => walk_range(cs, levels, depth + 1, s, e),
            None => Seq::empty(),
        }
    } else {
        Seq::empty()
    }
}

/// The threads under the comments at indices `[s, e)`, at `depth`.
pub open spec fn walk_range(cs: Seq<db::Comment>, levels: Seq<(int, int)>, depth: int, s: int, e: int) -> Seq<int>
    decreases levels.len() - depth, e - s,
{
    if s >= e || depth >= levels.len() {
        Seq::empty()
    } else {
        walk_node(cs, levels, depth, s) + walk_range(cs, levels, depth, s + 1, e)
    }
}

/// The order in which a thread lists the comments `cs`, given level by
/// level: the first run of levels holds the top-level comments, and each
/// comment is followed by the threads of its replies.
pub open spec fn thread_order(cs: Seq<db::Comment>) -> Seq<int> {
    let levels = level_runs(cs, 0);
    if levels.len() == 0 {
        Seq::empty()
    } else {
        walk_range(cs, levels, 0, levels[0].0, levels[0].1)
    }
}

pub proof fn lemma_find_children_bounds(cs: Seq<db::Comment>, s: int, e: int, id: u128)
    ensures
        find_children(cs, s, e, id) matches Some((a, b)) ==> s <= a < b <= e,
    decreases e - s,
{
    if s < e {
        lemma_parent_end(cs, s, e);
        if cs[s].parent_id != Some(id) {
            lemma_find_children_bounds(cs, parent_end(cs, s, e), e, id);
        }
    }
}

pub open spec fn runs_within(levels: Seq<(int, int)>, n: int) -> bool {
    forall|k: int| 0 <= k < levels.len() ==> 0 <= #[trigger] levels[k].0 && levels[k].1 <= n
}

pub proof fn lemma_walk_node_bounds(cs: Seq<db::Comment>, levels: Seq<(int, int)>, depth: int, i: int)
    requires
        runs_within(levels, cs.len() as int),
        0 <= i < cs.len(),
    ensures
        forall|k: int| 0 <= k < walk_node(cs, levels, depth, i).len() ==> 0 <= #[trigger] walk_node(cs, levels, depth, i)[k] < cs.len(),
    decreases levels.len() - depth, 0int,
{
    let w = walk_node(cs, levels, depth, i);
    let rest = w.drop_first();
    assert(w[0] == i);
    if 0 <= depth && depth + 1 < levels.len() {
        lemma_find_children_bounds(cs, levels[depth + 1].0, levels[depth + 1].1, cs[i].id);
        if let Some((s, e)) = find_children(cs, levels[depth + 1].0, levels[depth + 1].1, cs[i].id) {
            lemma_walk_range_bounds(cs, levels, depth + 1, s, e);
            assert(rest =~= walk_range(cs, levels, depth + 1, s, e));
        } else {
            assert(rest =~= Seq::<int>::empty());
        }
    } else {
        assert(rest =~= Seq::<int>::empty());
    }
    assert forall|k: int| 0 <= k < w.len() implies 0 <= #[trigger] w[k] < cs.len() by {
        if k > 0 {
            assert(w[k] == rest[k - 1]);
        }
    }
}

pub proof fn lemma_walk_range_bounds(cs: Seq<db::Comment>, levels: Seq<(int, int)>, depth: int, s: int, e: int)
    requires
        runs_within(levels, cs.len() as int),
        0 <= s,
        e <= cs.len(),
    ensures
        forall|k: int| 0 <= k < walk_range(cs, levels, depth, s, e).len() ==> 0 <= #[trigger] walk_range(cs, levels, depth, s, e)[k] < cs.len(),
    decreases levels.len() - depth, e - s,
{
    if !(s >= e || depth >= levels.len()) {
        lemma_walk_node_bounds(cs, levels, depth, s);
        lemma_walk_range_bounds(cs, levels, depth, s + 1, e);
        let a = walk_node(cs, levels, depth, s);
        let b = walk_range(cs, levels, depth, s + 1, e);
        let w = walk_range(cs, levels, depth, s, e);
        assert(w == a + b);
        assert forall|k: int| 0 <= k < w.len() implies 0 <= #[trigger] w[k] < cs.len() by {
            if k < a.len() {
                assert(w[k] == a[k]);
            } else {
                assert(w[k] == b[k - a.len()]);
            }
        }
    }
}

pub open spec fn runs_view(v: Seq<(usize, usize)>) -> Seq<(int, int)> {
    v.map_values(|p: (usize, usize)| (p.0 as int, p.1 as int))
}

pub open spec fn indices_view(v: Seq<usize>) -> Seq<int> {
    v.map_values(|i: usize| i as int)
}

/// The runs of comments of equal level, as index ranges.
pub fn level_runs_of(cs: &Vec<db::Comment>) -> (runs: Vec<(usize, usize)>)
    ensures
        runs_view(runs@) == level_runs(cs@, 0),
        forall|k: int| 0 <= k < runs@.len() ==> #[trigger] runs@[k].0 < runs@[k].1 <= cs@.len(),
{
    let mut runs: Vec<(usize, usize)> = Vec::new();
    let mut s: usize = 0;
    proof {
        assert(runs_view(runs@) + level_runs(cs@, 0) =~= level_runs(cs@, 0));
    }
    while s < cs.len()
        invariant
            0 <= s <= cs@.len(),
            runs_view(runs@) + level_runs(cs@, s as int) == level_runs(cs@, 0),
            forall|k: int| 0 <= k < runs@.len() ==> #[trigger] runs@[k].0 < runs@[k].1 <= cs@.len(),
        decreases cs@.len() - s,
    {
        let mut e: usize = s + 1;
        while e < cs.len() && cs[e].level == cs[e - 1].level
            invariant
                s < e <= cs@.len(),
                level_end(cs@, s as int) == level_end(cs@, e - 1),
            decreases cs@.len() - e,
        {
            e = e + 1;
        }
        proof {
            lemma_level_end(cs@, s as int);
            assert(level_end(cs@, (e - 1) as int) == e);
            assert(runs_view(runs@.push((s, e))) =~= runs_view(runs@).push((s as int, e as int)));
            assert(level_runs(cs@, s as int) == seq![(s as int, e as int)] + level_runs(cs@, e as int));
            assert(runs_view(runs@.push((s, e))) + level_runs(cs@, e as int) =~= runs_view(runs@)
                + level_runs(cs@, s as int));
        }
        runs.push((s, e));
        s = e;
    }
    proof {
        assert(level_runs(cs@, s as int) =~= Seq::<(int, int)>::empty());
        assert(runs_view(runs@) =~= runs_view(runs@) + level_runs(cs@, s as int));
    }
    runs
}

/// Within `[s, e)`, the first run of comments with the same parent whose
/// parent is `id`.
pub fn find_children_of(cs: &Vec<db::Comment>, s: usize, e: usize, id: u128) -> (run: Option<(usize, usize)>)
    requires
        s <= e <= cs@.len(),
    ensures
        match run {
            Some((a, b)) => find_children(cs@, s as int, e as int, id) == Some((a as int, b as int)) && s <= a < b
                <= e,
            None => find_children(cs@, s as int, e as int, id) is None,
        },
{
    let mut start = s;
    while start < e
        invariant
            s <= start <= e <= cs@.len(),
            find_children(cs@, s as int, e as int, id) == find_children(cs@, start as int, e as int, id),
        decreases e - start,
    {
        let mut end = start + 1;
        while end < e && cs[end].parent_id == cs[end - 1].parent_id
            invariant
                start < end <= e,
                e <= cs@.len(),
                parent_end(cs@, start as int, e as int) == parent_end(cs@, end - 1, e as int),
            decreases e - end,
        {
            end = end + 1;
        }
        proof {
            assert(parent_end(cs@, (end - 1) as int, e as int) == end);
        }
        if cs[start].parent_id == Some(id) {
            return Some((start, end));
        }
        start = end;
    }
    None
}

/// Appends the thread under the comment at index `i` (see `walk_node`).
fn walk_node_exec(cs: &Vec<db::Comment>, levels: &Vec<(usize, usize)>, depth: usize, i: usize, out: &mut Vec<usize>)
    requires
        0 <= i < cs@.len(),
        depth < levels@.len(),
        forall|k: int| 0 <= k < levels@.len() ==> #[trigger] levels@[k].0 < levels@[k].1 <= cs@.len(),
    ensures
        indices_view(final(out)@) == indices_view(old(out)@) + walk_node(cs@, runs_view(levels@), depth as int, i as int),
    decreases levels@.len() - depth, 0int,
{
    let ghost lv = runs_view(levels@);
    out.push(i);
    proof {
        assert(indices_view(out@) =~= indices_view(old(out)@) + seq![i as int]);
    }
    if depth < levels.len() - 1 {
        let (s, e) = levels[depth + 1];
        proof {
            assert(lv[depth + 1] == (s as int, e as int));
        }
        match find_children_of(cs, s, e, cs[i].id) {
            Some((a, b)) => {
                let ghost mid = out@;
                walk_range_exec(cs, levels, depth + 1, a, b, out);
                proof {
                    assert(indices_view(out@) =~= indices_view(old(out)@) + walk_node(cs@, lv, depth as int, i as int));
                }
            },
            None => {
                proof {
                    assert(indices_view(out@) =~= indices_view(old(out)@) + walk_node(cs@, lv, depth as int, i as int));
                }
            },
        }
    } else {
        proof {
            assert(indices_view(out@) =~= indices_view(old(out)@) + walk_node(cs@, lv, depth as int, i as int));
        }
    }
}

/// Appends the threads under the comments at indices `[s, e)` (see
/// `walk_range`).
fn walk_range_exec(cs: &Vec<db::Comment>, levels: &Vec<(usize, usize)>, depth: usize, s: usize, e: usize, out: &mut Vec<usize>)
    requires
        s <= e <= cs@.len(),
        depth < levels@.len(),
        forall|k: int| 0 <= k < levels@.len() ==> #[trigger] levels@[k].0 < levels@[k].1 <= cs@.len(),
    ensures
        indices_view(final(out)@) == indices_view(old(out)@) + walk_range(cs@, runs_view(levels@), depth as int, s as int, e as int),
    decreases levels@.len() - depth, e - s,
{
    let ghost lv = runs_view(levels@);
    if s < e {
        walk_node_exec(cs, levels, depth, s, out);
        walk_range_exec(cs, levels, depth, s + 1, e, out);
        proof {
            assert(indices_view(out@) =~= indices_view(old(out)@) + walk_range(cs@, lv, depth as int, s as int, e as int));
        }
    } else {
        proof {
            assert(indices_view(out@) =~= indices_view(old(out)@) + walk_range(cs@, lv, depth as int, s as int, e as int));
        }
    }
}

/// The indices of `comments` in the order their thread lists them (see
/// `thread_order`).
pub fn thread_indices(comments: &Vec<db::Comment>) -> (order: Vec<usize>)
    ensures
        indices_view(order@) == thread_order(comments@),
        forall|k: int| 0 <= k < order@.len() ==> #[trigger] order@[k] < comments@.len(),
{
    let levels = level_runs_of(comments);
    let mut order: Vec<usize> = Vec::new();
    if levels.len() > 0 {
        let (s, e) = levels[0];
        proof {
            assert(runs_view(levels@)[0] == (s as int, e as int));
        }
        walk_range_exec(comments, &levels, 0, s, e, &mut order);
        proof {
            assert(indices_view(Seq::<usize>::empty()) =~= Seq::<int>::empty());
            assert(indices_view(order@) =~= thread_order(comments@));
        }
    } else {
        proof {
            assert(indices_view(order@) =~= thread_order(comments@));
        }
    }
    proof {
        if levels@.len() > 0 {
            assert(runs_within(runs_view(levels@), comments@.len() as int));
            lemma_walk_range_bounds(comments@, runs_view(levels@), 0, runs_view(levels@)[0].0, runs_view(levels@)[0].1);
        }
        assert forall|k: int| 0 <= k < order@.len() implies #[trigger] order@[k] < comments@.len() by {
            assert(indices_view(order@)[k] == order@[k] as int);
        }
    }
    order
}

/// Lists `comments`, given level by level, in thread order: each comment
/// is followed by the threads of its replies (see `thread_order`).
pub fn build_tree(comments: Vec<db::Comment>) -> (results: Vec<db::Comment>)
    ensures
        results@.len() == thread_order(comments@).len(),
        forall|k: int| 0 <= k < results@.len() ==> #[trigger] results@[k] == comments@[thread_order(comments@)[k]],
{
    let order = thread_indices(&comments);
    let mut results: Vec<db::Comment> = Vec::new();
    let mut k: usize = 0;
    while k < order.len()
        invariant
            0 <= k <= order@.len(),
            indices_view(order@) == thread_order(comments@),
            forall|j: int| 0 <= j < order@.len() ==> #[trigger] order@[j] < comments@.len(),
            results@.len() == k,
            forall|j: int| 0 <= j < k ==> #[trigger] results@[j] == comments@[thread_order(comments@)[j]],
        decreases order@.len() - k,
    {
        results.push(comments[order[k]].clone());
        proof {
            assert(indices_view(order@)[k as int] == order@[k as int] as int);
        }
        k += 1;
    }
    results
}

/// The handle loaded for the user `user_id`, if any: that of the first
/// pair in `users` with that ID.
pub open spec fn user_lookup(users: Seq<(u128, u64)>, user_id: Option<u128>) -> Option<u64> {
    match user_id {
        Some(u) => first_handle(users, u),
        None => None,
    }
}

/// The handle of the first pair in `users` with ID `u`.
pub open spec fn first_handle(users: Seq<(u128, u64)>, u: u128) -> Option<u64>
    decreases users.len(),
{
    if users.len() == 0 {
        None
    } else if users[0].0 == u {
        Some(users[0].1)
    } else {
        first_handle(users.drop_first(), u)
    }
}

/// The handle loaded for `user_id`, if any (see `user_lookup`).
pub fn find_user(users: &Vec<(u128, u64)>, user_id: Option<u128>) -> (handle: Option<u64>)
    ensures
        handle == user_lookup(users@, user_id),
{
    match user_id {
        Some(u) => {
            let mut k: usize = 0;
            proof {
                assert(users@.skip(0) =~= users@);
            }
            while k < users.len()
                invariant
                    0 <= k <= users@.len(),
                    user_id == Some(u),
                    first_handle(users@, u) == first_handle(users@.skip(k as int), u),
                decreases users@.len() - k,
            {
                proof {
                    let rest = users@.skip(k as int);
                    assert(rest.len() > 0);
                    assert(rest[0] == users@[k as int]);
                    assert(rest.drop_first() =~= users@.skip(k + 1));

                }
                if users[k].0 == u {
                    proof {
                        let rest = users@.skip(k as int);
                        assert(first_handle(rest, u) == Some(rest[0].1));
                        assert(user_id == Some(u));
                        assert(user_lookup(users@, user_id) == first_handle(users@, u));
                    }
                    return Some(users[k].1);
                }
                k += 1;
            }
            proof {
                assert(users@.skip(k as int).len() == 0);
            }
            None
        },
        None => None,
    }
}

/// The comment a stored comment becomes in a thread, with no replies yet.
pub open spec fn node_of(c: db::Comment, users: Seq<(u128, u64)>) -> CommentTree {
    CommentTree {
        id: c.id,
        user: user_lookup(users, c.user_id),
        level: c.level as u8,
        content: c.content@,
        created: c.created,
        children: Seq::empty(),
    }
}

/// The thread built from comments given in thread order: a top-level
/// comment starts a new tree; any other is placed into the last tree (see
/// `place`).
pub open spec fn build_forest(nodes: Seq<CommentTree>) -> Seq<CommentTree>
    decreases nodes.len(),
{
    if nodes.len() == 0 {
        Seq::empty()
    } else {
        let f = build_forest(nodes.drop_last());
        let c = nodes.last();
        if c.level == 0 {
            f.push(c)
        } else if f.len() > 0 {
            f.update(f.len() - 1, place(f.last(), c))
        } else {
            f
        }
    }
}

/// Each comment given in thread order can be placed: it is top-level, or
/// the last tree built so far has room for it.
pub open spec fn buildable(nodes: Seq<CommentTree>) -> bool
    decreases nodes.len(),
{
    nodes.len() == 0 || {
        &&& buildable(nodes.drop_last())
        &&& (nodes.last().level == 0 || {
            let f = build_forest(nodes.drop_last());
            f.len() > 0 && can_place(f.last(), nodes.last().level)
        })
    }
}

/// The path at which each comment lands.
pub open spec fn build_path(nodes: Seq<CommentTree>, k: int) -> Seq<usize> {
    let f = build_forest(nodes.take(k));
    let c = nodes[k];
    if c.level == 0 {
        seq![f.len() as usize]
    } else {
        seq![(f.len() - 1) as usize] + place_path(f.last(), c.level)
    }
}

/// The comments of a thread given in thread order, as nodes.
pub open spec fn thread_nodes(comments: Seq<db::Comment>, users: Seq<(u128, u64)>) -> Seq<CommentTree> {
    thread_order(comments).map_values(|i: int| node_of(comments[i], users))
}

/// Builds the thread of a post from its stored comments, given level by
/// level, and the handles loaded for their authors. Returns the thread and,
/// for each comment, the path at which it landed; or nothing, when some
/// comment is deeper than a level fits or cannot be placed.
#[verifier::rlimit(40)]
pub fn build_comments(comments: &Vec<db::Comment>, users: &Vec<(u128, u64)>) -> (result: Option<(Vec<Comment>, Vec<(u128, Vec<usize>)>)>)
    ensures
        result is Some <==> (forall|k: int| 0 <= k < comments@.len() ==> #[trigger] comments@[k].level <= 255)
            && buildable(thread_nodes(comments@, users@)),
        result matches Some((forest, paths)) ==> {
            &&& forest_of(forest@) == build_forest(thread_nodes(comments@, users@))
            &&& paths@.len() == thread_nodes(comments@, users@).len()
            &&& forall|k: int|
                0 <= k < paths@.len() ==> (#[trigger] paths@[k]).0 == thread_nodes(comments@, users@)[k].id
                    && paths@[k].1@ == build_path(thread_nodes(comments@, users@), k)
        },
{
    let mut j: usize = 0;
    while j < comments.len()
        invariant
            0 <= j <= comments@.len(),
            forall|k: int| 0 <= k < j ==> #[trigger] comments@[k].level <= 255,
        decreases comments@.len() - j,
    {
        if comments[j].level > 255 {
            return None;
        }
        j += 1;
    }
    build_checked(comments, users)
}

#[verifier::rlimit(40)]
fn build_checked(comments: &Vec<db::Comment>, users: &Vec<(u128, u64)>) -> (result: Option<(Vec<Comment>, Vec<(u128, Vec<usize>)>)>)
    requires
        forall|k: int| 0 <= k < comments@.len() ==> #[trigger] comments@[k].level <= 255,
    ensures
        result is Some <==> buildable(thread_nodes(comments@, users@)),
        result matches Some((forest, paths)) ==> {
            &&& forest_of(forest@) == build_forest(thread_nodes(comments@, users@))
            &&& paths@.len() == thread_nodes(comments@, users@).len()
            &&& forall|k: int|
                0 <= k < paths@.len() ==> (#[trigger] paths@[k]).0 == thread_nodes(comments@, users@)[k].id
                    && paths@[k].1@ == build_path(thread_nodes(comments@, users@), k)
        },
{
    let order = thread_indices(comments);
    let ghost nodes = thread_nodes(comments@, users@);
    let mut result: Vec<Comment> = Vec::new();
    let mut paths: Vec<(u128, Vec<usize>)> = Vec::new();
    let mut k: usize = 0;
    proof {
        assert(nodes.len() == order@.len());
        assert(nodes.take(0) =~= Seq::<CommentTree>::empty());
    }
    while k < order.len()
        invariant
            0 <= k <= order@.len(),
            nodes == thread_nodes(comments@, users@),
            nodes.len() == order@.len(),
            indices_view(order@) == thread_order(comments@),
            forall|j: int| 0 <= j < order@.len() ==> #[trigger] order@[j] < comments@.len(),
            forall|j: int| 0 <= j < comments@.len() ==> #[trigger] comments@[j].level <= 255,
            buildable(nodes.take(k as int)),
            forest_of(result@) == build_forest(nodes.take(k as int)),
            paths@.len() == k,
            forall|j: int|
                0 <= j < k ==> (#[trigger] paths@[j]).0 == nodes[j].id && paths@[j].1@ == build_path(nodes, j),
        decreases order@.len() - k,
    {
        let index = order[k];
        proof {
            assert(indices_view(order@)[k as int] == index as int);
            assert(nodes[k as int] == node_of(comments@[index as int], users@));
            lemma_build_step_def(nodes, k as int);
            lemma_forest_of(result@);
        }
        let stored = &comments[index];
        let user = find_user(users, stored.user_id);
        let comment = Comment::new(stored.clone(), user);
        let id = comment.id;
        proof {
            lemma_forest_of(comment.children@);
            assert(tree_of(comment) =~= nodes[k as int]);
        }
        let mut path: Vec<usize> = Vec::new();
        if comment.level != 0 && !(result.len() > 0 && result[result.len() - 1].can_place(comment.level)) {
            proof {
                assert(!buildable(nodes.take(k + 1)));
                lemma_unbuildable_extends(nodes, k + 1);
            }
            return None;
        }
        if comment.level == 0 {
            proof {
                lemma_forest_of_push(result@, comment);
            }
            result.push(comment);
            path.push(result.len() - 1);
        } else {
            let last = result.len() - 1;
            path.push(last);
            let ghost before = result@;
            let ghost p0 = path@;
            let root = &mut result[last];
            proof {
                lemma_forest_of_update(before, last as int, *final(root));
            }
            root.push(comment, &mut path);
        }
        proof {
            assert(path@ =~= build_path(nodes, k as int));
        }
        paths.push((id, path));
        k += 1;
    }
    proof {
        assert(nodes.take(k as int) =~= nodes);
    }
    Some((result, paths))
}

pub proof fn lemma_build_step_def(nodes: Seq<CommentTree>, k: int)
    requires
        0 <= k < nodes.len(),
    ensures
        ({
            let f = build_forest(nodes.take(k));
            let c = nodes[k];
            &&& build_forest(nodes.take(k + 1)) == (if c.level == 0 {
                f.push(c)
            } else if f.len() > 0 {
                f.update(f.len() - 1, place(f.last(), c))
            } else {
                f
            })
            &&& buildable(nodes.take(k + 1)) == (buildable(nodes.take(k)) && (c.level == 0 || (f.len() > 0
                && can_place(f.last(), c.level))))
        }),
{
    assert(nodes.take(k + 1).drop_last() =~= nodes.take(k));
    assert(nodes.take(k + 1).last() == nodes[k]);
}

pub proof fn lemma_unbuildable_extends(nodes: Seq<CommentTree>, k: int)
    requires
        0 <= k <= nodes.len(),
        !buildable(nodes.take(k)),
    ensures
        !buildable(nodes),
    decreases nodes.len() - k,
{
    if k < nodes.len() {
        lemma_build_step_def(nodes, k);
        lemma_unbuildable_extends(nodes, k + 1);
    } else {
        assert(nodes.take(k) =~= nodes);
    }
}

pub proof fn lemma_buildable_prefix(nodes: Seq<CommentTree>, k: int)
    requires
        buildable(nodes),
        0 <= k <= nodes.len(),
    ensures
        buildable(nodes.take(k)),
    decreases nodes.len() - k,
{
    if k < nodes.len() {
        assert(nodes.take(k + 1).drop_last() =~= nodes.take(k));
        lemma_buildable_prefix(nodes, k + 1);
    } else {
        assert(nodes.take(k) =~= nodes);
    }
}

} // verus!

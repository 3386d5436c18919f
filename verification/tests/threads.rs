use minty::cache::comment::Comment;
use minty::cache::posts::PostMut;
use minty::cache::thread::{build_comments, build_tree, find_user};
use minty::db;
use minty::model::Visibility;

fn stored(id: u128, parent: Option<u128>, level: u16, user: Option<u128>) -> db::Comment {
    db::Comment {
        id,
        user_id: user,
        post_id: 1000,
        parent_id: parent,
        level,
        content: format!("comment {id}"),
        created: id as i64,
    }
}

/// Comments as the database lists them: level by level, replies grouped by
/// parent.
fn sample() -> Vec<db::Comment> {
    vec![
        stored(1, None, 0, Some(100)),
        stored(2, None, 0, Some(200)),
        stored(3, Some(1), 1, Some(200)),
        stored(4, Some(1), 1, None),
        stored(5, Some(2), 1, Some(100)),
        stored(6, Some(3), 2, Some(100)),
    ]
}

fn post_state(comments: Option<Vec<Comment>>, count: u32) -> PostMut {
    PostMut {
        title: "title".to_string(),
        description: String::new(),
        visibility: Visibility::Public,
        created: 0,
        modified: 0,
        objects: Vec::new(),
        posts: Vec::new(),
        tags: Vec::new(),
        comment_count: count,
        comments,
    }
}

fn comment(id: u128, level: u16, user: Option<u64>) -> Comment {
    Comment::new(stored(id, None, level, None), user)
}

#[test]
fn build_tree_lists_threads_depth_first() {
    let ordered: Vec<u128> = build_tree(sample()).iter().map(|c| c.id).collect();
    assert_eq!(ordered, vec![1, 3, 6, 4, 2, 5]);
}

#[test]
fn build_tree_of_nothing_is_empty() {
    assert!(build_tree(Vec::new()).is_empty());
}

#[test]
fn find_user_takes_first_match() {
    let users = vec![(100, 7), (200, 8), (100, 9)];
    assert_eq!(find_user(&users, Some(100)), Some(7));
    assert_eq!(find_user(&users, Some(200)), Some(8));
    assert_eq!(find_user(&users, Some(300)), None);
    assert_eq!(find_user(&users, None), None);
}

#[test]
fn build_comments_nests_replies_and_records_paths() {
    let users = vec![(100, 7), (200, 8)];
    let (forest, paths) = build_comments(&sample(), &users).unwrap();
    assert_eq!(forest.len(), 2);
    assert_eq!(forest[0].id, 1);
    assert_eq!(forest[0].user, Some(7));
    assert_eq!(forest[0].children.len(), 2);
    assert_eq!(forest[0].children[0].id, 3);
    assert_eq!(forest[0].children[0].children[0].id, 6);
    assert_eq!(forest[0].children[1].user, None);
    assert_eq!(forest[1].children[0].id, 5);
    let paths: Vec<(u128, Vec<usize>)> = paths;
    assert_eq!(paths[0], (1, vec![0]));
    assert_eq!(paths[1], (3, vec![0, 0]));
    assert_eq!(paths[2], (6, vec![0, 0, 0]));
    assert_eq!(paths[3], (4, vec![0, 1]));
    assert_eq!(paths[4], (2, vec![1]));
    assert_eq!(paths[5], (5, vec![1, 0]));
}

#[test]
fn build_comments_rejects_unplaceable_and_too_deep() {
    let orphan = vec![stored(1, None, 1, None)];
    assert!(build_comments(&orphan, &Vec::new()).is_none());
    let deep = vec![stored(1, None, 300, None)];
    assert!(build_comments(&deep, &Vec::new()).is_none());
}

#[test]
fn add_comment_counts_and_places_at_top_level() {
    let mut unloaded = post_state(None, 3);
    assert_eq!(unloaded.add_comment(comment(1, 0, None)), None);
    assert_eq!(unloaded.comment_count, 4);

    let mut post = post_state(Some(vec![comment(1, 0, None)]), 1);
    assert_eq!(post.add_comment(comment(2, 0, Some(5))), Some(vec![1]));
    assert_eq!(post.comment_count, 2);
    assert_eq!(post.comments.as_ref().unwrap()[1].id, 2);
}

#[test]
fn reply_is_found_under_its_parent() {
    let mut post = post_state(Some(vec![comment(1, 0, None)]), 1);
    assert_eq!(post.reply(&[0], comment(2, 1, None)), Some(0));
    assert_eq!(post.reply(&[0, 0], comment(3, 2, None)), Some(0));
    assert_eq!(post.reply(&[0], comment(4, 1, None)), Some(1));
    assert_eq!(post.comment_count, 4);
    let thread = post.comments.as_ref().unwrap();
    assert_eq!(thread[0].children[0].children[0].id, 3);
    assert_eq!(thread[0].children[1].id, 4);
}

#[test]
fn delete_comment_clears_or_removes_and_prunes() {
    // 1 -> 2 -> 3
    let mut post = post_state(Some(vec![comment(1, 0, Some(10))]), 3);
    post.reply(&[0], comment(2, 1, Some(20)));
    post.reply(&[0, 0], comment(3, 2, Some(30)));
    post.comment_count = 3;

    // A non-recursive delete keeps the comment in place, emptied.
    let (removed, users) = post.delete_comment(&[0, 0], false);
    assert!(removed.is_empty());
    assert_eq!(users, vec![20]);
    assert_eq!(post.comment_count, 2);
    let thread = post.comments.as_ref().unwrap();
    assert_eq!(thread[0].children[0].content, "");
    assert_eq!(thread[0].children[0].children.len(), 1);

    // A recursive delete of the leaf also prunes the emptied parent,
    // whose own parent still has content.
    let (removed, users) = post.delete_comment(&[0, 0, 0], true);
    assert_eq!(users, vec![30]);
    assert_eq!(post.comment_count, 1);
    let ids: Vec<u128> = removed.iter().map(|c| c.id).collect();
    assert_eq!(ids, vec![3, 2]);
    let thread = post.comments.as_ref().unwrap();
    assert_eq!(thread.len(), 1);
    assert!(thread[0].children.is_empty());
}

#[test]
fn delete_without_a_loaded_thread_does_nothing() {
    let mut post = post_state(None, 5);
    let (removed, users) = post.delete_comment(&[0], true);
    assert!(removed.is_empty());
    assert!(users.is_empty());
    assert_eq!(post.comment_count, 5);
}

#[test]
fn a_repeated_id_reaches_its_reply_twice() {
    let comments = vec![
        stored(1, None, 0, None),
        stored(1, None, 0, None),
        stored(2, Some(1), 1, None),
    ];
    let ordered: Vec<u128> = build_tree(comments.clone()).iter().map(|c| c.id).collect();
    assert_eq!(ordered, vec![1, 2, 1, 2]);
    let (forest, paths) = build_comments(&comments, &Vec::new()).unwrap();
    assert_eq!(forest.len(), 2);
    assert_eq!(forest[0].children[0].id, 2);
    assert_eq!(forest[1].children[0].id, 2);
    assert_eq!(paths.len(), 4);
}

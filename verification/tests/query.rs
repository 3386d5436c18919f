use minty::cli::query::{post_parts, post_query, Pagination};
use minty::model::Visibility;

#[test]
fn a_post_search_for_drafts_by_text() {
    let page = Pagination { from: 20, size: 10 };
    let q = post_query(true, Some(7), "created", vec![1, 2], Some("cats".to_string()), page);
    assert_eq!(q.visibility, Visibility::Draft);
    assert_eq!(q.text, "cats");
    assert_eq!(q.tags, vec![1, 2]);
    assert_eq!(q.poster, Some(7));
    assert_eq!(q.sort, "created");
    assert_eq!(q.pagination, Pagination { from: 20, size: 10 });
}

#[test]
fn a_post_search_without_text_finds_published_posts() {
    let q = post_query(false, None, 0u8, Vec::new(), None, Pagination { from: 0, size: 100 });
    assert_eq!(q.visibility, Visibility::Public);
    assert_eq!(q.text, "");
    assert!(q.tags.is_empty());
    assert_eq!(q.poster, None);
}

#[test]
fn new_post_parts_mark_drafts_and_omit_missing_objects() {
    let p = post_parts(Some("t".to_string()), None, true, Some(vec![3]), None, Vec::new());
    assert_eq!(p.visibility, Some(Visibility::Draft));
    assert_eq!(p.objects, None);
    assert_eq!(p.title, Some("t".to_string()));
    assert_eq!(p.description, None);
    assert_eq!(p.tags, Some(vec![3]));
    assert_eq!(p.posts, None);

    let q = post_parts(None, Some("d".to_string()), false, None, Some(vec![9]), vec![5, 6]);
    assert_eq!(q.visibility, None);
    assert_eq!(q.objects, Some(vec![5, 6]));
    assert_eq!(q.posts, Some(vec![9]));
}

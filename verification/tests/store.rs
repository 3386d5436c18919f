use minty::cache::conf::Config;
use minty::cache::buffer::TokenRegistry;
use minty::cache::inner::Lookup;
use minty::cache::objects::{Object, StoredObject};
use minty::cache::posts::Held;
use minty::cache::store::Cache;
use minty::db;

fn profile(name: &str) -> db::EntityProfile {
    db::EntityProfile {
        name: name.to_string(),
        aliases: Vec::new(),
        description: String::new(),
        sources: Vec::new(),
        avatar: None,
        banner: None,
        created: 0,
    }
}

fn db_user(id: u128) -> db::User {
    db::User {
        id,
        email: format!("{id}@example.com"),
        admin: false,
        profile: profile("user"),
        post_count: 0,
        comment_count: 0,
        tag_count: 0,
    }
}

fn db_post(id: u128, poster: Option<u128>, visibility: db::Visibility) -> db::Post {
    db::Post {
        id,
        poster,
        title: "title".to_string(),
        description: String::new(),
        objects: Vec::new(),
        posts: Vec::new(),
        tags: Vec::new(),
        comment_count: 0,
        visibility,
        created: 1,
        modified: 1,
    }
}

fn db_comment(id: u128, post: u128, parent: Option<u128>, level: u16, user: Option<u128>) -> db::Comment {
    db::Comment {
        id,
        user_id: user,
        post_id: post,
        parent_id: parent,
        level,
        content: format!("comment {id}"),
        created: 5,
    }
}

fn object(id: u128) -> Object {
    Object::new(
        db::Object { id, preview_id: None, posts: Vec::new() },
        StoredObject {
            hash: "hash".to_string(),
            size: 10,
            media_type: "image".to_string(),
            subtype: "png".to_string(),
            added: 0,
        },
    )
}

fn cache() -> Cache {
    let mut registry = TokenRegistry::new();
    Cache::new(&Config::default(), &mut registry)
}

fn counts(cache: &Cache, handle: u64) -> (u32, u32, u32) {
    let user = cache.users.value(handle).unwrap();
    let m = user.mutable.get().unwrap();
    (m.post_count, m.comment_count, m.tag_count)
}

fn post_state<R>(cache: &Cache, handle: u64, f: impl FnOnce(&minty::cache::posts::PostMut) -> R) -> R {
    f(cache.posts.value(handle).unwrap().mutable.get().unwrap())
}

#[test]
fn new_public_post_counts_for_its_poster_and_records_objects() {
    let mut cache = cache();
    let u = cache.insert_user(db_user(1));
    let o = cache.objects.insert(object(50));
    let p = cache.insert_post(
        db_post(10, Some(1), db::Visibility::Public),
        Some(Held { id: 1, handle: u }),
        vec![o],
        Vec::new(),
    );
    assert_eq!(counts(&cache, u).0, 1);
    assert_eq!(cache.objects.value(o).unwrap().posts, vec![10]);
    assert_eq!(cache.posts.get(10), Lookup::Hit(p));
}

#[test]
fn drafts_count_once_published() {
    let mut cache = cache();
    let u = cache.insert_user(db_user(1));
    let p = cache.insert_post(
        db_post(10, Some(1), db::Visibility::Draft),
        Some(Held { id: 1, handle: u }),
        Vec::new(),
        Vec::new(),
    );
    assert_eq!(counts(&cache, u).0, 0);
    cache.publish_post(p, 99);
    assert_eq!(counts(&cache, u).0, 1);
    post_state(&cache, p, |m| {
        assert_eq!(m.created, 99);
        assert_eq!(m.modified, 99);
    });
}

#[test]
fn removing_a_post_uncounts_and_marks_it_missing() {
    let mut cache = cache();
    let u = cache.insert_user(db_user(1));
    let o = cache.objects.insert(object(50));
    let p = cache.insert_post(
        db_post(10, Some(1), db::Visibility::Public),
        Some(Held { id: 1, handle: u }),
        vec![o],
        Vec::new(),
    );
    cache.remove_post(p);
    assert_eq!(counts(&cache, u).0, 0);
    assert!(cache.posts.value(p).unwrap().mutable.is_deleted());
    assert_eq!(cache.posts.get(10), Lookup::Absent);
    assert!(cache.objects.value(o).unwrap().posts.is_empty());
}

#[test]
fn tags_count_their_creator() {
    let mut cache = cache();
    let u = cache.insert_user(db_user(1));
    let tag = db::Tag { id: 70, profile: profile("tag"), creator: Some(1), post_count: 0 };
    let t = cache.insert_tag(tag, Held { id: 1, handle: u });
    assert_eq!(counts(&cache, u).2, 1);
    cache.remove_tag(t);
    assert_eq!(counts(&cache, u).2, 0);
    assert_eq!(cache.tags.get(70), Lookup::Absent);
}

#[test]
fn comments_load_and_change_through_the_comment_map() {
    let mut cache = cache();
    let u = cache.insert_user(db_user(1));
    let p = cache.insert_post(db_post(10, None, db::Visibility::Public), None, Vec::new(), Vec::new());

    // Nothing is known of the comments before the thread is loaded.
    assert!(cache.get_comment(100).is_none());
    assert!(cache.post_thread(p).is_none());

    let stored = vec![
        db_comment(100, 10, None, 0, Some(1)),
        db_comment(101, 10, Some(100), 1, None),
    ];
    cache.users.acquire(u);
    assert!(cache.load_comments(p, stored, vec![(1, u)]));
    let thread: Vec<u128> = cache.post_thread(p).unwrap().iter().map(|c| c.id).collect();
    assert_eq!(thread, vec![100, 101]);
    let found = cache.get_comment(101).unwrap().unwrap();
    assert_eq!(found.parent_id, Some(100));
    assert_eq!(found.post_id, 10);
    assert_eq!(cache.comment_user(100), Some(Some(u)));
    assert!(matches!(cache.can_edit_comment(100, Held { id: 1, handle: u }), Some(Ok(()))));
    let other = cache.insert_user(db_user(2));
    assert!(matches!(
        cache.can_edit_comment(100, Held { id: 2, handle: other }),
        Some(Err(minty::error::Error::Unauthorized))
    ));
    assert!(cache.can_edit_comment(999, Held { id: 1, handle: u }).is_none());

    // A top-level comment.
    cache.users.acquire(u);
    cache.add_comment(p, db_comment(102, 10, None, 0, Some(1)), Held { id: 1, handle: u });
    assert_eq!(counts(&cache, u).1, 1);
    assert_eq!(post_state(&cache, p, |m| m.comment_count), 1);
    assert_eq!(cache.comments.get(102).map(|(_, path)| path), Some(vec![1]));

    // A reply under the loaded comment 101.
    cache.users.acquire(u);
    let data = cache.reply(101, db_comment(103, 10, Some(101), 2, Some(1)), Held { id: 1, handle: u });
    assert_eq!(data.id, 103);
    assert_eq!(cache.comments.get(103).map(|(_, path)| path), Some(vec![0, 0, 0]));
    assert_eq!(counts(&cache, u).1, 2);

    // Editing and deleting.
    cache.update_comment(103, "edited".to_string());
    assert_eq!(cache.get_comment(103).unwrap().unwrap().content, "edited");
    // The emptied reply has no replies of its own, so it is pruned from
    // its parent and forgotten.
    cache.delete_comment(103, false);
    assert_eq!(counts(&cache, u).1, 1);
    assert!(cache.get_comment(103).is_none());
    assert_eq!(cache.comments.get(103), None);
    assert!(cache.get_comment(101).unwrap().is_some());
}

#[test]
fn replies_to_unknown_comments_only_count() {
    let mut cache = cache();
    let u = cache.insert_user(db_user(1));
    let p = cache.insert_post(db_post(10, None, db::Visibility::Public), None, Vec::new(), Vec::new());
    cache.users.acquire(u);
    cache.reply(555, db_comment(103, 10, Some(555), 1, Some(1)), Held { id: 1, handle: u });
    assert_eq!(counts(&cache, u).1, 1);
    assert_eq!(post_state(&cache, p, |m| m.comment_count), 1);
    assert_eq!(cache.comments.get(103), None);
}

#[test]
fn objects_and_tags_of_a_post_change() {
    let mut cache = cache();
    let p = cache.insert_post(db_post(10, None, db::Visibility::Public), None, Vec::new(), Vec::new());
    let a = cache.objects.insert(object(50));
    let b = cache.objects.insert(object(51));
    cache.add_objects(p, vec![a, b], 7);
    assert_eq!(post_state(&cache, p, |m| (m.objects.clone(), m.modified)), (vec![a, b], 7));
    assert_eq!(cache.objects.value(b).unwrap().posts, vec![10]);
    cache.delete_objects(p, &vec![50], 8);
    assert_eq!(post_state(&cache, p, |m| m.objects.clone()), vec![b]);
    assert!(cache.objects.value(a).unwrap().posts.is_empty());

    let u = cache.insert_user(db_user(1));
    let t1 = cache.insert_tag(
        db::Tag { id: 70, profile: profile("a"), creator: None, post_count: 0 },
        Held { id: 1, handle: u },
    );
    let t2 = cache.insert_tag(
        db::Tag { id: 71, profile: profile("b"), creator: None, post_count: 0 },
        Held { id: 1, handle: u },
    );
    cache.add_tag(p, t1);
    cache.add_tag(p, t2);
    cache.tags.acquire(t1);
    cache.add_tag(p, t1);
    assert_eq!(post_state(&cache, p, |m| m.tags.clone()), vec![t1, t2]);
    cache.delete_tag(p, 70);
    assert_eq!(post_state(&cache, p, |m| m.tags.clone()), vec![t2]);
}

#[test]
fn previews_skip_hidden_posts_and_deleted_tags() {
    let mut cache = cache();
    let u = cache.insert_user(db_user(1));
    let public = cache.insert_post(db_post(10, None, db::Visibility::Public), None, Vec::new(), Vec::new());
    let draft = cache.insert_post(
        db_post(11, Some(1), db::Visibility::Draft),
        Some(Held { id: 1, handle: u }),
        Vec::new(),
        Vec::new(),
    );
    cache.posts.acquire(public);
    cache.posts.acquire(draft);
    let shown: Vec<u128> = cache.post_previews(vec![public, draft], None).iter().map(|p| p.id).collect();
    assert_eq!(shown, vec![10]);
    cache.posts.acquire(public);
    cache.posts.acquire(draft);
    let shown: Vec<u128> = cache
        .post_previews(vec![public, draft], Some(Held { id: 1, handle: u }))
        .iter()
        .map(|p| p.id)
        .collect();
    assert_eq!(shown, vec![10, 11]);

    let t1 = cache.insert_tag(
        db::Tag { id: 70, profile: profile("a"), creator: None, post_count: 0 },
        Held { id: 1, handle: u },
    );
    let t2 = cache.insert_tag(
        db::Tag { id: 71, profile: profile("b"), creator: None, post_count: 0 },
        Held { id: 1, handle: u },
    );
    cache.remove_tag(t1);
    cache.tags.acquire(t1);
    cache.tags.acquire(t2);
    let shown: Vec<u128> = cache.tag_previews(vec![t1, t2]).iter().map(|p| p.id).collect();
    assert_eq!(shown, vec![71]);
}

#[test]
fn post_and_object_models_show_what_is_live() {
    let mut cache = cache();
    let u = cache.insert_user(db_user(1));
    let o = cache.objects.insert(object(50));
    let t = cache.insert_tag(
        db::Tag { id: 70, profile: profile("tag"), creator: None, post_count: 0 },
        Held { id: 1, handle: u },
    );
    let gone = cache.insert_tag(
        db::Tag { id: 71, profile: profile("gone"), creator: None, post_count: 0 },
        Held { id: 1, handle: u },
    );
    cache.remove_tag(gone);
    let p = cache.insert_post(
        db_post(10, Some(1), db::Visibility::Public),
        Some(Held { id: 1, handle: u }),
        vec![o],
        vec![t, gone],
    );
    let info = cache.post_model(p, Vec::new()).unwrap();
    assert_eq!(info.id, 10);
    assert_eq!(info.poster.unwrap().id, 1);
    assert_eq!(info.objects.iter().map(|o| o.id).collect::<Vec<_>>(), vec![50]);
    assert_eq!(info.tags.iter().map(|t| t.id).collect::<Vec<_>>(), vec![70]);
    assert!(info.posts.is_empty());

    let object = cache.object_model(o, Vec::new()).unwrap();
    assert_eq!(object.id, 50);
    assert_eq!(object.size, 10);

    cache.remove_post(p);
    assert!(cache.post_model(p, Vec::new()).is_none());
}

#[test]
fn removing_a_post_twice_changes_nothing_more() {
    let mut cache = cache();
    let u = cache.insert_user(db_user(1));
    let o = cache.objects.insert(object(50));
    let p = cache.insert_post(
        db_post(10, Some(1), db::Visibility::Public),
        Some(Held { id: 1, handle: u }),
        vec![o],
        Vec::new(),
    );
    cache.remove_post(p);
    cache.remove_post(p);
    assert_eq!(counts(&cache, u).0, 0);
    assert!(cache.posts.value(p).unwrap().mutable.is_deleted());
    assert!(cache.objects.value(o).unwrap().posts.is_empty());
}

#[test]
fn removing_a_draft_changes_no_count() {
    let mut cache = cache();
    let u = cache.insert_user(db_user(1));
    let p = cache.insert_post(
        db_post(10, Some(1), db::Visibility::Draft),
        Some(Held { id: 1, handle: u }),
        Vec::new(),
        Vec::new(),
    );
    cache.remove_post(p);
    assert_eq!(counts(&cache, u).0, 0);
    assert!(cache.posts.value(p).unwrap().mutable.is_deleted());
}

#[test]
fn a_loaded_thread_is_kept_and_not_loaded_again() {
    let mut cache = cache();
    let p = cache.insert_post(db_post(10, None, db::Visibility::Public), None, Vec::new(), Vec::new());
    let stored = vec![
        db_comment(100, 10, None, 0, None),
        db_comment(101, 10, Some(100), 1, None),
    ];
    assert!(cache.load_comments(p, stored, Vec::new()));
    let again = vec![db_comment(200, 10, None, 0, None)];
    assert!(!cache.load_comments(p, again, Vec::new()));
    let thread: Vec<u128> = cache.post_thread(p).unwrap().iter().map(|c| c.id).collect();
    assert_eq!(thread, vec![100, 101]);
    assert!(cache.get_comment(200).is_none());
}

#[test]
fn previews_carry_every_field() {
    let mut cache = cache();
    let u = cache.insert_user(db_user(1));
    let o = cache.objects.insert(object(50));
    let t = cache.insert_tag(
        db::Tag { id: 70, profile: profile("tag"), creator: None, post_count: 0 },
        Held { id: 1, handle: u },
    );
    let p = cache.insert_post(
        db_post(10, Some(1), db::Visibility::Public),
        Some(Held { id: 1, handle: u }),
        vec![o],
        vec![t],
    );
    cache.posts.acquire(p);
    let previews = cache.post_previews(vec![p], None);
    assert_eq!(previews.len(), 1);
    let preview = &previews[0];
    assert_eq!(preview.title, "title");
    assert_eq!(preview.object_count, 1);
    assert_eq!(preview.comment_count, 0);
    assert_eq!(preview.created, 1);
    assert_eq!(preview.poster.as_ref().unwrap().id, 1);
    let first = preview.preview.as_ref().unwrap();
    assert_eq!((first.id, first.media_type.as_str(), first.subtype.as_str()), (50, "image", "png"));

    let info = cache.post_model(p, Vec::new()).unwrap();
    assert_eq!(info.objects[0].media_type, "image");
    assert_eq!(info.objects[0].subtype, "png");
    assert_eq!(info.tags[0].name, "tag");

    cache.tags.acquire(t);
    let tags = cache.tag_previews(vec![t]);
    assert_eq!(tags[0].name, "tag");
    assert_eq!(tags[0].avatar, None);
}

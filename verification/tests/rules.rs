use minty::cache::buffer::TokenRegistry;
use minty::cache::inner::{Cache, Lookup};
use minty::cache::lock::CacheLock;
use minty::cache::posts::{Held, Post, PostMut};
use minty::cache::tags::Tag;
use minty::cache::users::User;
use minty::db;
use minty::error::{Error, Found};
use minty::model::Visibility;

fn profile() -> db::EntityProfile {
    db::EntityProfile {
        name: "name".to_string(),
        aliases: Vec::new(),
        description: String::new(),
        sources: Vec::new(),
        avatar: None,
        banner: None,
        created: 0,
    }
}

fn user(id: u128, admin: bool) -> User {
    User::from_db(db::User {
        id,
        email: String::new(),
        admin,
        profile: profile(),
        post_count: 0,
        comment_count: 0,
        tag_count: 0,
    })
}

fn post(id: u128, poster: Option<Held>, visibility: Visibility) -> Post {
    Post {
        id,
        poster,
        mutable: CacheLock::new(PostMut {
            title: String::new(),
            description: String::new(),
            visibility,
            created: 0,
            modified: 0,
            objects: Vec::new(),
            posts: Vec::new(),
            tags: Vec::new(),
            comment_count: 0,
            comments: None,
        }),
    }
}

fn users() -> (Cache<User>, u64, u64) {
    let mut registry = TokenRegistry::new();
    let mut users = Cache::new("user", 10, &mut registry);
    let poster = users.insert(user(1, false));
    let admin = users.insert(user(2, true));
    (users, poster, admin)
}

#[test]
fn found_turns_absence_into_not_found() {
    assert!(matches!(Some(3).found("post", 9), Ok(3)));
    assert!(matches!(None::<u8>.found("post", 9), Err(Error::NotFound { entity: "post", id: 9 })));
    assert!(matches!(true.found("tag", 1), Ok(())));
    assert!(matches!(false.found("tag", 1), Err(Error::NotFound { entity: "tag", id: 1 })));
}

#[test]
fn drafts_are_seen_only_by_their_poster() {
    let (_users, poster, admin) = users();
    let by_poster = Held { id: 1, handle: poster };
    let by_admin = Held { id: 2, handle: admin };
    let draft = post(10, Some(by_poster), Visibility::Draft);
    assert!(draft.can_view(Some(by_poster)).is_ok());
    assert!(matches!(draft.can_view(Some(by_admin)), Err(Error::Unauthorized)));
    assert!(matches!(draft.can_view(None), Err(Error::Unauthorized)));
    let public = post(11, Some(by_poster), Visibility::Public);
    assert!(public.can_view(None).is_ok());
}

#[test]
fn deleted_posts_are_not_found() {
    let mut gone = post(12, None, Visibility::Public);
    gone.mutable.delete();
    assert!(matches!(gone.can_view(None), Err(Error::NotFound { entity: "post", id: 12 })));
}

#[test]
fn posts_and_tags_are_edited_by_their_owner_or_an_admin() {
    let (users, poster, admin) = users();
    // A handle that the user cache does not hold.
    let unknown = poster + admin + 100;
    let by_poster = Held { id: 1, handle: poster };
    let by_admin = Held { id: 2, handle: admin };
    let p = post(10, Some(by_poster), Visibility::Public);
    assert!(p.can_edit(by_poster, &users).is_ok());
    assert!(p.can_edit(by_admin, &users).is_ok());
    assert!(matches!(p.can_edit(Held { id: 3, handle: unknown }, &users), Err(Error::Unauthorized)));

    let tag = Tag::with_creator(
        db::Tag { id: 70, profile: profile(), creator: Some(1), post_count: 0 },
        Some(by_poster),
    );
    assert!(tag.can_edit(by_poster, &users).is_ok());
    assert!(tag.can_edit(by_admin, &users).is_ok());
    let not_admin = users.value(poster).unwrap();
    assert!(matches!(not_admin.deny_permission(), Err(Error::Unauthorized)));
}

#[test]
fn releasing_right_after_acquiring_changes_nothing() {
    let mut registry = TokenRegistry::new();
    let mut cache = Cache::new("user", 10, &mut registry);
    let h = cache.insert(user(5, false));
    cache.acquire(h);
    cache.release(h);
    // The two holders from the insert remain: it takes two releases to drop
    // the value.
    cache.release(h);
    assert!(cache.value(h).is_some());
    cache.release(h);
    assert!(cache.value(h).is_none());
    assert_eq!(cache.lookup(5), Lookup::Miss);
}

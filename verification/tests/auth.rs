use minty::auth::{hash_password, verify_password, Session, SessionId};
use minty::cache::buffer::TokenRegistry;
use minty::cache::inner::Cache;
use minty::cache::posts::Held;
use minty::cache::users::User;
use minty::db;
use minty::error::Error;

#[test]
fn session_ids_read_back_their_text() {
    let id = SessionId { bytes: [7u8; 32] };
    let text = id.to_text();
    assert_eq!(text.len(), 43);
    assert_eq!(text, "BwcHBwcHBwcHBwcHBwcHBwcHBwcHBwcHBwcHBwcHBwc");
    assert_eq!(SessionId::parse(&text).unwrap().bytes, [7u8; 32]);
}

#[test]
fn short_session_text_is_zero_filled() {
    let id = SessionId::parse("AQID").unwrap();
    let mut expected = [0u8; 32];
    expected[0] = 1;
    expected[1] = 2;
    expected[2] = 3;
    assert_eq!(id.bytes, expected);
}

#[test]
fn bad_session_text_is_refused() {
    assert!(SessionId::parse("not base64!").is_none());
    assert!(SessionId::parse(&"A".repeat(60)).is_none());
}

#[test]
fn generated_ids_differ() {
    let a = SessionId::generate();
    let b = SessionId::generate();
    assert_ne!(a.bytes, b.bytes);
}

#[test]
fn digest_is_sha256() {
    let id = SessionId { bytes: [0u8; 32] };
    // SHA-256 of 32 zero bytes.
    assert_eq!(id.digest().to_text(), "Zmh6rfhivXdsj8GLjp-OIAiXFIVu4jOzkCpZHQ1fKSU");
}

#[test]
fn passwords_verify_against_their_hash() {
    let hash = hash_password("hunter2").unwrap();
    assert_eq!(verify_password("hunter2", &hash).unwrap(), true);
    assert_eq!(verify_password("hunter3", &hash).unwrap(), false);
}

#[test]
fn unreadable_hashes_are_internal_errors() {
    match verify_password("x", "not a hash") {
        Err(Error::Internal(m)) => assert!(m.starts_with("invalid password hash: ")),
        other => panic!("unexpected {other:?}"),
    }
}

#[test]
fn sessions_end_at_expiration_or_when_the_user_is_deleted() {
    let mut registry = TokenRegistry::new();
    let mut users: Cache<User> = Cache::new("user", 10, &mut registry);
    let h = users.insert(User::from_db(db::User {
        id: 1,
        email: "a@example.com".to_string(),
        admin: false,
        profile: db::EntityProfile {
            name: "a".to_string(),
            aliases: Vec::new(),
            description: String::new(),
            sources: Vec::new(),
            avatar: None,
            banner: None,
            created: 0,
        },
        post_count: 0,
        comment_count: 0,
        tag_count: 0,
    }));
    let session = Session::new(SessionId { bytes: [1u8; 32] }, Held { id: 1, handle: h }, 100);
    assert!(session.is_valid(&users, 99));
    assert!(!session.is_valid(&users, 100));
    assert!(session.is_expired(100));
    assert_eq!(session.user(), Held { id: 1, handle: h });
    if let Some(user) = users.value_mut(h) {
        user.delete();
    }
    assert!(!session.is_valid(&users, 50));
}

#[test]
fn session_ids_are_written_in_url_safe_base64() {
    let mut bytes = [0u8; 32];
    for (i, b) in bytes.iter_mut().enumerate() {
        *b = i as u8;
    }
    assert_eq!(SessionId { bytes }.to_text(), "AAECAwQFBgcICQoLDA0ODxAREhMUFRYXGBkaGxwdHh8");
    assert_eq!(SessionId { bytes: [0xff; 32] }.to_text(), "__________________________________________8");
}

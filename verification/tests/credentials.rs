use minty::cli::credentials::Credentials;

#[test]
fn stored_secrets_are_found_by_server_and_email() {
    let mut c = Credentials::new();
    assert!(c.is_empty());
    c.insert("https://a.example".into(), "me@a".into(), "s1".into());
    c.insert("https://a.example".into(), "you@a".into(), "s2".into());
    c.insert("https://b.example".into(), "me@a".into(), "s3".into());
    assert!(!c.is_empty());
    assert_eq!(c.get("https://a.example", "me@a"), Some("s1".to_string()));
    assert_eq!(c.get("https://a.example", "you@a"), Some("s2".to_string()));
    assert_eq!(c.get("https://b.example", "me@a"), Some("s3".to_string()));
    assert_eq!(c.get("https://b.example", "you@a"), None);
    assert_eq!(c.get("https://c.example", "me@a"), None);
}

#[test]
fn inserting_again_replaces_the_secret() {
    let mut c = Credentials::new();
    c.insert("s".into(), "e".into(), "old".into());
    c.insert("s".into(), "e".into(), "new".into());
    assert_eq!(c.get("s", "e"), Some("new".to_string()));
    assert_eq!(c.into_entries(), vec![("s".to_string(), vec![("e".to_string(), "new".to_string())])]);
}

#[test]
fn removing_the_last_user_forgets_the_server() {
    let mut c = Credentials::new();
    c.insert("s".into(), "e1".into(), "x".into());
    c.insert("s".into(), "e2".into(), "y".into());
    c.remove("s", "e1");
    assert_eq!(c.get("s", "e1"), None);
    assert_eq!(c.get("s", "e2"), Some("y".to_string()));
    assert!(!c.is_empty());
    c.remove("s", "e2");
    assert!(c.is_empty());
    c.remove("nowhere", "e");
    assert!(c.is_empty());
}

#[test]
fn entries_with_repeated_keys_are_refused() {
    let servers = vec![
        ("s".to_string(), vec![("e".to_string(), "x".to_string())]),
        ("s".to_string(), Vec::new()),
    ];
    assert!(Credentials::from_entries(servers).is_none());
    let users = vec![(
        "s".to_string(),
        vec![("e".to_string(), "x".to_string()), ("e".to_string(), "y".to_string())],
    )];
    assert!(Credentials::from_entries(users).is_none());
    let fine = vec![("s".to_string(), vec![("e".to_string(), "x".to_string())])];
    assert_eq!(Credentials::from_entries(fine).unwrap().get("s", "e"), Some("x".to_string()));
}

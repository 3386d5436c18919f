use minty::cli::post_view::{comment_data_lines, object_preview_lines, post_lines, tag_preview_lines, user_preview_lines};
use minty::cli::printer::{Piece, Style};
use minty::model::{CommentData, ObjectPreview, PostInfo, PostPreview, TagPreview, UserPreview, Visibility};

fn texts(line: &[Piece]) -> Vec<(Style, String)> {
    line.iter().map(|p| (p.style, p.text.clone())).collect()
}

fn plain(s: &str) -> (Style, String) {
    (Style::Plain, s.to_string())
}

fn bare_post() -> PostInfo {
    PostInfo {
        id: 1,
        poster: None,
        title: String::new(),
        description: String::new(),
        visibility: Visibility::Public,
        created: 100,
        modified: 100,
        objects: Vec::new(),
        posts: Vec::new(),
        tags: Vec::new(),
        comment_count: 0,
    }
}

#[test]
fn a_bare_post_shows_only_its_metadata() {
    let lines = post_lines(&bare_post(), 0, "1h ago", "never", 120, &Vec::new());
    assert_eq!(lines.len(), 4);
    assert_eq!(
        texts(&lines[0]),
        vec![
            plain(""),
            (Style::Label, "\u{f0423}".to_string()),
            plain(" "),
            (Style::Label, "ID        ".to_string()),
            plain("  "),
            plain("00000000-0000-0000-0000-000000000001"),
        ]
    );
    assert_eq!(texts(&lines[1])[3], (Style::Label, "Visibility".to_string()));
    assert_eq!(texts(&lines[1])[5], plain("public"));
    assert_eq!(texts(&lines[2])[5], plain("0"));
    assert_eq!(texts(&lines[3])[3], (Style::Label, "Created   ".to_string()));
    assert_eq!(texts(&lines[3])[5], plain("1h ago"));
}

#[test]
fn a_full_post_shows_every_section() {
    let mut post = bare_post();
    post.poster = Some(UserPreview { id: 2, name: "alice".to_string(), avatar: None });
    post.title = "Trip".to_string();
    post.description = "A short trip.".to_string();
    post.visibility = Visibility::Draft;
    post.modified = 200;
    post.comment_count = 4;
    post.objects = vec![
        ObjectPreview { id: 3, preview_id: None, media_type: "image".to_string(), subtype: "png".to_string() },
        ObjectPreview { id: 4, preview_id: None, media_type: "video".to_string(), subtype: "mp4".to_string() },
    ];
    post.posts = vec![PostPreview {
        id: 5,
        poster: None,
        title: String::new(),
        preview: None,
        comment_count: 1,
        object_count: 0,
        created: 0,
    }];
    post.tags = vec![TagPreview { id: 6, name: "travel".to_string(), avatar: None }];
    let ages = vec!["2d".to_string()];
    let lines = post_lines(&post, 0, "c", "m", 40, &ages);
    // poster (3) + title (2) + description (2) + objects (1 + 6)
    // + posts (1 + 4) + tags (1 + 3) + metadata (5)
    assert_eq!(lines.len(), 28);
    assert_eq!(texts(&lines[0]), vec![plain("\u{f0004}"), plain(" "), (Style::Bold, "alice".to_string())]);
    assert_eq!(texts(&lines[1])[0], plain("  "));
    assert_eq!(texts(&lines[1])[3], (Style::Secondary, "00000000-0000-0000-0000-000000000002".to_string()));
    assert!(lines[2].is_empty());
    assert_eq!(texts(&lines[3]), vec![(Style::Title, "Trip".to_string())]);
    assert!(lines[4].is_empty());
    assert_eq!(texts(&lines[5]), vec![plain("A short trip.")]);
    assert!(lines[6].is_empty());
    assert_eq!(texts(&lines[7]), vec![plain("Objects "), (Style::Count, "2".to_string())]);
    assert_eq!(texts(&lines[8]), vec![plain("  1 "), plain("image/png")]);
    assert_eq!(texts(&lines[9])[0], plain("    "));
    assert_eq!(texts(&lines[11]), vec![plain("  2 "), plain("video/mp4")]);
    assert_eq!(texts(&lines[14]), vec![plain("Posts "), (Style::Count, "1".to_string())]);
    assert_eq!(
        texts(&lines[15]),
        vec![plain("  "), plain("\u{eab6}"), plain(" "), (Style::Italic, "Untitled".to_string())]
    );
    assert_eq!(texts(&lines[17]).last().unwrap(), &(Style::Secondary, "2d".to_string()));
    assert_eq!(texts(&lines[19]), vec![plain("Tags "), (Style::Count, "1".to_string())]);
    assert_eq!(
        texts(&lines[20]),
        vec![plain("  "), plain("\u{eab6}"), plain(" "), (Style::Bold, "travel".to_string())]
    );
    assert_eq!(texts(&lines[24])[5], plain("draft"));
    assert_eq!(texts(&lines[25])[5], plain("4"));
    assert_eq!(texts(&lines[27])[3], (Style::Label, "Modified  ".to_string()));
    assert_eq!(texts(&lines[27])[5], plain("m"));
}

#[test]
fn previews_of_users_tags_and_objects() {
    let u = user_preview_lines(&UserPreview { id: 2, name: "bob".to_string(), avatar: None }, 2);
    assert_eq!(texts(&u[0]), vec![(Style::Bold, "bob".to_string())]);
    assert_eq!(
        texts(&u[1]),
        vec![
            plain("  "),
            (Style::Label, "\u{f0423}".to_string()),
            plain(" "),
            (Style::Secondary, "00000000-0000-0000-0000-000000000002".to_string()),
        ]
    );
    let t = tag_preview_lines(&TagPreview { id: 3, name: "sea".to_string(), avatar: None }, 0);
    assert_eq!(texts(&t[0]), vec![(Style::Bold, "sea".to_string())]);
    let o = object_preview_lines(
        &ObjectPreview { id: 4, preview_id: None, media_type: "image".to_string(), subtype: "jpeg".to_string() },
        4,
    );
    assert_eq!(texts(&o[0]), vec![plain("image/jpeg")]);
    assert_eq!(texts(&o[1])[0], plain("    "));
}

#[test]
fn a_reply_shows_divider_id_author_and_text() {
    let c = CommentData { id: 9, user: None, content: "hi there".to_string(), level: 1, created: 0 };
    let lines = comment_data_lines(&c, "3h", 80);
    assert_eq!(lines.len(), 4);
    assert_eq!(lines[0].len(), 22);
    assert_eq!(texts(&lines[0])[1], (Style::Secondary, "\u{250c}".to_string()));
    assert_eq!(
        texts(&lines[1]),
        vec![
            plain("  "),
            (Style::Secondary, "\u{2502}".to_string()),
            (Style::Label, "\u{f0423}".to_string()),
            plain(" "),
            (Style::Secondary, "00000000-0000-0000-0000-000000000009".to_string()),
        ]
    );
    assert_eq!(texts(&lines[2])[4], (Style::Secondary, "[deleted]".to_string()));
    assert_eq!(texts(&lines[2]).last().unwrap(), &(Style::Secondary, "3h".to_string()));
    assert_eq!(texts(&lines[3]), vec![plain("  "), (Style::Secondary, "\u{2502}".to_string()), plain("hi there")]);

    let top = CommentData {
        id: 1,
        user: Some(UserPreview { id: 2, name: "eve".to_string(), avatar: None }),
        content: String::new(),
        level: 0,
        created: 0,
    };
    let lines = comment_data_lines(&top, "1d", 80);
    assert_eq!(lines.len(), 3);
    assert_eq!(texts(&lines[1])[2], (Style::Secondary, "eve".to_string()));
    assert_eq!(texts(&lines[2]), vec![(Style::Destructive, "\u{f0a7a} Deleted".to_string())]);
}

use minty::ico::{pick_icon, text_before_x, Favicons, IconLink};

fn link(href: Option<&str>, sizes: Option<&str>) -> IconLink {
    IconLink { href: href.map(String::from), sizes: sizes.map(String::from) }
}

#[test]
fn largest_sized_icon_wins() {
    let links = vec![
        link(Some("/small.png"), Some("16x16")),
        link(Some("/large.png"), Some("64x64")),
        link(Some("/medium.png"), Some("32x32")),
    ];
    assert_eq!(pick_icon(&links), Some("/large.png".to_string()));
}

#[test]
fn unsized_icon_is_taken_only_first() {
    let links = vec![link(Some("/a.ico"), None), link(Some("/b.ico"), None)];
    assert_eq!(pick_icon(&links), Some("/a.ico".to_string()));
    let links = vec![link(Some("/a.ico"), None), link(Some("/b.png"), Some("8x8"))];
    assert_eq!(pick_icon(&links), Some("/b.png".to_string()));
}

#[test]
fn links_without_href_or_with_bad_sizes_are_skipped() {
    let links = vec![
        link(None, Some("128x128")),
        link(Some("/any.svg"), Some("any")),
        link(Some("/zero.png"), Some("0x0")),
    ];
    assert_eq!(pick_icon(&links), None);
    assert_eq!(pick_icon(&Vec::new()), None);
}

#[test]
fn size_is_read_before_the_x() {
    assert_eq!(text_before_x("48x48"), "48");
    assert_eq!(text_before_x("48"), "48");
    assert_eq!(text_before_x("x"), "");
}

#[test]
fn check_html_prefers_icon_over_shortcut_icon() {
    let favicons = Favicons::new();
    let page = r#"<html><head>
        <link rel="shortcut icon" href="/shortcut.ico">
        <link rel="icon" href="/icon-16.png" sizes="16x16">
        <link rel="icon" href="/icon-32.png" sizes="32x32">
    </head><body></body></html>"#;
    assert_eq!(favicons.check_html(page), Some("/icon-32.png".to_string()));
}

#[test]
fn check_html_falls_back_to_shortcut_icon() {
    let favicons = Favicons::new();
    let page = r#"<html><head><link rel="shortcut icon" href="/shortcut.ico"></head></html>"#;
    assert_eq!(favicons.check_html(page), Some("/shortcut.ico".to_string()));
    assert_eq!(favicons.check_html("<html></html>"), None);
}

#[test]
fn favicon_urls_resolve_against_the_root() {
    let root = "https://example.com";
    assert_eq!(Favicons::get_favicon_url(root, Some("/icon.png".to_string())), "https://example.com/icon.png");
    assert_eq!(
        Favicons::get_favicon_url(root, Some("//cdn.example.com/icon.png".to_string())),
        "//cdn.example.com/icon.png"
    );
    assert_eq!(
        Favicons::get_favicon_url(root, Some("https://other.org/i.png".to_string())),
        "https://other.org/i.png"
    );
    assert_eq!(Favicons::get_favicon_url(root, None), "https://example.com/favicon.ico");
}

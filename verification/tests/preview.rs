use minty::cli::preview::{id_text, preview_lines};
use minty::cli::printer::Style;
use minty::model::PostPreview;

fn texts(line: &[minty::cli::printer::Piece]) -> Vec<(Style, String)> {
    line.iter().map(|p| (p.style, p.text.clone())).collect()
}

#[test]
fn ids_are_written_as_grouped_hex() {
    assert_eq!(id_text(0x67e55044_10b1_426f_9247_bb680e5fe0c8), "67e55044-10b1-426f-9247-bb680e5fe0c8");
    assert_eq!(id_text(0), "00000000-0000-0000-0000-000000000000");
    assert_eq!(id_text(u128::MAX), "ffffffff-ffff-ffff-ffff-ffffffffffff");
}

#[test]
fn a_post_preview_shows_title_id_and_counts() {
    let preview = PostPreview {
        id: 0x67e55044_10b1_426f_9247_bb680e5fe0c8,
        poster: None,
        title: "A walk".to_string(),
        preview: None,
        comment_count: 12,
        object_count: 3,
        created: 0,
    };
    let lines = preview_lines(&preview, 2, "5m");
    assert_eq!(lines.len(), 3);
    assert_eq!(texts(&lines[0]), vec![(Style::Bold, "A walk".to_string())]);
    assert_eq!(
        texts(&lines[1]),
        vec![
            (Style::Plain, "  ".to_string()),
            (Style::Label, "\u{f0423}".to_string()),
            (Style::Plain, " ".to_string()),
            (Style::Secondary, "67e55044-10b1-426f-9247-bb680e5fe0c8".to_string()),
        ]
    );
    assert_eq!(
        texts(&lines[2]),
        vec![
            (Style::Plain, "  ".to_string()),
            (Style::Label, "\u{f021f}".to_string()),
            (Style::Plain, " ".to_string()),
            (Style::Secondary, "3".to_string()),
            (Style::Plain, "  ".to_string()),
            (Style::Label, "\u{f017a}".to_string()),
            (Style::Plain, " ".to_string()),
            (Style::Secondary, "12".to_string()),
            (Style::Plain, "  ".to_string()),
            (Style::Label, "\u{f0954}".to_string()),
            (Style::Plain, " ".to_string()),
            (Style::Secondary, "5m".to_string()),
        ]
    );
}

#[test]
fn an_untitled_post_says_so() {
    let preview = PostPreview {
        id: 1,
        poster: None,
        title: String::new(),
        preview: None,
        comment_count: 0,
        object_count: 0,
        created: 0,
    };
    let lines = preview_lines(&preview, 0, "1s");
    assert_eq!(texts(&lines[0]), vec![(Style::Italic, "Untitled".to_string())]);
    assert_eq!(lines[1][0].text, "");
}

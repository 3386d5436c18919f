use minty::cli::metadata::{Icon, CLOCK, POUND};
use minty::cli::printer::{MetadataRow, Piece, Printer, Style, CORNER, HORIZONTAL, TRASH, VERTICAL};

fn texts(line: &[Piece]) -> Vec<(Style, String)> {
    line.iter().map(|p| (p.style, p.text.clone())).collect()
}

#[test]
fn top_level_comments_have_no_divider() {
    let mut printer = Printer::new(0);
    printer.divider();
    assert!(printer.into_lines().is_empty());
}

#[test]
fn replies_get_a_divider_under_their_parents_bars() {
    let mut printer = Printer::new(2);
    printer.divider();
    let lines = printer.into_lines();
    assert_eq!(lines.len(), 1);
    let line = texts(&lines[0]);
    assert_eq!(line.len(), 2 + 2 + 20);
    assert_eq!(line[0], (Style::Plain, "  ".to_string()));
    assert_eq!(line[1], (Style::Secondary, VERTICAL.to_string()));
    assert_eq!(line[2], (Style::Plain, "  ".to_string()));
    assert_eq!(line[3], (Style::Secondary, CORNER.to_string()));
    assert!(line[4..].iter().all(|p| *p == (Style::Secondary, HORIZONTAL.to_string())));
}

#[test]
fn metadata_rows_are_indented_and_spaced() {
    let mut printer = Printer::new(1);
    let row = MetadataRow::new()
        .push(Icon::new(POUND), "42".to_string())
        .push(Icon::new(CLOCK), "1h".to_string());
    printer.metadata(row);
    let lines = printer.into_lines();
    let line = texts(&lines[0]);
    assert_eq!(
        line,
        vec![
            (Style::Plain, "  ".to_string()),
            (Style::Secondary, VERTICAL.to_string()),
            (Style::Label, POUND.to_string()),
            (Style::Plain, " ".to_string()),
            (Style::Secondary, "42".to_string()),
            (Style::Plain, "  ".to_string()),
            (Style::Label, CLOCK.to_string()),
            (Style::Plain, " ".to_string()),
            (Style::Secondary, "1h".to_string()),
        ]
    );
}

#[test]
fn text_is_wrapped_and_deleted_text_is_marked() {
    let mut printer = Printer::new(0);
    printer.text("hello world", 5);
    printer.text("", 80);
    let lines = printer.into_lines();
    assert_eq!(lines.len(), 3);
    assert_eq!(texts(&lines[0]), vec![(Style::Plain, "hello".to_string())]);
    assert_eq!(texts(&lines[1]), vec![(Style::Plain, "world".to_string())]);
    assert_eq!(texts(&lines[2]), vec![(Style::Destructive, format!("{TRASH} Deleted"))]);
}

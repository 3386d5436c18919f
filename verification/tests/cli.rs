use minty::cli::bytes::ByteSize;
use minty::cli::list::SliceExt;
use minty::cli::num::decimal;
use minty::cli::ask::{confirm, confirm_answer, multiple_choice, parse_usize, same_text};
use minty::cli::metadata::{heading, Icon, Metadata, CALENDAR, EYE};
use minty::cli::output::{Destinations, Output, Stream};
use minty::cli::text::StringExt;

#[test]
fn confirm_accepts_yes_in_any_case() {
    assert_eq!(confirm("  YES \n"), Ok(true));
    assert_eq!(confirm("y"), Ok(true));
    assert_eq!(confirm("Yes"), Ok(true));
}

#[test]
fn confirm_declines_no_and_empty() {
    assert_eq!(confirm("no"), Ok(false));
    assert_eq!(confirm(" N\n"), Ok(false));
    assert_eq!(confirm("\n"), Ok(false));
    assert_eq!(confirm(""), Ok(false));
}

#[test]
fn confirm_rejects_other_answers() {
    assert_eq!(confirm(" Maybe\n"), Err("unrecognized option: maybe".to_string()));
    assert_eq!(confirm_answer("yess"), Err("unrecognized option: yess".to_string()));
}

#[test]
fn same_text_compares_characters() {
    assert!(same_text("abc", "abc"));
    assert!(!same_text("abc", "abd"));
    assert!(!same_text("ab", "abc"));
    assert!(same_text("", ""));
}

#[test]
fn parse_usize_follows_std() {
    assert_eq!(parse_usize("42"), Some(42));
    assert_eq!(parse_usize("+7"), Some(7));
    assert_eq!(parse_usize("007"), Some(7));
    assert_eq!(parse_usize(""), None);
    assert_eq!(parse_usize("+"), None);
    assert_eq!(parse_usize("-1"), None);
    assert_eq!(parse_usize("4a"), None);
    assert_eq!(parse_usize("18446744073709551615"), "18446744073709551615".parse::<usize>().ok());
    assert_eq!(parse_usize("18446744073709551616"), None);
    assert_eq!(parse_usize("99999999999999999999999"), None);
}

#[test]
fn multiple_choice_picks_by_number() {
    let choices = vec!["first".to_string(), "second".to_string(), "third".to_string()];
    assert_eq!(multiple_choice(choices, " 2\n"), Ok(Some("second".to_string())));
}

#[test]
fn multiple_choice_empty_answer_or_choices_pick_nothing() {
    assert_eq!(multiple_choice(vec![1, 2], "  \n"), Ok(None));
    assert_eq!(multiple_choice(Vec::<i32>::new(), "1"), Ok(None));
}

#[test]
fn multiple_choice_rejects_out_of_range() {
    assert_eq!(multiple_choice(vec![1, 2], "0"), Err("invalid choice: 0".to_string()));
    assert_eq!(multiple_choice(vec![1, 2], "3\n"), Err("invalid choice: 3".to_string()));
    assert_eq!(multiple_choice(vec![1, 2], " two "), Err("invalid choice: two".to_string()));
}

#[test]
fn metadata_aligns_titles_by_bytes() {
    let printed = Metadata::new()
        .row("Title", Icon::new(CALENDAR), "value".to_string())
        .optional_row("ID", Icon::new(EYE), Some("1".to_string()))
        .optional_row("Skipped", Icon::new(EYE), None)
        .print(2);
    assert_eq!(printed.len(), 2);
    assert_eq!(printed[0].lead, "  ");
    assert_eq!(printed[0].title, "Title");
    assert_eq!(printed[0].value, "value");
    assert_eq!(printed[0].icon.glyph(), CALENDAR);
    assert_eq!(printed[1].title, "ID   ");
    assert_eq!(printed[1].value, "1");
    assert_eq!(printed[1].icon.glyph(), EYE);
}

#[test]
fn metadata_alignment_counts_bytes_pads_chars() {
    let printed = Metadata::new()
        .row("é", Icon::new(EYE), "x".to_string())
        .row("a", Icon::new(EYE), "y".to_string())
        .print(0);
    assert_eq!(printed[0].lead, "");
    assert_eq!(printed[0].title, "é ");
    assert_eq!(printed[1].title, "a ");
}

#[test]
fn heading_is_bold_line() {
    assert_eq!(heading("Posts"), "\x1b[1mPosts\x1b[0m\n");
}

#[test]
fn wrapped_text_fills_to_width() {
    let text = "hello world".to_string();
    assert_eq!(text.wrapped().human_readable(5), Some("hello\nworld\n\n".to_string()));
    assert_eq!(text.wrapped().human_readable(200), Some("hello world\n\n".to_string()));
    assert_eq!(String::new().wrapped().human_readable(80), None);
}

#[test]
fn output_destinations() {
    let both = Output { human_readable: true, json: true };
    assert_eq!(both.destinations(true), Destinations { json: true, human: Some(Stream::Stderr) });
    let json = Output { human_readable: false, json: true };
    assert_eq!(json.destinations(true), Destinations { json: true, human: None });
    let neither = Output { human_readable: false, json: false };
    assert_eq!(neither.destinations(true), Destinations { json: false, human: Some(Stream::Stdout) });
    assert_eq!(neither.destinations(false), Destinations { json: true, human: None });
    let human = Output { human_readable: true, json: false };
    assert_eq!(human.destinations(false), Destinations { json: false, human: Some(Stream::Stdout) });
}

#[test]
fn decimal_writes_numbers() {
    assert_eq!(decimal(0), "0");
    assert_eq!(decimal(7), "7");
    assert_eq!(decimal(1234), "1234");
    assert_eq!(decimal(u64::MAX), u64::MAX.to_string());
}

#[test]
fn bytestrings_below_and_above_a_kibibyte() {
    assert_eq!(0u64.to_bytestring("0"), "0 B");
    assert_eq!(1023u64.to_bytestring("1,023"), "1023 B");
    assert_eq!(2048u64.to_bytestring("2,048"), "2.0 kiB (2,048 bytes)");
    assert_eq!(
        1_500_000u64.to_bytestring("1,500,000"),
        format!("{} (1,500,000 bytes)", bytesize::to_string(1_500_000, true))
    );
}

#[test]
fn lists_number_their_items() {
    let items: Vec<u32> = (0..12).collect();
    let list = items[..].list();
    let digits = list.digits();
    assert_eq!(digits, 2);
    assert_eq!(list.label(0, digits), " 1");
    assert_eq!(list.label(11, digits), "12");
    assert_eq!(list.item_indent(4, digits), 9);
    let single = [5u8];
    assert_eq!(single[..].list().digits(), 1);
    assert_eq!(single[..].list().label(0, 1), "1");
}

#[test]
fn answers_are_trimmed_of_unicode_whitespace() {
    assert_eq!(confirm("\u{3000}y\u{a0}"), Ok(true));
    assert_eq!(multiple_choice(vec![1, 2], "\u{2003}2\t"), Ok(Some(2)));
    assert_eq!(multiple_choice(vec![1, 2], "\u{85} 9 \u{2029}"), Err("invalid choice: 9".to_string()));
}

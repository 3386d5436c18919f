use vstd::prelude::*;
use vstd::string::StrSliceExecFns;
use vstd::string::StringExecFns;

use super::metadata::{pad, spaces, Icon, CLOCK, COMMENT, IMAGE, POUND};
use super::num::{decimal, decimal_spec, digit_char, digit_text};
use super::printer::{glyph_text, piece, pieces_view, Piece, Style};
use crate::model::PostPreview;

verus! {

/// The character of the hexadecimal digit `d`, in lower case.
pub open spec fn hex_char(d: nat) -> char {
    if d < 10 {
        digit_char(d)
    } else if d == 10 {
        'a'
    } else if d == 11 {
        'b'
    } else if d == 12 {
        'c'
    } else if d == 13 {
        'd'
    } else if d == 14 {
        'e'
    } else {
        'f'
    }
}

/// The last `count` hexadecimal digits of `n`, most significant first.
pub open spec fn hex_spec(n: nat, count: nat) -> Seq<char>
    decreases count,
{
    if count == 0 {
        Seq::empty()
    } else {
        hex_spec(n / 16, (count - 1) as nat) + seq![hex_char(n % 16)]
    }
}

/// How an ID is written: its 32 hexadecimal digits in lower case, in groups
/// of 8, 4, 4, 4 and 12 joined by hyphens.
pub open spec fn id_text_spec(id: u128) -> Seq<char> {
    hex_spec(id as nat / 0x1_0000_0000_0000_0000_0000_0000, 8) + "-"@ + hex_spec(
        id as nat / 0x1_0000_0000_0000_0000_0000,
        4,
    ) + "-"@ + hex_spec(id as nat / 0x1_0000_0000_0000_0000, 4) + "-"@ + hex_spec(
        id as nat / 0x1_0000_0000_0000,
        4,
    ) + "-"@ + hex_spec(id as nat, 12)
}

/// The text of one hexadecimal digit.
fn hex_text(d: u128) -> (text: &'static str)
    requires
        d < 16,
    ensures
        text@ == seq![hex_char(d as nat)],
{
    proof {
        reveal_strlit("a");
        reveal_strlit("b");
        reveal_strlit("c");
        reveal_strlit("d");
        reveal_strlit("e");
        reveal_strlit("f");
    }
    if d < 10 {
        digit_text(d as u64)
    } else if d == 10 {
        "a"
    } else if d == 11 {
        "b"
    } else if d == 12 {
        "c"
    } else if d == 13 {
        "d"
    } else if d == 14 {
        "e"
    } else {
        "f"
    }
}

/// The last `count` hexadecimal digits of `n`.
fn hex_digits(n: u128, count: usize) -> (text: String)
    ensures
        text@ == hex_spec(n as nat, count as nat),
    decreases count,
{
    if count == 0 {
        String::new()
    } else {
        hex_digits(n / 16, count - 1).concat(hex_text(n % 16))
    }
}

/// An ID written as `id_text_spec` says.
pub fn id_text(id: u128) -> (text: String)
    ensures
        text@ == id_text_spec(id),
{
    let a = hex_digits(id / 0x1_0000_0000_0000_0000_0000_0000, 8);
    let b = hex_digits(id / 0x1_0000_0000_0000_0000_0000, 4);
    let c = hex_digits(id / 0x1_0000_0000_0000_0000, 4);
    let d = hex_digits(id / 0x1_0000_0000_0000, 4);
    let e = hex_digits(id, 12);
    let text = a.concat("-").concat(b.as_str()).concat("-").concat(c.as_str()).concat("-").concat(d.as_str()).concat(
        "-",
    ).concat(e.as_str());
    proof {
        reveal_strlit("-");
    }
    text
}

/// `n` spaces.
fn indent_text(n: usize) -> (text: String)
    ensures
        text@ == spaces(n as nat),
{
    let blank = String::new();
    let text = pad(blank, n);
    proof {
        assert(Seq::<char>::empty() + spaces(n as nat) =~= spaces(n as nat));
        assert(spaces(0) =~= Seq::<char>::empty());
    }
    text
}

/// The first line that shows a post in a list: its title in bold, or
/// `Untitled` in italics when it has none.
pub open spec fn preview_title(title: Seq<char>) -> Seq<(Style, Seq<char>)> {
    if title.len() == 0 {
        seq![(Style::Italic, "Untitled"@)]
    } else {
        seq![(Style::Bold, title)]
    }
}

/// A labelled value: the icon, a space and the value.
pub open spec fn labelled(icon: char, value: Seq<char>) -> Seq<(Style, Seq<char>)> {
    seq![(Style::Label, seq![icon]), (Style::Plain, " "@), (Style::Secondary, value)]
}

/// The lines that show a post in a list, indented by `indent` after the
/// first: the title; the post's ID; and how many objects and comments it
/// has and `age`, how long ago it was created, two spaces apart.
pub fn preview_lines(preview: &PostPreview, indent: usize, age: &str) -> (lines: Vec<Vec<Piece>>)
    ensures
        lines@.len() == 3,
        pieces_view(lines@[0]@) == preview_title(preview.title@),
        pieces_view(lines@[1]@) == seq![(Style::Plain, spaces(indent as nat))] + labelled(POUND, id_text_spec(preview.id)),
        pieces_view(lines@[2]@) == seq![(Style::Plain, spaces(indent as nat))] + labelled(
            IMAGE,
            decimal_spec(preview.object_count as nat),
        ) + seq![(Style::Plain, "  "@)] + labelled(COMMENT, decimal_spec(preview.comment_count as nat)) + seq![
            (Style::Plain, "  "@),
        ] + labelled(CLOCK, age@),
{
    let mut first: Vec<Piece> = Vec::new();
    if preview.title.as_str().unicode_len() == 0 {
        first.push(piece(Style::Italic, "Untitled"));
    } else {
        first.push(Piece { style: Style::Bold, text: preview.title.clone() });
    }
    let mut second: Vec<Piece> = Vec::new();
    second.push(Piece { style: Style::Plain, text: indent_text(indent) });
    second.push(Piece { style: Style::Label, text: glyph_text(Icon::new(POUND)) });
    second.push(piece(Style::Plain, " "));
    second.push(Piece { style: Style::Secondary, text: id_text(preview.id) });
    let mut third: Vec<Piece> = Vec::new();
    third.push(Piece { style: Style::Plain, text: indent_text(indent) });
    third.push(Piece { style: Style::Label, text: glyph_text(Icon::new(IMAGE)) });
    third.push(piece(Style::Plain, " "));
    third.push(Piece { style: Style::Secondary, text: decimal(preview.object_count as u64) });
    third.push(piece(Style::Plain, "  "));
    third.push(Piece { style: Style::Label, text: glyph_text(Icon::new(COMMENT)) });
    third.push(piece(Style::Plain, " "));
    third.push(Piece { style: Style::Secondary, text: decimal(preview.comment_count as u64) });
    third.push(piece(Style::Plain, "  "));
    third.push(Piece { style: Style::Label, text: glyph_text(Icon::new(CLOCK)) });
    third.push(piece(Style::Plain, " "));
    third.push(Piece { style: Style::Secondary, text: String::from_str(age) });
    proof {
        assert(pieces_view(first@) =~= preview_title(preview.title@));
        assert(pieces_view(second@) =~= seq![(Style::Plain, spaces(indent as nat))] + labelled(
            POUND,
            id_text_spec(preview.id),
        ));
        assert(pieces_view(third@) =~= seq![(Style::Plain, spaces(indent as nat))] + labelled(
            IMAGE,
            decimal_spec(preview.object_count as nat),
        ) + seq![(Style::Plain, "  "@)] + labelled(COMMENT, decimal_spec(preview.comment_count as nat)) + seq![
            (Style::Plain, "  "@),
        ] + labelled(CLOCK, age@));
    }
    let mut lines: Vec<Vec<Piece>> = Vec::new();
    lines.push(first);
    lines.push(second);
    lines.push(third);
    lines
}

} // verus!

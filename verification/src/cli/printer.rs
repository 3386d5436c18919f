use vstd::prelude::*;
use vstd::string::StrSliceExecFns;
use vstd::string::StringExecFns;

use super::metadata::Icon;

verus! {

/// How a piece of text is coloured.
#[derive(Clone, Copy, Debug, PartialEq, Eq, Structural)]
pub enum Style {
    Plain,
    Label,
    Secondary,
    Destructive,
    Bold,
    Italic,
    /// A post's title: italic, in the title colour.
    Title,
    /// A count heading a list.
    Count,
}

/// A piece of a line, with its style.
#[derive(Debug)]
pub struct Piece {
    pub style: Style,
    pub text: String,
}

pub open spec fn piece_view(p: Piece) -> (Style, Seq<char>) {
    (p.style, p.text@)
}

pub open spec fn pieces_view(ps: Seq<Piece>) -> Seq<(Style, Seq<char>)> {
    ps.map_values(|p: Piece| piece_view(p))
}

/// The corner that starts a reply's divider.
pub const CORNER: &'static str = "\u{250c}";

/// The line of a divider.
pub const HORIZONTAL: &'static str = "\u{2500}";

/// The bar that marks each level of nesting.
pub const VERTICAL: &'static str = "\u{2502}";

/// How many `HORIZONTAL`s a divider has.
pub const DIVIDER_LEN: usize = 20;

/// The widest that comment text gets.
pub const MAX_TEXT_WIDTH: usize = 80;

/// nf-md-trash_can
pub const TRASH: &'static str = "\u{f0a7a}";

/// The bars that mark `level` levels of nesting.
pub open spec fn separators(level: nat) -> Seq<(Style, Seq<char>)>
    decreases level,
{
    if level == 0 {
        Seq::empty()
    } else {
        separators((level - 1) as nat) + seq![(Style::Plain, "  "@), (Style::Secondary, VERTICAL@)]
    }
}

/// `n` pieces of the divider's line.
pub open spec fn horizontal(n: nat) -> Seq<(Style, Seq<char>)>
    decreases n,
{
    if n == 0 {
        Seq::empty()
    } else {
        horizontal((n - 1) as nat) + seq![(Style::Secondary, HORIZONTAL@)]
    }
}

/// The divider above a reply at `level` (which is above zero).
pub open spec fn divider_line(level: u8) -> Seq<(Style, Seq<char>)> {
    separators((level - 1) as nat) + seq![(Style::Plain, "  "@), (Style::Secondary, CORNER@)] + horizontal(
        DIVIDER_LEN as nat,
    )
}

/// What `textwrap::wrap` makes of `text` wrapped to `width` columns: its
/// lines.
pub uninterp spec fn wrapped_lines(text: Seq<char>, width: usize) -> Seq<Seq<char>>;

/// `textwrap::wrap(text, width)`: the text broken into lines of at most
/// `width` columns, each copied out. The lines are named.
#[verifier::external_body]
fn wrap(text: &str, width: usize) -> (lines: Vec<String>)
    ensures
        lines@.map_values(|l: String| l@) == wrapped_lines(text@, width),
{
    textwrap::wrap(text, width).into_iter().map(|line| line.into_owned()).collect()
}

pub(crate) fn piece(style: Style, text: &str) -> (p: Piece)
    ensures
        piece_view(p) == (style, text@),
{
    Piece { style, text: String::from_str(text) }
}

/// The pieces of a line of metadata: icons and values, two spaces apart.
pub struct MetadataRow {
    pieces: Vec<Piece>,
    first: bool,
}

impl MetadataRow {
    pub closed spec fn pieces(&self) -> Seq<(Style, Seq<char>)> {
        pieces_view(self.pieces@)
    }

    pub closed spec fn is_first(&self) -> bool {
        self.first
    }

    pub fn new() -> (row: Self)
        ensures
            row.pieces() == Seq::<(Style, Seq<char>)>::empty(),
            row.is_first(),
    {
        let row = MetadataRow { pieces: Vec::new(), first: true };
        proof {
            assert(row.pieces() =~= Seq::<(Style, Seq<char>)>::empty());
        }
        row
    }

    /// Adds `value` after `icon`, two spaces after what came before.
    pub fn push(self, icon: Icon, value: String) -> (row: Self)
        ensures
            !row.is_first(),
            row.pieces() == (if self.is_first() {
                self.pieces()
            } else {
                self.pieces().push((Style::Plain, "  "@))
            }) + seq![(Style::Label, seq![icon@]), (Style::Plain, " "@), (Style::Secondary, value@)],
    {
        let mut row = self;
        let ghost before = row.pieces();
        if row.first {
            row.first = false;
        } else {
            row.pieces.push(piece(Style::Plain, "  "));
        }
        let ghost middle = row.pieces();
        proof {
            assert(middle =~= (if self.is_first() {
                before
            } else {
                before.push((Style::Plain, "  "@))
            }));
        }
        let glyph = glyph_text(icon);
        row.pieces.push(Piece { style: Style::Label, text: glyph });
        row.pieces.push(piece(Style::Plain, " "));
        row.pieces.push(Piece { style: Style::Secondary, text: value });
        proof {
            assert(row.pieces() =~= middle + seq![
                (Style::Label, seq![icon@]),
                (Style::Plain, " "@),
                (Style::Secondary, value@),
            ]);
        }
        row
    }
}

/// The glyph of an icon, as text.
pub(crate) fn glyph_text(icon: Icon) -> (text: String)
    ensures
        text@ == seq![icon@],
{
    let glyph = [icon.glyph()];
    char_text(&glyph)
}

/// `String::from_iter` over the characters of `chars`: the text they make.
#[verifier::external_body]
fn char_text(chars: &[char; 1]) -> (text: String)
    ensures
        text@ == chars@,
{
    chars.iter().collect()
}

/// The lines that show one comment of a thread, nested by its level.
pub struct Printer {
    level: u8,
    lines: Vec<Vec<Piece>>,
}

impl Printer {
    pub closed spec fn level(&self) -> u8 {
        self.level
    }

    pub closed spec fn lines(&self) -> Seq<Seq<(Style, Seq<char>)>> {
        self.lines@.map_values(|l: Vec<Piece>| pieces_view(l@))
    }

    pub fn new(level: u8) -> (printer: Self)
        ensures
            printer.level() == level,
            printer.lines() == Seq::<Seq<(Style, Seq<char>)>>::empty(),
    {
        let printer = Printer { level, lines: Vec::new() };
        proof {
            assert(printer.lines() =~= Seq::<Seq<(Style, Seq<char>)>>::empty());
        }
        printer
    }

    /// The lines, each as its pieces.
    pub fn into_lines(self) -> (lines: Vec<Vec<Piece>>)
        ensures
            lines@.map_values(|l: Vec<Piece>| pieces_view(l@)) == self.lines(),
    {
        self.lines
    }

    /// The bars that mark `level` levels of nesting.
    pub fn indent_with_sep(&self, level: u8) -> (pieces: Vec<Piece>)
        ensures
            pieces_view(pieces@) == separators(level as nat),
    {
        let mut pieces: Vec<Piece> = Vec::new();
        let mut i: u8 = 0;
        proof {
            assert(pieces_view(pieces@) =~= separators(0));
        }
        while i < level
            invariant
                i <= level,
                pieces_view(pieces@) == separators(i as nat),
            decreases level - i,
        {
            let ghost before = pieces@;
            pieces.push(piece(Style::Plain, "  "));
            pieces.push(piece(Style::Secondary, VERTICAL));
            proof {
                assert(pieces_view(pieces@) =~= pieces_view(before) + seq![
                    (Style::Plain, "  "@),
                    (Style::Secondary, VERTICAL@),
                ]);
            }
            i += 1;
        }
        pieces
    }

    /// Adds a line: the bars of this comment's level, then `pieces`.
    pub fn row(&mut self, pieces: Vec<Piece>)
        ensures
            final(self).level() == old(self).level(),
            final(self).lines() == old(self).lines().push(separators(old(self).level() as nat) + pieces_view(pieces@)),
    {
        let mut line = self.indent_with_sep(self.level);
        let ghost bars = line@;
        let mut rest = pieces;
        line.append(&mut rest);
        proof {
            assert(pieces_view(line@) =~= pieces_view(bars) + pieces_view(pieces@));
        }
        let ghost before = self.lines@;
        self.lines.push(line);
        proof {
            assert(self.lines() =~= old(self).lines().push(separators(old(self).level() as nat) + pieces_view(pieces@)));
        }
    }

    /// Adds the divider above a reply; a top-level comment has none.
    pub fn divider(&mut self)
        ensures
            final(self).level() == old(self).level(),
            old(self).level() == 0 ==> final(self).lines() == old(self).lines(),
            old(self).level() > 0 ==> final(self).lines() == old(self).lines().push(divider_line(old(self).level())),
    {
        if self.level == 0 {
            return;
        }
        let mut line = self.indent_with_sep(self.level - 1);
        let ghost bars = pieces_view(line@);
        line.push(piece(Style::Plain, "  "));
        line.push(piece(Style::Secondary, CORNER));
        let ghost head = pieces_view(line@);
        proof {
            assert(head =~= bars + seq![(Style::Plain, "  "@), (Style::Secondary, CORNER@)]);
            assert(pieces_view(line@) =~= head + horizontal(0));
        }
        let mut i: usize = 0;
        while i < DIVIDER_LEN
            invariant
                i <= DIVIDER_LEN,
                pieces_view(line@) == head + horizontal(i as nat),
            decreases DIVIDER_LEN - i,
        {
            let ghost before = line@;
            line.push(piece(Style::Secondary, HORIZONTAL));
            proof {
                assert(pieces_view(line@) =~= pieces_view(before) + seq![(Style::Secondary, HORIZONTAL@)]);
                assert(head + horizontal((i + 1) as nat) =~= head + horizontal(i as nat) + seq![
                    (Style::Secondary, HORIZONTAL@),
                ]);
            }
            i += 1;
        }
        self.lines.push(line);
        proof {
            assert(self.lines() =~= old(self).lines().push(divider_line(old(self).level())));
        }
    }

    /// Adds a line of metadata.
    pub fn metadata(&mut self, row: MetadataRow)
        ensures
            final(self).level() == old(self).level(),
            final(self).lines() == old(self).lines().push(separators(old(self).level() as nat) + row.pieces()),
    {
        self.row(row.pieces);
    }

    /// Adds a comment's text, wrapped to the terminal's width (at most
    /// `MAX_TEXT_WIDTH`), one line per row; a deleted comment's empty text
    /// shows as deleted.
    pub fn text(&mut self, text: &str, terminal_width: usize)
        ensures
            final(self).level() == old(self).level(),
            text@.len() == 0 ==> final(self).lines() == old(self).lines().push(
                separators(old(self).level() as nat) + seq![(Style::Destructive, TRASH@ + " Deleted"@)],
            ),
            text@.len() > 0 ==> ({
                let width = if terminal_width < MAX_TEXT_WIDTH {
                    terminal_width
                } else {
                    MAX_TEXT_WIDTH
                };
                let wrapped = wrapped_lines(text@, width);
                final(self).lines() == old(self).lines() + wrapped.map_values(
                    |l: Seq<char>| separators(old(self).level() as nat) + seq![(Style::Plain, l)],
                )
            }),
    {
        if text.unicode_len() == 0 {
            let mut pieces = Vec::new();
            pieces.push(Piece { style: Style::Destructive, text: String::from_str(TRASH).concat(" Deleted") });
            proof {
                assert(pieces_view(pieces@) =~= seq![(Style::Destructive, TRASH@ + " Deleted"@)]);
            }
            self.row(pieces);
            return;
        }
        let width = if terminal_width < MAX_TEXT_WIDTH {
            terminal_width
        } else {
            MAX_TEXT_WIDTH
        };
        let lines = wrap(text, width);
        let ghost wrapped = wrapped_lines(text@, width);
        let ghost start = self.lines();
        let ghost bars = separators(self.level as nat);
        let n = lines.len();
        proof {
            assert(wrapped.len() == n);
        }
        let mut i: usize = 0;
        while i < n
            invariant
                n == lines@.len(),
                0 <= i <= n,
                wrapped == lines@.map_values(|l: String| l@),
                self.level == old(self).level(),
                self.lines() == start + wrapped.take(i as int).map_values(
                    |l: Seq<char>| bars + seq![(Style::Plain, l)],
                ),
                bars == separators(self.level as nat),
            decreases n - i,
        {
            let line = lines[i].clone();
            proof {
                assert(line@ == wrapped[i as int]);
            }
            let ghost text_line = line@;
            let mut pieces = Vec::new();
            pieces.push(Piece { style: Style::Plain, text: line });
            proof {
                assert(pieces_view(pieces@) =~= seq![(Style::Plain, text_line)]);
            }
            let ghost before = self.lines();
            self.row(pieces);
            proof {
                assert(wrapped.take(i + 1) =~= wrapped.take(i as int).push(wrapped[i as int]));
                assert(self.lines() =~= start + wrapped.take(i + 1).map_values(
                    |l: Seq<char>| bars + seq![(Style::Plain, l)],
                ));
            }
            i += 1;
        }
        proof {
            assert(wrapped.take(n as int) =~= wrapped);
        }
    }
}

} // verus!

use vstd::prelude::*;
use vstd::string::StrSliceExecFns;
use vstd::string::StringExecFns;

verus! {

/// What `textwrap::fill` makes of `text` wrapped to `width` columns.
pub uninterp spec fn filled(text: Seq<char>, width: usize) -> Seq<char>;

/// `textwrap::fill` with `textwrap::Options::new(width)`: the text broken
/// into lines of at most `width` columns. The result is named.
#[verifier::external_body]
pub(crate) fn fill(text: &str, width: usize) -> (wrapped: String)
    ensures
        wrapped@ == filled(text@, width),
{
    textwrap::fill(text, textwrap::Options::new(width))
}

/// The widest that wrapped text gets.
pub const MAX_WIDTH: usize = 80;

/// Text printed as a paragraph wrapped to the terminal.
pub struct WrappedText<'a>(&'a str);

impl<'a> WrappedText<'a> {
    pub closed spec fn text(&self) -> Seq<char> {
        self.0@
    }

    /// The paragraph as printed on a terminal `terminal_width` columns wide:
    /// nothing for empty text; otherwise the text wrapped to the terminal's
    /// width (at most `MAX_WIDTH`), followed by a blank line.
    pub fn human_readable(&self, terminal_width: usize) -> (printed: Option<String>)
        ensures
            self.text().len() == 0 ==> printed is None,
            self.text().len() > 0 ==> (printed matches Some(p) && p@ == filled(
                self.text(),
                if terminal_width < MAX_WIDTH {
                    terminal_width
                } else {
                    MAX_WIDTH
                },
            ) + seq!['\n', '\n']),
    {
        let text = self.0;
        if text.unicode_len() == 0 {
            return None;
        }
        let width = if terminal_width < MAX_WIDTH {
            terminal_width
        } else {
            MAX_WIDTH
        };
        let printed = fill(text, width).concat("\n\n");
        proof {
            reveal_strlit("\n\n");
        }
        Some(printed)
    }
}

/// Strings that can be printed as wrapped paragraphs.
pub trait StringExt {
    fn wrapped(&self) -> WrappedText<'_>;
}

impl StringExt for String {
    fn wrapped(&self) -> (w: WrappedText<'_>)
        ensures
            w.text() == self@,
    {
        WrappedText(self.as_str())
    }
}

} // verus!

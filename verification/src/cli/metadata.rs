use vstd::prelude::*;
use vstd::string::StringExecFns;
use vstd::string::StringSliceAdditionalSpecFns;
use vstd::string::StrSliceExecFns;

use owo_colors::OwoColorize;

verus! {

/// nf-md-calendar
pub const CALENDAR: char = '\u{f00ed}';

/// nf-md-clock
pub const CLOCK: char = '\u{f0954}';

/// nf-md-comment
pub const COMMENT: char = '\u{f017a}';

/// nf-md-file_document
pub const DOCUMENT: char = '\u{f0219}';

/// nf-md-eye
pub const EYE: char = '\u{f0208}';

/// nf-md-file_image
pub const IMAGE: char = '\u{f021f}';

/// nf-md-pencil
pub const PENCIL: char = '\u{f03eb}';

/// nf-md-pound
pub const POUND: char = '\u{f0423}';

/// A glyph shown before a label.
#[derive(Clone, Copy, Debug)]
pub struct Icon(char);

impl View for Icon {
    type V = char;

    closed spec fn view(&self) -> char {
        self.0
    }
}

impl Icon {
    pub fn new(glyph: char) -> (icon: Self)
        ensures
            icon@ == glyph,
    {
        Icon(glyph)
    }

    pub fn glyph(&self) -> (glyph: char)
        ensures
            glyph == self@,
    {
        self.0
    }
}

/// One labelled value.
#[derive(Debug)]
struct Row {
    title: &'static str,
    icon: Icon,
    value: String,
}

/// A row as it is printed: the indentation, the icon, the title padded to
/// the width of the longest title, and the value. The caller styles the
/// icon and the title, and writes "{lead}{icon} {title}  {value}".
#[derive(Debug)]
pub struct PrintedRow {
    pub lead: String,
    pub icon: Icon,
    pub title: String,
    pub value: String,
}

/// Labelled values, printed one per line with their titles aligned.
#[derive(Debug)]
pub struct Metadata {
    rows: Vec<Row>,
    alignment: usize,
}

/// `n` spaces.
pub open spec fn spaces(n: nat) -> Seq<char> {
    Seq::new(n, |i: int| ' ')
}

/// `text` padded with spaces on the right to `width` characters.
pub open spec fn padded(text: Seq<char>, width: nat) -> Seq<char> {
    if text.len() < width {
        text + spaces((width - text.len()) as nat)
    } else {
        text
    }
}

/// The longest title, by its length in bytes.
pub open spec fn widest(titles: Seq<nat>) -> nat
    decreases titles.len(),
{
    if titles.len() == 0 {
        0
    } else {
        let w = widest(titles.drop_last());
        if titles.last() > w {
            titles.last()
        } else {
            w
        }
    }
}

impl Metadata {
    /// The rows, in order: each title, icon and value.
    pub closed spec fn rows(&self) -> Seq<(Seq<char>, char, Seq<char>)> {
        self.rows@.map_values(|r: Row| (r.title@, r.icon@, r.value@))
    }

    /// The width the titles are aligned to: the length in bytes of the
    /// longest title.
    pub closed spec fn alignment(&self) -> nat {
        self.alignment as nat
    }

    pub fn new() -> (metadata: Self)
        ensures
            metadata.rows() == Seq::<(Seq<char>, char, Seq<char>)>::empty(),
            metadata.alignment() == 0,
    {
        let metadata = Metadata { rows: Vec::new(), alignment: 0 };
        proof {
            assert(metadata.rows() =~= Seq::<(Seq<char>, char, Seq<char>)>::empty());
        }
        metadata
    }

    /// Adds a row, widening the alignment to the title's length in bytes.
    pub fn row(self, title: &'static str, icon: Icon, value: String) -> (metadata: Self)
        ensures
            metadata.rows() == self.rows().push((title@, icon@, value@)),
            metadata.alignment() == if title.len() > self.alignment() {
                title.len() as nat
            } else {
                self.alignment()
            },
    {
        let mut this = self;
        let width = title.len();
        if width > this.alignment {
            this.alignment = width;
        }
        this.rows.push(Row { title, icon, value });
        proof {
            assert(this.rows() =~= self.rows().push((title@, icon@, value@)));
        }
        this
    }

    /// Adds a row if there is a value.
    pub fn optional_row(self, title: &'static str, icon: Icon, value: Option<String>) -> (metadata: Self)
        ensures
            match value {
                Some(v) => {
                    &&& metadata.rows() == self.rows().push((title@, icon@, v@))
                    &&& metadata.alignment() == if title.len() > self.alignment() {
                        title.len() as nat
                    } else {
                        self.alignment()
                    }
                },
                None => metadata.rows() == self.rows() && metadata.alignment() == self.alignment(),
            },
    {
        match value {
            Some(value) => self.row(title, icon, value),
            None => self,
        }
    }

    /// The rows as they are printed, indented by `indent` columns, with the
    /// titles padded to the alignment.
    pub fn print(self, indent: usize) -> (printed: Vec<PrintedRow>)
        ensures
            printed@.len() == self.rows().len(),
            forall|i: int|
                0 <= i < printed@.len() ==> {
                    &&& (#[trigger] printed@[i]).lead@ == spaces(indent as nat)
                    &&& printed@[i].icon@ == self.rows()[i].1
                    &&& printed@[i].title@ == padded(self.rows()[i].0, self.alignment())
                    &&& printed@[i].value@ == self.rows()[i].2
                },
    {
        let ghost rows = self.rows();
        let alignment = self.alignment;
        let mut source = self.rows;
        let mut printed: Vec<PrintedRow> = Vec::new();
        let mut i: usize = 0;
        let n = source.len();
        proof {
            assert(rows.len() == n);
        }
        while i < n
            invariant
                n == rows.len(),
                0 <= i <= n,
                source@.len() == n,
                forall|k: int| i <= k < n ==> rows[k] == (#[trigger] source@[k].title@, source@[k].icon@, source@[k].value@),
                printed@.len() == i,
                forall|k: int|
                    0 <= k < i ==> {
                        &&& (#[trigger] printed@[k]).lead@ == spaces(indent as nat)
                        &&& printed@[k].icon@ == rows[k].1
                        &&& printed@[k].title@ == padded(rows[k].0, alignment as nat)
                        &&& printed@[k].value@ == rows[k].2
                    },
            decreases n - i,
        {
            let ghost row = rows[i as int];
            let mut value = String::new();
            std::mem::swap(&mut value, &mut source[i].value);
            let title = source[i].title;
            let icon = source[i].icon;
            let lead = pad(String::new(), indent);
            proof {
                assert(lead@ =~= spaces(indent as nat));
            }
            let title_text = pad(String::from_str(title), alignment);
            proof {
                assert(title_text@ =~= padded(title@, alignment as nat));
            }
            proof {
                assert(value@ == row.2);
                assert(title@ == row.0);
                assert(icon@ == row.1);
            }
            printed.push(PrintedRow { lead, icon, title: title_text, value });
            i += 1;
        }
        printed
    }
}

/// `text` with spaces appended until it is `width` characters long.
pub(crate) fn pad(text: String, width: usize) -> (padded_text: String)
    ensures
        padded_text@ == if text@.len() < width {
            text@ + spaces((width - text@.len()) as nat)
        } else {
            text@
        },
{
    let ghost start = text@;
    let mut out = text;
    let mut len = out.as_str().unicode_len();
    proof {
        reveal_strlit(" ");
        assert(start + spaces(0) =~= start);
    }
    while len < width
        invariant
            len == out@.len(),
            start.len() <= len,
            len <= width || len == start.len(),
            out@ == start + spaces((len - start.len()) as nat),
        decreases width - len,
    {
        out.append(" ");
        proof {
            reveal_strlit(" ");
            assert(out@ =~= start + spaces((len + 1 - start.len()) as nat));
        }
        len += 1;
    }
    proof {
        if start.len() >= width {
            assert(out@ =~= start);
        }
    }
    out
}

/// `owo_colors::OwoColorize::bold`: the text between the ANSI codes that
/// turn bold on and reset the style.
#[verifier::external_body]
fn bold(text: &str) -> (styled: String)
    ensures
        styled@ == seq!['\x1b', '[', '1', 'm'] + text@ + seq!['\x1b', '[', '0', 'm'],
{
    format!("{}", text.bold())
}

/// The line that heads a section: the text in bold.
pub fn heading(text: &str) -> (line: String)
    ensures
        line@ == seq!['\x1b', '[', '1', 'm'] + text@ + seq!['\x1b', '[', '0', 'm', '\n'],
{
    let line = bold(text).concat("\n");
    proof {
        reveal_strlit("\n");
        assert(line@ =~= seq!['\x1b', '[', '1', 'm'] + text@ + seq!['\x1b', '[', '0', 'm', '\n']);
    }
    line
}

} // verus!

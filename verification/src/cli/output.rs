use vstd::prelude::*;

verus! {

/// How results are printed: for people, as JSON, or both.
#[derive(Clone, Copy, Debug)]
pub struct Output {
    pub human_readable: bool,
    pub json: bool,
}

/// A standard output stream.
#[derive(Clone, Copy, Debug, PartialEq, Eq, Structural)]
pub enum Stream {
    Stdout,
    Stderr,
}

/// Where a result goes: whether its JSON goes to standard output, and
/// where its human-readable form goes, if anywhere.
#[derive(Clone, Copy, Debug, PartialEq, Eq, Structural)]
pub struct Destinations {
    pub json: bool,
    pub human: Option<Stream>,
}

impl Output {
    /// Where a result goes when standard output is (or is not) a terminal.
    /// JSON, when asked for, goes to standard output, and a human-readable
    /// form asked for beside it goes to standard error. Otherwise the
    /// human-readable form goes to standard output when asked for or when
    /// that is a terminal, and JSON goes there when it is not.
    pub fn destinations(self, stdout_is_terminal: bool) -> (d: Destinations)
        ensures
            self.json ==> d == (Destinations {
                json: true,
                human: if self.human_readable {
                    Some(Stream::Stderr)
                } else {
                    None
                },
            }),
            !self.json && (self.human_readable || stdout_is_terminal) ==> d == (Destinations {
                json: false,
                human: Some(Stream::Stdout),
            }),
            !self.json && !self.human_readable && !stdout_is_terminal ==> d == (Destinations {
                json: true,
                human: None,
            }),
    {
        if self.json {
            Destinations {
                json: true,
                human: if self.human_readable {
                    Some(Stream::Stderr)
                } else {
                    None
                },
            }
        } else if self.human_readable || stdout_is_terminal {
            Destinations { json: false, human: Some(Stream::Stdout) }
        } else {
            Destinations { json: true, human: None }
        }
    }
}

} // verus!

pub mod ask;
pub mod bytes;
pub mod credentials;
pub mod file;
pub mod list;
pub mod metadata;
pub mod num;
pub mod output;
pub mod post_view;
pub mod preview;
pub mod printer;
pub mod query;
pub mod text;

use vstd::prelude::*;

verus! {

/// What to remove from the signed-in user's profile.
#[derive(Clone, Debug, PartialEq, Eq)]
pub enum MeRm {
    /// Remove an alias (chosen interactively when not given).
    Alias { alias: Option<String> },
    /// Remove links.
    Link { sources: Vec<String> },
}

/// What to remove from a tag's profile.
#[derive(Clone, Debug, PartialEq, Eq)]
pub enum TagRm {
    /// Remove an alias (chosen interactively when not given).
    Alias { alias: Option<String> },
    /// Remove links.
    Link { sources: Vec<String> },
}

} // verus!

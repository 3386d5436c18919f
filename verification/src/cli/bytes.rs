use vstd::prelude::*;
use vstd::string::StringExecFns;

use super::num::{decimal, decimal_spec};

verus! {

/// Sizes below this many bytes are printed as a plain count.
pub const KIB: u64 = 1024;

/// What `bytesize::to_string` with binary prefixes makes of a size.
pub uninterp spec fn binary_size(bytes: u64) -> Seq<char>;

/// `bytesize::to_string(bytes, true)`: the size with a binary prefix
/// ("1.0 KiB"); the text is named.
#[verifier::external_body]
fn binary_size_text(bytes: u64) -> (text: String)
    ensures
        text@ == binary_size(bytes),
{
    bytesize::to_string(bytes, true)
}

/// How a size in bytes is printed, given the count of bytes as grouped by
/// the reader's locale: below `KIB`, the count and " B"; otherwise the size
/// with a binary prefix, then the grouped count in parentheses.
pub open spec fn bytestring_spec(bytes: u64, grouped: Seq<char>) -> Seq<char> {
    if bytes < KIB {
        decimal_spec(bytes as nat) + " B"@
    } else {
        binary_size(bytes) + " ("@ + grouped + " bytes)"@
    }
}

/// Sizes in bytes, for people.
pub trait ByteSize {
    /// The size as printed (see `bytestring_spec`), where `grouped` is the
    /// count of bytes grouped by the reader's locale.
    fn to_bytestring(self, grouped: &str) -> String;
}

impl ByteSize for u64 {
    fn to_bytestring(self, grouped: &str) -> (text: String)
        ensures
            text@ == bytestring_spec(self, grouped@),
    {
        if self < KIB {
            decimal(self).concat(" B")
        } else {
            binary_size_text(self).concat(" (").concat(grouped).concat(" bytes)")
        }
    }
}

} // verus!

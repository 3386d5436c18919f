use vstd::prelude::*;
use vstd::string::StringExecFns;
use vstd::string::StrSliceExecFns;

use super::metadata::spaces;
use super::num::{decimal, decimal_spec};

verus! {

/// What stands between an item's number and the item.
pub const SEPARATOR: &'static str = " \u{00b7} ";

/// The width of `SEPARATOR`, in columns.
pub const SEPARATOR_LEN: usize = 3;

/// Items printed one after another, each after its number.
pub struct List<'a, T>(&'a [T]);

/// Slices that can be printed as numbered lists.
pub trait SliceExt {
    type Output;

    fn list(&self) -> List<'_, Self::Output>;
}

impl<T> SliceExt for [T] {
    type Output = T;

    fn list(&self) -> (list: List<'_, T>)
        ensures
            list.items() == self@,
    {
        List(self)
    }
}

/// `text` padded with spaces on the left to `width` characters.
pub open spec fn right_aligned(text: Seq<char>, width: nat) -> Seq<char> {
    if text.len() < width {
        spaces((width - text.len()) as nat) + text
    } else {
        text
    }
}

proof fn lemma_decimal_le(n: nat)
    requires
        n >= 1,
    ensures
        decimal_spec(n).len() <= n,
    decreases n,
{
    lemma_decimal_len(n);
    if n >= 10 {
        lemma_decimal_le(n / 10);
    }
}

proof fn lemma_decimal_len(n: nat)
    ensures
        decimal_spec(n).len() >= 1,
        n < 10 ==> decimal_spec(n).len() == 1,
        n >= 10 ==> decimal_spec(n).len() == decimal_spec(n / 10).len() + 1,
    decreases n,
{
    if n >= 10 {
        lemma_decimal_len(n / 10);
    }
}

impl<'a, T> List<'a, T> {
    pub closed spec fn items(&self) -> Seq<T> {
        self.0@
    }

    /// How many columns the numbers take: the digits of the largest.
    pub fn digits(&self) -> (d: usize)
        requires
            self.items().len() > 0,
        ensures
            d == decimal_spec(self.items().len()).len(),
    {
        let mut n = self.0.len();
        let mut d: usize = 1;
        proof {
            lemma_decimal_len(n as nat);
            lemma_decimal_le(n as nat);
        }
        while n >= 10
            invariant
                1 <= d,
                n >= 1,
                d + decimal_spec(n as nat).len() - 1 == decimal_spec(self.items().len()).len(),
                decimal_spec(self.items().len()).len() <= usize::MAX,
            decreases n,
        {
            proof {
                lemma_decimal_len(n as nat);
                lemma_decimal_len((n / 10) as nat);
            }
            n = n / 10;
            d = d + 1;
        }
        proof {
            lemma_decimal_len(n as nat);
        }
        d
    }

    /// The number of item `i`, counted from 1, right-aligned to `digits`
    /// columns.
    pub fn label(&self, i: usize, digits: usize) -> (label: String)
        requires
            i < self.items().len(),
        ensures
            label@ == right_aligned(decimal_spec((i + 1) as nat), digits as nat),
    {
        proof {
            // A slice's length fits in a `usize`.
            assert(self.0@.len() == self.0.len());
        }
        let number = decimal((i + 1) as u64);
        let len = number.as_str().unicode_len();
        let mut label = String::new();
        let mut k: usize = len;
        proof {
            reveal_strlit(" ");
            assert(label@ =~= spaces(0));
        }
        while k < digits
            invariant
                len == number@.len(),
                len <= k,
                k <= digits || k == len,
                label@ == spaces((k - len) as nat),
            decreases digits - k,
        {
            label.append(" ");
            proof {
                reveal_strlit(" ");
                assert(label@ =~= spaces((k + 1 - len) as nat));
            }
            k += 1;
        }
        let label = label.concat(number.as_str());
        proof {
            if len >= digits {
                assert(label@ =~= number@);
            }
        }
        label
    }

    /// Where the lines of an item start: after its number and the
    /// separator.
    pub fn item_indent(&self, indent: usize, digits: usize) -> (item_indent: usize)
        requires
            indent + digits + SEPARATOR_LEN <= usize::MAX,
        ensures
            item_indent == indent + digits + SEPARATOR_LEN,
    {
        indent + digits + SEPARATOR_LEN
    }
}

} // verus!

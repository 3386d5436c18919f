use vstd::prelude::*;
use vstd::string::StrSliceExecFns;
use vstd::string::StringExecFns;

verus! {

/// Whether `c` is whitespace: Unicode's `White_Space` property, which
/// `char::is_whitespace` documents as these code points.
pub open spec fn is_white_space(c: char) -> bool {
    let n = c as u32;
    ||| 0x9 <= n <= 0xd
    ||| n == 0x20
    ||| n == 0x85
    ||| n == 0xa0
    ||| n == 0x1680
    ||| 0x2000 <= n <= 0x200a
    ||| n == 0x2028
    ||| n == 0x2029
    ||| n == 0x202f
    ||| n == 0x205f
    ||| n == 0x3000
}

/// `s` without its leading whitespace.
pub open spec fn trim_start(s: Seq<char>) -> Seq<char>
    decreases s.len(),
{
    if s.len() > 0 && is_white_space(s[0]) {
        trim_start(s.drop_first())
    } else {
        s
    }
}

/// `s` without its trailing whitespace.
pub open spec fn trim_end(s: Seq<char>) -> Seq<char>
    decreases s.len(),
{
    if s.len() > 0 && is_white_space(s.last()) {
        trim_end(s.drop_last())
    } else {
        s
    }
}

/// What `str::trim` leaves of a string: the string without its leading and
/// trailing whitespace.
pub open spec fn trimmed(s: Seq<char>) -> Seq<char> {
    trim_end(trim_start(s))
}

/// What `str::to_lowercase` makes of a string.
pub uninterp spec fn lowercase(s: Seq<char>) -> Seq<char>;

/// `str::trim`: the string without its leading and trailing whitespace,
/// whitespace being what Unicode's `White_Space` property holds.
#[verifier::external_body]
fn trim(s: &str) -> (t: &str)
    ensures
        t@ == trimmed(s@),
{
    s.trim()
}

/// `str::to_lowercase`: the string in lower case, by Unicode's mappings,
/// which are left to the name `lowercase`.
#[verifier::external_body]
fn to_lowercase(s: &str) -> (l: String)
    ensures
        l@ == lowercase(s@),
{
    s.to_lowercase()
}

/// Whether two strings hold the same characters.
pub fn same_text(a: &str, b: &str) -> (same: bool)
    ensures
        same == (a@ == b@),
{
    let n = a.unicode_len();
    if n != b.unicode_len() {
        return false;
    }
    let mut i: usize = 0;
    while i < n
        invariant
            n == a@.len(),
            n == b@.len(),
            0 <= i <= n,
            forall|k: int| 0 <= k < i ==> a@[k] == b@[k],
        decreases n - i,
    {
        if a.get_char(i) != b.get_char(i) {
            return false;
        }
        i += 1;
    }
    proof {
        assert(a@ =~= b@);
    }
    true
}

/// What a confirmation answer (already trimmed and lower-cased) means: no
/// answer and "no"/"n" decline, "yes"/"y" confirm, anything else is an
/// error that quotes it.
pub open spec fn answer_spec(answer: Seq<char>) -> Result<bool, Seq<char>> {
    if answer.len() == 0 {
        Ok(false)
    } else if answer == "yes"@ || answer == "y"@ {
        Ok(true)
    } else if answer == "no"@ || answer == "n"@ {
        Ok(false)
    } else {
        Err("unrecognized option: "@ + answer)
    }
}

/// A result with its message taken by its characters.
pub open spec fn text_result<T>(r: Result<T, String>) -> Result<T, Seq<char>> {
    match r {
        Ok(v) => Ok(v),
        Err(e) => Err(e@),
    }
}

/// Reads a confirmation answer that is already trimmed and lower-cased.
pub fn confirm_answer(answer: &str) -> (confirmed: Result<bool, String>)
    ensures
        text_result(confirmed) == answer_spec(answer@),
{
    if answer.unicode_len() == 0 {
        Ok(false)
    } else if same_text(answer, "yes") || same_text(answer, "y") {
        Ok(true)
    } else if same_text(answer, "no") || same_text(answer, "n") {
        Ok(false)
    } else {
        Err(String::from_str("unrecognized option: ").concat(answer))
    }
}

/// Reads the line typed in answer to a yes/no prompt: it is trimmed and
/// lower-cased, then read by `answer_spec`.
pub fn confirm(line: &str) -> (confirmed: Result<bool, String>)
    ensures
        text_result(confirmed) == answer_spec(lowercase(trimmed(line@))),
{
    let lowered = to_lowercase(trim(line));
    confirm_answer(lowered.as_str())
}

/// Whether every character of `s` is an ASCII digit.
pub open spec fn all_digits(s: Seq<char>) -> bool {
    forall|i: int| 0 <= i < s.len() ==> '0' <= #[trigger] s[i] <= '9'
}

/// The number that the decimal digits `s` write.
pub open spec fn digits_value(s: Seq<char>) -> int
    decreases s.len(),
{
    if s.len() == 0 {
        0
    } else {
        digits_value(s.drop_last()) * 10 + (s.last() as int - '0' as int)
    }
}

/// What parsing `s` as a `usize` gives: an optional `+` followed by at least
/// one decimal digit, whose value fits.
pub open spec fn parse_usize_spec(s: Seq<char>) -> Option<usize> {
    let digits = if s.len() > 0 && s[0] == '+' {
        s.drop_first()
    } else {
        s
    };
    if digits.len() > 0 && all_digits(digits) && digits_value(digits) <= usize::MAX {
        Some(digits_value(digits) as usize)
    } else {
        None
    }
}

proof fn lemma_digits_value_grows(s: Seq<char>, k: int)
    requires
        all_digits(s),
        0 <= k <= s.len(),
    ensures
        0 <= digits_value(s.take(k)) <= digits_value(s),
    decreases s.len(),
{
    if s.len() > 0 {
        if k == s.len() {
            assert(s.take(k) =~= s);
            lemma_digits_value_grows(s.drop_last(), s.len() - 1);
            assert(s.drop_last().take(s.len() - 1) =~= s.drop_last());
        } else {
            assert(all_digits(s.drop_last()));
            lemma_digits_value_grows(s.drop_last(), k);
            assert(s.drop_last().take(k) =~= s.take(k));
            lemma_digits_value_grows(s.drop_last(), s.len() - 1);
            assert(s.drop_last().take(s.len() - 1) =~= s.drop_last());
        }
    } else {
        assert(s.take(k) =~= s);
    }
}

/// Parses `s` as a `usize`, as `str::parse` does: an optional `+` and at
/// least one decimal digit, with a value that fits.
pub fn parse_usize(s: &str) -> (n: Option<usize>)
    ensures
        n == parse_usize_spec(s@),
{
    let len = s.unicode_len();
    let start: usize = if len > 0 && s.get_char(0) == '+' {
        1
    } else {
        0
    };
    let ghost digits = if s@.len() > 0 && s@[0] == '+' {
        s@.drop_first()
    } else {
        s@
    };
    proof {
        assert(digits =~= s@.skip(start as int));
    }
    if start == len {
        return None;
    }
    let mut i: usize = start;
    while i < len
        invariant
            len == s@.len(),
            start <= i <= len,
            digits =~= s@.skip(start as int),
            digits == (if s@.len() > 0 && s@[0] == '+' { s@.drop_first() } else { s@ }),
            forall|k: int| 0 <= k < i - start ==> '0' <= #[trigger] digits[k] <= '9',
        decreases len - i,
    {
        let c = s.get_char(i);
        if c < '0' || c > '9' {
            proof {
                assert(digits[i - start] == c);
                assert(!all_digits(digits));
            }
            return None;
        }
        i += 1;
    }
    proof {
        assert(all_digits(digits));
    }
    let mut value: usize = 0;
    let mut j: usize = start;
    while j < len
        invariant
            len == s@.len(),
            start <= j <= len,
            digits =~= s@.skip(start as int),
            digits == (if s@.len() > 0 && s@[0] == '+' { s@.drop_first() } else { s@ }),
            all_digits(digits),
            value == digits_value(digits.take(j - start)),
        decreases len - j,
    {
        let c = s.get_char(j);
        let d: usize = if c == '0' { 0 } else if c == '1' { 1 } else if c == '2' { 2 } else if c == '3' { 3 } else if c == '4' { 4 } else if c == '5' { 5 } else if c == '6' { 6 } else if c == '7' { 7 } else if c == '8' { 8 } else { 9 };
        let ghost next = digits.take(j - start + 1);
        proof {
            assert(c == digits[j - start]);
            assert(next.drop_last() =~= digits.take(j - start));
            assert(next.last() == c);
            assert(d == c as int - '0' as int);
        }
        let grown = match value.checked_mul(10) {
            Some(v) => v.checked_add(d),
            None => None,
        };
        match grown {
            Some(v) => {
                value = v;
            },
            None => {
                proof {
                    assert(digits_value(next) == value * 10 + d);
                    assert(digits_value(next) > usize::MAX);
                    lemma_digits_value_grows(digits, j - start + 1);
                }
                return None;
            },
        }
        j += 1;
    }
    proof {
        assert(digits.take(j - start) =~= digits);
    }
    Some(value)
}

/// Which choice (by index) a trimmed, non-empty answer picks among `len`
/// choices numbered from 1, if it picks one.
pub open spec fn pick_spec(len: nat, answer: Seq<char>) -> Option<int> {
    match parse_usize_spec(answer) {
        Some(n) => if 1 <= n <= len {
            Some(n - 1)
        } else {
            None
        },
        None => None,
    }
}

/// Takes the choice that the line typed in answer to a numbered list of
/// `choices` picks. No choices, or an empty answer, pick nothing; an answer
/// that is not the number of a choice is an error that quotes it.
pub fn multiple_choice<T>(choices: Vec<T>, line: &str) -> (choice: Result<Option<T>, String>)
    ensures
        choices@.len() == 0 ==> choice matches Ok(None),
        choices@.len() > 0 && trimmed(line@).len() == 0 ==> choice matches Ok(None),
        choices@.len() > 0 && trimmed(line@).len() > 0 ==> match pick_spec(choices@.len(), trimmed(line@)) {
            Some(i) => choice matches Ok(Some(c)) && c == choices@[i],
            None => choice matches Err(e) && e@ == "invalid choice: "@ + trimmed(line@),
        },
{
    if choices.len() == 0 {
        return Ok(None);
    }
    let answer = trim(line);
    if answer.unicode_len() == 0 {
        return Ok(None);
    }
    let mut choices = choices;
    match parse_usize(answer) {
        Some(n) => {
            if n >= 1 && n <= choices.len() {
                let chosen = choices.remove(n - 1);
                Ok(Some(chosen))
            } else {
                Err(String::from_str("invalid choice: ").concat(answer))
            }
        },
        None => Err(String::from_str("invalid choice: ").concat(answer)),
    }
}

} // verus!

use vstd::prelude::*;
use vstd::string::*;

verus! {

/// Whether `s` has at least two characters and both its first and last one
/// are double quotes.
pub open spec fn is_quoted(s: Seq<char>) -> bool {
    &&& s.len() >= 2
    &&& s[0] == '"'
    &&& s[s.len() - 1] == '"'
}

/// Wraps `s` into double quotes.
pub fn add_quotes_around(s: &str) -> (r: String)
    ensures
        r@ == seq!['"'] + s@ + seq!['"'],
{
    let r = String::from_str("\"").concat(s).concat("\"");
    proof {
        reveal_strlit("\"");
    }
    r
}

/// Drops the first and the last character of `s`, which are expected to be
/// the double quotes around a quoted text; a text of fewer than two
/// characters gives the empty text.
pub fn remove_quotes_around(s: &str) -> (r: String)
    ensures
        r@ == if s@.len() >= 2 {
            s@.subrange(1, s@.len() - 1)
        } else {
            Seq::empty()
        },
{
    let n = s.unicode_len();
    if n < 2 {
        return String::new();
    }
    String::from_str(s.substring_char(1, n - 1))
}

/// Removes the double quotes around `s` when it is quoted, and otherwise
/// returns it unchanged.
pub fn maybe_remove_quotes_around(s: &str) -> (r: String)
    ensures
        r@ == if is_quoted(s@) {
            s@.subrange(1, s@.len() - 1)
        } else {
            s@
        },
{
    let n = s.unicode_len();
    if n >= 2 && s.get_char(0) == '"' && s.get_char(n - 1) == '"' {
        remove_quotes_around(s)
    } else {
        String::from_str(s)
    }
}

} // verus!

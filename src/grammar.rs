//! The grammar of the text: what each token is, how tokens open and close
//! groups, and what a whole text decodes to.
use vstd::prelude::*;
use crate::classify::{
    fits_i64, integer_text_value, is_digit, is_ident_char, is_real_text, is_space, is_word_char,
    unescape,
};
use crate::lisp::{Error, Sexp};

verus! {

/// One lexical unit of the input, as the grammar reads it.
pub enum Token {
    /// An opening bracket, with the bracket that closes it.
    Open(char),
    /// A closing bracket.
    Close(char),
    /// A dot standing alone.
    Dot,
    /// A string, symbol or number.
    Atom(Sexp),
    /// A malformed string or number, or a character that cannot start a
    /// value.
    Bad(Error),
}

/// How many characters that may stand in a symbol follow one another in
/// `s` from position `i` on.
pub open spec fn ident_run(s: Seq<char>, i: int) -> nat
    decreases s.len() - i,
{
    if 0 <= i < s.len() && is_ident_char(s[i]) {
        1 + ident_run(s, i + 1)
    } else {
        0
    }
}

/// How many characters that may stand in a number follow one another in
/// `s` from position `i` on.
pub open spec fn word_run(s: Seq<char>, i: int) -> nat
    decreases s.len() - i,
{
    if 0 <= i < s.len() && is_word_char(s[i]) {
        1 + word_run(s, i + 1)
    } else {
        0
    }
}

/// The rest of a string literal whose opening quote stands before position
/// `i`: the decoded contents and the position after the closing quote, or
/// `None` when the input ends first.
pub open spec fn string_body(s: Seq<char>, i: int) -> Option<(Seq<char>, int)>
    decreases s.len() - i,
{
    if i < 0 || i >= s.len() {
        None
    } else if s[i] == '"' {
        Some((Seq::empty(), i + 1))
    } else if s[i] == '\\' {
        if i + 1 >= s.len() {
            None
        } else {
            prefixed(seq![unescape(s[i + 1])], string_body(s, i + 2))
        }
    } else {
        prefixed(seq![s[i]], string_body(s, i + 1))
    }
}

/// `r` with `acc` put before the decoded contents.
pub open spec fn prefixed(acc: Seq<char>, r: Option<(Seq<char>, int)>) -> Option<(Seq<char>, int)> {
    match r {
        Some((t, end)) => Some((acc + t, end)),
        None => None,
    }
}

/// What a token that starts with a digit or a minus sign is: a real number
/// when it holds a dot, an integer when it is one that fits in an `i64`,
/// and a symbol otherwise.
pub open spec fn number_or_symbol(w: Seq<char>) -> Token {
    if w.contains('.') {
        if is_real_text(w) {
            Token::Atom(Sexp::Real(w))
        } else {
            Token::Bad(Error::InvalidNumber)
        }
    } else {
        match integer_text_value(w) {
            Some(n) => if fits_i64(n) {
                Token::Atom(Sexp::Int(n))
            } else {
                Token::Atom(Sexp::Sym(w))
            },
            None => Token::Atom(Sexp::Sym(w)),
        }
    }
}

/// The token that starts at position `i`, which holds no whitespace, and
/// the position after it.
pub open spec fn token_at(s: Seq<char>, i: int) -> (Token, int) {
    let c = s[i];
    if c == '(' {
        (Token::Open(')'), i + 1)
    } else if c == '[' {
        (Token::Open(']'), i + 1)
    } else if c == ')' || c == ']' {
        (Token::Close(c), i + 1)
    } else if c == '.' {
        (Token::Dot, i + 1)
    } else if c == '"' {
        match string_body(s, i + 1) {
            Some((t, end)) => (Token::Atom(Sexp::Str(t)), end),
            None => (Token::Bad(Error::UnbalancedExpr), s.len() as int),
        }
    } else if is_digit(c) || c == '-' {
        let end = i + word_run(s, i);
        (number_or_symbol(s.subrange(i, end)), end)
    } else if is_ident_char(c) {
        let end = i + ident_run(s, i);
        (Token::Atom(Sexp::Sym(s.subrange(i, end))), end)
    } else {
        (Token::Bad(Error::UnbalancedExpr), i + 1)
    }
}

/// A group that is open while the input is read, innermost last.
pub enum Frame {
    /// A group opened by a bracket, closed by `close`, with the elements
    /// read so far.
    Items { close: char, items: Seq<Sexp> },
    /// A group in which a dot was read after `car`, waiting for the value
    /// after the dot.
    Dotted { close: char, car: Sexp },
    /// A dotted pair whose two sides are complete, waiting for `close`.
    Pair { close: char, car: Sexp, cdr: Sexp },
}

/// What one token does: end the reading with a result, or leave these
/// groups open.
pub enum Step {
    Done(Result<Sexp, Error>),
    Next(Seq<Frame>),
}

/// A complete value `v` goes to the innermost open group, or is the result
/// when no group is open.
pub open spec fn deliver(stack: Seq<Frame>, v: Sexp) -> Step {
    if stack.len() == 0 {
        Step::Done(Ok(v))
    } else {
        let rest = stack.drop_last();
        match stack.last() {
            Frame::Items { close, items } => Step::Next(
                rest.push(Frame::Items { close, items: items.push(v) }),
            ),
            Frame::Dotted { close, car } => Step::Next(rest.push(Frame::Pair { close, car, cdr: v })),
            Frame::Pair { .. } => Step::Done(Err(Error::UnexpectedDot)),
        }
    }
}

/// The left side of a dotted pair whose dot follows `items`: the one item,
/// or the list of all of them.
pub open spec fn car_of(items: Seq<Sexp>) -> Sexp {
    if items.len() == 1 {
        items[0]
    } else {
        Sexp::List(items)
    }
}

/// How the token `tok` changes the open groups `stack`.
pub open spec fn step(stack: Seq<Frame>, tok: Token) -> Step {
    match tok {
        Token::Bad(e) => Step::Done(Err(e)),
        Token::Atom(v) => deliver(stack, v),
        Token::Open(close) => if stack.len() > 0 && stack.last() is Pair {
            Step::Done(Err(Error::UnexpectedDot))
        } else {
            Step::Next(stack.push(Frame::Items { close, items: Seq::empty() }))
        },
        Token::Close(c) => if stack.len() == 0 {
            Step::Done(Err(Error::UnbalancedExpr))
        } else {
            match stack.last() {
                Frame::Items { close, items } => if c == close {
                    deliver(stack.drop_last(), Sexp::List(items))
                } else {
                    Step::Done(Err(Error::UnbalancedExpr))
                },
                Frame::Dotted { .. } => Step::Done(Err(Error::UnexpectedDot)),
                Frame::Pair { close, car, cdr } => if c == close {
                    deliver(stack.drop_last(), Sexp::Cons(Box::new(car), Box::new(cdr)))
                } else {
                    Step::Done(Err(Error::UnbalancedExpr))
                },
            }
        },
        Token::Dot => if stack.len() == 0 {
            Step::Done(Err(Error::UnexpectedDot))
        } else {
            match stack.last() {
                Frame::Items { close, items } => if items.len() == 0 {
                    Step::Done(Err(Error::UnexpectedDot))
                } else {
                    Step::Next(stack.drop_last().push(Frame::Dotted { close, car: car_of(items) }))
                },
                _ => Step::Done(Err(Error::UnexpectedDot)),
            }
        },
    }
}

/// The error when the input ends with the groups `stack` open.
pub open spec fn end_error(stack: Seq<Frame>) -> Error {
    if stack.len() == 0 || stack.last() is Dotted {
        Error::EndOfInput
    } else {
        Error::UnbalancedExpr
    }
}

/// The result of reading `s` from position `i` on, with the groups `stack`
/// open.
pub open spec fn read(s: Seq<char>, i: int, stack: Seq<Frame>) -> Result<Sexp, Error>
    decreases s.len() - i,
{
    if i < 0 || i >= s.len() {
        Err(end_error(stack))
    } else if is_space(s[i]) {
        read(s, i + 1, stack)
    } else {
        let (tok, end) = token_at(s, i);
        match step(stack, tok) {
            Step::Done(r) => r,
            Step::Next(next) => {
                proof {
                    lemma_token_advances(s, i);
                }
                read(s, end, next)
            },
        }
    }
}

/// Where reading `s` from position `i` on, with the groups `stack` open,
/// stops: just after the token that completes the result.
pub open spec fn read_end(s: Seq<char>, i: int, stack: Seq<Frame>) -> int
    decreases s.len() - i,
{
    if i < 0 || i >= s.len() {
        i
    } else if is_space(s[i]) {
        read_end(s, i + 1, stack)
    } else {
        let (tok, end) = token_at(s, i);
        match step(stack, tok) {
            Step::Done(_) => end,
            Step::Next(next) => {
                proof {
                    lemma_token_advances(s, i);
                }
                read_end(s, end, next)
            },
        }
    }
}

/// The value that the text `s` starts with: whitespace is skipped, one value
/// is read, and what follows it is not looked at.
pub open spec fn parse(s: Seq<char>) -> Result<Sexp, Error> {
    read(s, 0, Seq::empty())
}

/// Whitespace changes nothing in what is read.
pub proof fn lemma_read_skips(s: Seq<char>, i: int, j: int, stack: Seq<Frame>)
    requires
        0 <= i <= j <= s.len(),
        forall|k: int| i <= k < j ==> is_space(#[trigger] s[k]),
    ensures
        read(s, i, stack) == read(s, j, stack),
        read_end(s, i, stack) == read_end(s, j, stack),
    decreases j - i,
{
    if i < j {
        lemma_read_skips(s, i + 1, j, stack);
    }
}

pub proof fn lemma_ident_run_bound(s: Seq<char>, i: int)
    requires
        0 <= i <= s.len(),
    ensures
        i + ident_run(s, i) <= s.len(),
    decreases s.len() - i,
{
    if i < s.len() {
        lemma_ident_run_bound(s, i + 1);
    }
}

pub proof fn lemma_word_run_bound(s: Seq<char>, i: int)
    requires
        0 <= i <= s.len(),
    ensures
        i + word_run(s, i) <= s.len(),
    decreases s.len() - i,
{
    if i < s.len() {
        lemma_word_run_bound(s, i + 1);
    }
}

proof fn lemma_string_body_bound(s: Seq<char>, i: int)
    requires
        0 <= i,
    ensures
        string_body(s, i) matches Some((_, end)) ==> i < end <= s.len(),
    decreases s.len() - i,
{
    if 0 <= i < s.len() && s[i] != '"' {
        if s[i] == '\\' {
            if i + 1 < s.len() {
                lemma_string_body_bound(s, i + 2);
            }
        } else {
            lemma_string_body_bound(s, i + 1);
        }
    }
}

/// Every token takes at least one character and ends within the input.
pub proof fn lemma_token_advances(s: Seq<char>, i: int)
    requires
        0 <= i < s.len(),
    ensures
        i < token_at(s, i).1 <= s.len(),
{
    lemma_string_body_bound(s, i + 1);
    lemma_word_run_bound(s, i);
    lemma_ident_run_bound(s, i);
    reveal_with_fuel(word_run, 2);
    reveal_with_fuel(ident_run, 2);
}

} // verus!

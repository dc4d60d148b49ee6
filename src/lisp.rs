//! Decoded values of the Lisp-like text, and the entry point that decodes
//! one.
use vstd::prelude::*;
use crate::grammar::parse;
use crate::parser::Parser;

verus! {

/// The mathematical content of a decoded [`Value`]: texts are character
/// sequences and integers are mathematical integers.
pub enum Sexp {
    Str(Seq<char>),
    Sym(Seq<char>),
    Int(int),
    Real(Seq<char>),
    List(Seq<Sexp>),
    Cons(Box<Sexp>, Box<Sexp>),
    Nil,
}

/// A decoded expression.
#[derive(Debug, PartialEq)]
pub enum Value {
    /// The contents of a double-quoted literal, escapes already decoded.
    String(String),
    /// A dotted pair: what stood before the dot, and the value after it.
    Cons(Box<Value>, Box<Value>),
    /// A token without a dot that is an `i64`.
    Integer(i64),
    /// A real number, kept as the literal text it was written with (for
    /// instance `-6.7`); its numeric value is what reading that text as a
    /// 64-bit float gives.
    Real(String),
    /// An unquoted token that is no number.
    Symbol(String),
    /// The elements of a `( ... )` list or of a `[ ... ]` vector.
    List(Vec<Value>),
    /// The empty value. Decoding never yields it: the store's null stands
    /// for it.
    Nil,
}

impl View for Value {
    type V = Sexp;

    open spec fn view(&self) -> Sexp
        decreases self,
    {
        match self {
            Value::String(s) => Sexp::Str(s@),
            Value::Cons(a, b) => Sexp::Cons(Box::new((**a).view()), Box::new((**b).view())),
            Value::Integer(n) => Sexp::Int(*n as int),
            Value::Real(t) => Sexp::Real(t@),
            Value::Symbol(s) => Sexp::Sym(s@),
            Value::List(items) => Sexp::List(views(items@)),
            Value::Nil => Sexp::Nil,
        }
    }
}

/// The views of a sequence of values, in order.
pub open spec fn views(vs: Seq<Value>) -> Seq<Sexp>
    decreases vs,
{
    if vs.len() == 0 {
        Seq::empty()
    } else {
        views(vs.drop_last()).push(vs.last().view())
    }
}

impl Value {
    /// The text of a symbol or a string.
    pub fn text(self) -> (r: Option<String>)
        ensures
            r == (match self {
                Value::Symbol(s) | Value::String(s) => Some(s),
                _ => None,
            }),
    {
        match self {
            Value::Symbol(s) | Value::String(s) => Some(s),
            _ => None,
        }
    }

    /// The text of a symbol.
    pub fn as_symbol(self) -> (r: Option<String>)
        ensures
            r == (match self {
                Value::Symbol(s) => Some(s),
                _ => None,
            }),
    {
        match self {
            Value::Symbol(s) => Some(s),
            _ => None,
        }
    }

    /// The contents of a string.
    pub fn as_string(self) -> (r: Option<String>)
        ensures
            r == (match self {
                Value::String(s) => Some(s),
                _ => None,
            }),
    {
        match self {
            Value::String(s) => Some(s),
            _ => None,
        }
    }

    /// The value of an integer.
    pub fn as_integer(self) -> (r: Option<i64>)
        ensures
            r == (match self {
                Value::Integer(n) => Some(n),
                _ => None,
            }),
    {
        match self {
            Value::Integer(n) => Some(n),
            _ => None,
        }
    }

    /// The literal text of a real number.
    pub fn as_real(self) -> (r: Option<String>)
        ensures
            r == (match self {
                Value::Real(t) => Some(t),
                _ => None,
            }),
    {
        match self {
            Value::Real(t) => Some(t),
            _ => None,
        }
    }

    /// The elements of a list.
    pub fn as_list(self) -> (r: Option<Vec<Value>>)
        ensures
            r == (match self {
                Value::List(items) => Some(items),
                _ => None,
            }),
    {
        match self {
            Value::List(items) => Some(items),
            _ => None,
        }
    }

    /// Whether this is the empty value.
    pub fn is_nil(self) -> (r: bool)
        ensures
            r == self is Nil,
    {
        match self {
            Value::Nil => true,
            _ => false,
        }
    }
}

impl Clone for Value {
    /// A copy of the whole tree.
    fn clone(&self) -> (r: Value)
        ensures
            r@ == self@,
        decreases self,
    {
        match self {
            Value::String(s) => Value::String(s.clone()),
            Value::Cons(a, b) => Value::Cons(Box::new((**a).clone()), Box::new((**b).clone())),
            Value::Integer(n) => Value::Integer(*n),
            Value::Real(t) => Value::Real(t.clone()),
            Value::Symbol(s) => Value::Symbol(s.clone()),
            Value::List(items) => {
                let mut copy: Vec<Value> = Vec::new();
                let mut i: usize = 0;
                while i < items.len()
                    invariant
                        i <= items.len(),
                        *self == Value::List(*items),
                        views(copy@) == views(items@.take(i as int)),
                    decreases items.len() - i,
                {
                    proof {
                        assert(decreases_to!(*self => self->List_0));
                        assert(decreases_to!(*items => items@));
                        assert(decreases_to!(items@ => items@[i as int]));
                    }
                    let item = items[i].clone();
                    proof {
                        lemma_views_push(copy@, item);
                        lemma_views_push(items@.take(i as int), items[i as int]);
                        assert(items@.take(i as int).push(items[i as int]) =~= items@.take(i + 1));
                    }
                    copy.push(item);
                    i += 1;
                }
                assert(items@.take(i as int) =~= items@);
                Value::List(copy)
            },
            Value::Nil => Value::Nil,
        }
    }
}

/// The ways in which a text fails to decode.
#[derive(Clone, Copy, Debug, PartialEq, Eq, Structural)]
pub enum Error {
    /// A closing bracket that closes nothing or the wrong bracket, a group
    /// or a string literal left open at the end of the input, or a `'` where
    /// a value should start.
    UnbalancedExpr,
    /// The input ended where a value was still expected.
    EndOfInput,
    /// A dot with nothing before it in its group, outside any group, followed
    /// by a closing bracket or another dot instead of a value, or followed by
    /// more than one value.
    UnexpectedDot,
    /// A token that starts like a number and holds a dot, but is not a
    /// valid real number.
    InvalidNumber,
}

/// The result of a decoding, with the decoded value replaced by its view.
pub open spec fn result_view(r: Result<Value, Error>) -> Result<Sexp, Error> {
    match r {
        Ok(v) => Ok(v@),
        Err(e) => Err(e),
    }
}

pub proof fn lemma_views_push(vs: Seq<Value>, v: Value)
    ensures
        views(vs.push(v)) == views(vs).push(v@),
{
    assert(vs.push(v).drop_last() =~= vs);
}

pub proof fn lemma_views_len(vs: Seq<Value>)
    ensures
        views(vs).len() == vs.len(),
    decreases vs.len(),
{
    if vs.len() > 0 {
        assert(views(vs) == views(vs.drop_last()).push(vs.last()@));
        lemma_views_len(vs.drop_last());
    }
}

pub proof fn lemma_views_index(vs: Seq<Value>, k: int)
    requires
        0 <= k < vs.len(),
    ensures
        views(vs)[k] == vs[k]@,
    decreases vs.len(),
{
    assert(views(vs) == views(vs.drop_last()).push(vs.last()@));
    lemma_views_len(vs.drop_last());
    if k < vs.len() - 1 {
        lemma_views_index(vs.drop_last(), k);
    }
}

/// Decodes the value that `s` starts with.
pub fn parse_string(s: &str) -> (r: Result<Value, Error>)
    ensures
        result_view(r) == parse(s@),
{
    let mut parser = Parser::new(s);
    parser.parse()
}

impl core::str::FromStr for Value {
    type Err = Error;

    fn from_str(s: &str) -> (r: Result<Value, Error>)
        ensures
            result_view(r) == parse(s@),
    {
        parse_string(s)
    }
}

} // verus!

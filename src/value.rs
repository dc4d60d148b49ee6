//! Typed extraction: from the values that the store holds in its columns to
//! the types that an application asks for.
use vstd::prelude::*;
use crate::lisp;
use crate::grammar::parse;
use crate::lisp::parse_string;

verus! {

/// A column value as the store has typed it.
pub enum StoreValue {
    Null,
    Integer(i64),
    /// A floating-point number, held as the bits of its `f64`.
    Real(u64),
    Text(String),
}

/// A column value after decoding: EmacSQL writes Lisp text, but the store
/// may also hold numbers and nulls of its own.
pub enum Value {
    Lisp(lisp::Value),
    Integer(i64),
    /// A floating-point number, held as the bits of its `f64`.
    Real(u64),
    Null,
}

/// A value that cannot be turned into the type asked for.
#[derive(Clone, Copy, Debug, PartialEq, Eq, Structural)]
pub enum FromEmacsqlError {
    InvalidType,
}

/// What decoding the raw column value `raw` gives: text is read as a Lisp
/// value, and text that does not decode is of no valid type.
pub open spec fn column_spec(raw: StoreValue, r: Result<Value, FromEmacsqlError>) -> bool {
    match raw {
        StoreValue::Null => r == Ok::<Value, FromEmacsqlError>(Value::Null),
        StoreValue::Integer(n) => r == Ok::<Value, FromEmacsqlError>(Value::Integer(n)),
        StoreValue::Real(b) => r == Ok::<Value, FromEmacsqlError>(Value::Real(b)),
        StoreValue::Text(t) => match parse(t@) {
            Ok(v) => r matches Ok(Value::Lisp(w)) && w@ == v,
            Err(_) => r == Err::<Value, FromEmacsqlError>(FromEmacsqlError::InvalidType),
        },
    }
}

impl Value {
    /// Whether this is the store's null.
    pub fn is_null(&self) -> (r: bool)
        ensures
            r == self is Null,
    {
        matches!(self, Value::Null)
    }

    /// Decodes a raw column value.
    pub fn column_result(raw: StoreValue) -> (r: Result<Value, FromEmacsqlError>)
        ensures
            column_spec(raw, r),
    {
        match raw {
            StoreValue::Null => Ok(Value::Null),
            StoreValue::Integer(n) => Ok(Value::Integer(n)),
            StoreValue::Real(b) => Ok(Value::Real(b)),
            StoreValue::Text(t) => match parse_string(t.as_str()) {
                Ok(v) => Ok(Value::Lisp(v)),
                Err(_) => Err(FromEmacsqlError::InvalidType),
            },
        }
    }
}

/// A type that a column value can be turned into.
pub trait FromEmacsql: Sized {
    /// Whether `r` is what turning `val` into this type gives.
    spec fn decodes(val: Value, r: Result<Self, FromEmacsqlError>) -> bool;

    fn from_emacsql(val: Value) -> (r: Result<Self, FromEmacsqlError>)
        ensures
            Self::decodes(val, r),
    ;
}

/// The null of the store is the absent value; anything else is turned into
/// the inner type.
impl<T: FromEmacsql> FromEmacsql for Option<T> {
    open spec fn decodes(val: Value, r: Result<Self, FromEmacsqlError>) -> bool {
        if val is Null {
            r == Ok::<Option<T>, FromEmacsqlError>(None)
        } else {
            match r {
                Ok(Some(x)) => T::decodes(val, Ok(x)),
                Ok(None) => false,
                Err(e) => T::decodes(val, Err(e)),
            }
        }
    }

    fn from_emacsql(val: Value) -> (r: Result<Self, FromEmacsqlError>) {
        if val.is_null() {
            return Ok(None);
        }
        match T::from_emacsql(val) {
            Ok(x) => Ok(Some(x)),
            Err(e) => Err(e),
        }
    }
}

/// Whether `s` is the text `t`, which EmacSQL writes for true.
pub open spec fn is_true_text(s: Seq<char>) -> bool {
    s == seq!['t']
}

/// The null of the store is false, and the string `"t"` is true.
impl FromEmacsql for bool {
    open spec fn decodes(val: Value, r: Result<Self, FromEmacsqlError>) -> bool {
        r == match val {
            Value::Null => Ok(false),
            Value::Lisp(lisp::Value::String(s)) => if is_true_text(s@) {
                Ok(true)
            } else {
                Err(FromEmacsqlError::InvalidType)
            },
            _ => Err(FromEmacsqlError::InvalidType),
        }
    }

    fn from_emacsql(val: Value) -> (r: Result<Self, FromEmacsqlError>) {
        match val {
            Value::Null => Ok(false),
            Value::Lisp(lisp::Value::String(s)) => {
                let t = s.as_str();
                let n = t.unicode_len();
                if n == 1 && t.get_char(0) == 't' {
                    assert(s@ =~= seq!['t']);
                    Ok(true)
                } else {
                    Err(FromEmacsqlError::InvalidType)
                }
            },
            _ => Err(FromEmacsqlError::InvalidType),
        }
    }
}

/// A number of the store becomes a `i8`, cut down to its width as `as`
/// does.
impl FromEmacsql for i8 {
    open spec fn decodes(val: Value, r: Result<Self, FromEmacsqlError>) -> bool {
        r == match val {
            Value::Integer(n) => Ok(n as i8),
            _ => Err(FromEmacsqlError::InvalidType),
        }
    }

    fn from_emacsql(val: Value) -> (r: Result<Self, FromEmacsqlError>) {
        match val {
            Value::Integer(n) => Ok(n as i8),
            _ => Err(FromEmacsqlError::InvalidType),
        }
    }
}

/// A number of the store becomes a `i16`, cut down to its width as `as`
/// does.
impl FromEmacsql for i16 {
    open spec fn decodes(val: Value, r: Result<Self, FromEmacsqlError>) -> bool {
        r == match val {
            Value::Integer(n) => Ok(n as i16),
            _ => Err(FromEmacsqlError::InvalidType),
        }
    }

    fn from_emacsql(val: Value) -> (r: Result<Self, FromEmacsqlError>) {
        match val {
            Value::Integer(n) => Ok(n as i16),
            _ => Err(FromEmacsqlError::InvalidType),
        }
    }
}

/// A number of the store becomes a `i32`, cut down to its width as `as`
/// does.
impl FromEmacsql for i32 {
    open spec fn decodes(val: Value, r: Result<Self, FromEmacsqlError>) -> bool {
        r == match val {
            Value::Integer(n) => Ok(n as i32),
            _ => Err(FromEmacsqlError::InvalidType),
        }
    }

    fn from_emacsql(val: Value) -> (r: Result<Self, FromEmacsqlError>) {
        match val {
            Value::Integer(n) => Ok(n as i32),
            _ => Err(FromEmacsqlError::InvalidType),
        }
    }
}

/// A number of the store becomes a `i64`, cut down to its width as `as`
/// does.
impl FromEmacsql for i64 {
    open spec fn decodes(val: Value, r: Result<Self, FromEmacsqlError>) -> bool {
        r == match val {
            Value::Integer(n) => Ok(n as i64),
            _ => Err(FromEmacsqlError::InvalidType),
        }
    }

    fn from_emacsql(val: Value) -> (r: Result<Self, FromEmacsqlError>) {
        match val {
            Value::Integer(n) => Ok(n as i64),
            _ => Err(FromEmacsqlError::InvalidType),
        }
    }
}

/// A number of the store becomes a `usize`, cut down to its width as `as`
/// does.
impl FromEmacsql for usize {
    open spec fn decodes(val: Value, r: Result<Self, FromEmacsqlError>) -> bool {
        r == match val {
            Value::Integer(n) => Ok(n as usize),
            _ => Err(FromEmacsqlError::InvalidType),
        }
    }

    fn from_emacsql(val: Value) -> (r: Result<Self, FromEmacsqlError>) {
        match val {
            Value::Integer(n) => Ok(n as usize),
            _ => Err(FromEmacsqlError::InvalidType),
        }
    }
}

/// Whether `r` is what decoding the raw column value `raw` and turning it
/// into `T` gives.
pub open spec fn column_decodes<T: FromEmacsql>(raw: StoreValue, r: Result<T, FromEmacsqlError>) -> bool {
    match raw {
        StoreValue::Text(t) if parse(t@) is Err => r is Err,
        _ => exists|v: Value| column_spec(raw, Ok(v)) && #[trigger] T::decodes(v, r),
    }
}

/// Decodes a raw column value and turns it into `T`.
pub fn decode_column<T: FromEmacsql>(raw: StoreValue) -> (r: Result<T, FromEmacsqlError>)
    ensures
        column_decodes(raw, r),
{
    let ghost raw0 = raw;
    match Value::column_result(raw) {
        Ok(v) => {
            let ghost v0 = v;
            let r = T::from_emacsql(v);
            assert(column_spec(raw0, Ok(v0)) && T::decodes(v0, r));
            r
        },
        Err(e) => Err(e),
    }
}

/// The store's null, asked for as an optional integer, is absent.
pub proof fn law_null_is_absent(r: Result<Option<i64>, FromEmacsqlError>)
    requires
        column_decodes(StoreValue::Null, r),
    ensures
        r == Ok::<Option<i64>, FromEmacsqlError>(None),
{
}

/// Text, asked for as an integer or an optional integer, is of the wrong
/// type.
pub proof fn law_text_is_no_integer(
    t: String,
    r: Result<i64, FromEmacsqlError>,
    q: Result<Option<i64>, FromEmacsqlError>,
)
    requires
        column_decodes(StoreValue::Text(t), r),
        column_decodes(StoreValue::Text(t), q),
    ensures
        r == Err::<i64, FromEmacsqlError>(FromEmacsqlError::InvalidType),
        q == Err::<Option<i64>, FromEmacsqlError>(FromEmacsqlError::InvalidType),
{
    let raw = StoreValue::Text(t);
    if parse(t@) is Ok {
        let v = choose|v: Value| column_spec(raw, Ok(v)) && #[trigger] i64::decodes(v, r);
        let w = choose|w: Value| column_spec(raw, Ok(w)) && #[trigger] <Option<i64> as FromEmacsql>::decodes(w, q);
        assert(v is Lisp && w is Lisp);
    }
    lemma_single_error(r);
    lemma_single_error(q);
}

/// The one way in which turning a value into a type fails.
proof fn lemma_single_error<T>(r: Result<T, FromEmacsqlError>)
    ensures
        r is Err ==> r == Err::<T, FromEmacsqlError>(FromEmacsqlError::InvalidType),
{
    if let Err(e) = r {
        assert(e is InvalidType);
    }
}

/// A number of the store, asked for as a string, is of the wrong type.
pub proof fn law_number_is_no_string(raw: StoreValue, r: Result<String, FromEmacsqlError>)
    requires
        raw is Integer || raw is Real,
        column_decodes(raw, r),
    ensures
        r == Err::<String, FromEmacsqlError>(FromEmacsqlError::InvalidType),
{
    let v = choose|v: Value| column_spec(raw, Ok(v)) && #[trigger] String::decodes(v, r);
    assert(v is Integer || v is Real);
    lemma_single_error(r);
}

/// A type that a decoded Lisp value can be turned into.
pub trait FromLisp: Sized {
    /// Whether `r` is what turning `v` into this type gives.
    spec fn reads(v: lisp::Value, r: Result<Self, FromEmacsqlError>) -> bool;

    fn from_lisp(v: lisp::Value) -> (r: Result<Self, FromEmacsqlError>)
        ensures
            Self::reads(v, r),
    ;
}

/// A column value turns into a type that reads Lisp values when it holds
/// Lisp text, and into nothing else.
impl<T: FromLisp> FromEmacsql for T {
    open spec fn decodes(val: Value, r: Result<Self, FromEmacsqlError>) -> bool {
        match val {
            Value::Lisp(v) => T::reads(v, r),
            _ => r is Err,
        }
    }

    fn from_emacsql(val: Value) -> (r: Result<Self, FromEmacsqlError>) {
        match val {
            Value::Lisp(v) => T::from_lisp(v),
            _ => Err(FromEmacsqlError::InvalidType),
        }
    }
}

/// A string literal reads as its contents, and a symbol as its name.
impl FromLisp for String {
    open spec fn reads(v: lisp::Value, r: Result<Self, FromEmacsqlError>) -> bool {
        match v {
            lisp::Value::String(s) | lisp::Value::Symbol(s) => r == Ok::<String, FromEmacsqlError>(s),
            _ => r == Err::<String, FromEmacsqlError>(FromEmacsqlError::InvalidType),
        }
    }

    fn from_lisp(v: lisp::Value) -> (r: Result<Self, FromEmacsqlError>) {
        match v.text() {
            Some(s) => Ok(s),
            None => Err(FromEmacsqlError::InvalidType),
        }
    }
}

/// A type whose values are written as text: a symbol or a string literal
/// reads as what the type's own textual constructor makes of its text.
pub trait FromLispAsFromStr: Sized {
    /// Whether `r` is what the textual constructor makes of the text `s`.
    /// An implementation that says nothing of its constructor keeps this
    /// default, under which any result may come.
    open spec fn from_text(s: Seq<char>, r: Option<Self>) -> bool {
        true
    }

    /// The value that the text `s` denotes, if it denotes one.
    fn from_lisp_str(s: &str) -> (r: Option<Self>)
        ensures
            Self::from_text(s@, r),
    ;
}

/// What reading the text `s` with the textual constructor of `T` gives,
/// when the constructor returned `o`.
pub open spec fn text_result<T>(o: Option<T>) -> Result<T, FromEmacsqlError> {
    match o {
        Some(x) => Ok(x),
        None => Err(FromEmacsqlError::InvalidType),
    }
}

/// Whether `r` is what the textual constructor of `T` gives, whatever it
/// returned, on the text `s`.
pub open spec fn built_from_text<T: FromLispAsFromStr>(
    s: Seq<char>,
    r: Result<T, FromEmacsqlError>,
) -> bool {
    exists|o: Option<T>| #[trigger] T::from_text(s, o) && r == text_result(o)
}

/// A symbol or a string literal reads as what the type's textual
/// constructor makes of its text; anything else reads as nothing.
impl<T: FromLispAsFromStr> FromLisp for T {
    open spec fn reads(v: lisp::Value, r: Result<Self, FromEmacsqlError>) -> bool {
        match v {
            lisp::Value::String(s) => built_from_text(s@, r),
            lisp::Value::Symbol(s) => built_from_text(s@, r),
            _ => r == Err::<T, FromEmacsqlError>(FromEmacsqlError::InvalidType),
        }
    }

    fn from_lisp(v: lisp::Value) -> (r: Result<Self, FromEmacsqlError>) {
        match v.text() {
            Some(s) => {
                let o = T::from_lisp_str(s.as_str());
                let r = match o {
                    Some(x) => Ok(x),
                    None => Err(FromEmacsqlError::InvalidType),
                };
                proof {
                    assert(T::from_text(s@, o) && r == text_result(o));
                    assert(built_from_text(s@, r));
                }
                r
            },
            None => Err(FromEmacsqlError::InvalidType),
        }
    }
}

} // verus!

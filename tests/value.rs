use emacsql::value::{decode_column, FromEmacsqlError, FromLispAsFromStr, StoreValue, Value};
use emacsql::utils::{add_quotes_around, maybe_remove_quotes_around, remove_quotes_around};

#[derive(Debug, PartialEq)]
struct NodeId(u32);

impl FromLispAsFromStr for NodeId {
    fn from_lisp_str(s: &str) -> Option<Self> {
        s.parse().ok().map(NodeId)
    }
}

#[derive(Debug, PartialEq)]
struct Word(String);

impl FromLispAsFromStr for Word {
    fn from_lisp_str(s: &str) -> Option<Self> {
        Some(Word(s.to_string()))
    }
}

fn text(s: &str) -> StoreValue {
    StoreValue::Text(s.to_string())
}

#[test]
fn null_is_absent_optional_integer() {
    assert_eq!(decode_column::<Option<i64>>(StoreValue::Null), Ok(None));
    assert_eq!(decode_column::<Option<i64>>(StoreValue::Integer(5)), Ok(Some(5)));
    assert_eq!(decode_column::<i64>(StoreValue::Null), Err(FromEmacsqlError::InvalidType));
}

#[test]
fn mismatched_types_are_invalid() {
    assert_eq!(decode_column::<i64>(text("\"42\"")), Err(FromEmacsqlError::InvalidType));
    assert_eq!(decode_column::<Option<i64>>(text("42")), Err(FromEmacsqlError::InvalidType));
    assert_eq!(decode_column::<String>(StoreValue::Integer(1)), Err(FromEmacsqlError::InvalidType));
    assert_eq!(
        decode_column::<String>(StoreValue::Real(1.5f64.to_bits())),
        Err(FromEmacsqlError::InvalidType)
    );
    assert_eq!(decode_column::<String>(text("(sym)")), Err(FromEmacsqlError::InvalidType));
    assert_eq!(decode_column::<String>(text("(\"a\"")), Err(FromEmacsqlError::InvalidType));
}

#[test]
fn strings_and_numbers_extract() {
    assert_eq!(decode_column::<String>(text("\"momentum\"")), Ok("momentum".to_string()));
    assert_eq!(decode_column::<Option<String>>(text(" \"a b\" ")), Ok(Some("a b".to_string())));
    assert_eq!(decode_column::<String>(text("sym")), Ok("sym".to_string()));
    assert_eq!(decode_column::<i32>(StoreValue::Integer(-7)), Ok(-7));
    assert_eq!(decode_column::<i8>(StoreValue::Integer(300)), Ok(44));
    assert_eq!(decode_column::<usize>(StoreValue::Integer(128)), Ok(128));
    assert_eq!(decode_column::<i16>(StoreValue::Integer(70000)), Ok(4464));
}

#[test]
fn booleans_extract() {
    assert_eq!(decode_column::<bool>(StoreValue::Null), Ok(false));
    assert_eq!(decode_column::<bool>(text("\"t\"")), Ok(true));
    assert_eq!(decode_column::<bool>(text("t")), Err(FromEmacsqlError::InvalidType));
    assert_eq!(decode_column::<bool>(text("\"tt\"")), Err(FromEmacsqlError::InvalidType));
}

#[test]
fn textual_types_extract() {
    assert_eq!(decode_column::<NodeId>(text("\"42\"")), Ok(NodeId(42)));
    assert_eq!(decode_column::<NodeId>(text("\"x\"")), Err(FromEmacsqlError::InvalidType));
    assert_eq!(decode_column::<NodeId>(text("42")), Err(FromEmacsqlError::InvalidType));
    assert_eq!(decode_column::<Word>(text("physics")), Ok(Word("physics".to_string())));
    assert_eq!(decode_column::<NodeId>(text("|7")), Err(FromEmacsqlError::InvalidType));
    assert_eq!(decode_column::<Word>(text("\"a b\"")), Ok(Word("a b".to_string())));
    assert_eq!(decode_column::<Word>(text("(a)")), Err(FromEmacsqlError::InvalidType));
    assert_eq!(decode_column::<Word>(StoreValue::Null), Err(FromEmacsqlError::InvalidType));
}

#[test]
fn column_values_decode() {
    assert!(matches!(Value::column_result(StoreValue::Null), Ok(Value::Null)));
    assert!(matches!(Value::column_result(StoreValue::Integer(3)), Ok(Value::Integer(3))));
    assert!(matches!(Value::column_result(StoreValue::Real(7)), Ok(Value::Real(7))));
    assert!(matches!(
        Value::column_result(text("(1 2)")),
        Ok(Value::Lisp(emacsql::lisp::Value::List(_)))
    ));
    assert!(matches!(Value::column_result(text(")")), Err(FromEmacsqlError::InvalidType)));
    assert!(Value::Null.is_null());
    assert!(!Value::Integer(0).is_null());
}

#[test]
fn quotes_around() {
    assert_eq!(add_quotes_around("physics"), "\"physics\"");
    assert_eq!(add_quotes_around(""), "\"\"");
    assert_eq!(remove_quotes_around("\"physics\""), "physics");
    assert_eq!(remove_quotes_around("\"é\""), "é");
    assert_eq!(remove_quotes_around("\""), "");
    assert_eq!(remove_quotes_around(""), "");
    assert_eq!(maybe_remove_quotes_around("\"si\""), "si");
    assert_eq!(maybe_remove_quotes_around("si"), "si");
    assert_eq!(maybe_remove_quotes_around("\""), "\"");
    assert_eq!(maybe_remove_quotes_around("\"si"), "\"si");
}

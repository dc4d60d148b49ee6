use emacsql::classify::{
    escape_char, integer_value, is_decimal_digit, is_identifier_char, is_real_literal,
    is_whitespace,
};

#[test]
fn whitespace_agrees_with_std() {
    for u in 0..=0x10FFFFu32 {
        if let Some(c) = char::from_u32(u) {
            assert_eq!(is_whitespace(c), c.is_whitespace(), "{:?}", c);
        }
    }
}

#[test]
fn identifier_characters() {
    for c in ['a', 'Z', '-', '+', '1', '\\', 'é', '?', '#'] {
        assert!(is_identifier_char(c), "{:?}", c);
    }
    for c in ['(', ')', '[', ']', '.', '"', '\'', ' ', '\n'] {
        assert!(!is_identifier_char(c), "{:?}", c);
    }
    assert!(is_decimal_digit('7'));
    assert!(!is_decimal_digit('²'));
}

#[test]
fn escapes() {
    assert_eq!(escape_char('n'), '\n');
    assert_eq!(escape_char('t'), '\t');
    assert_eq!(escape_char('"'), '"');
    assert_eq!(escape_char('\\'), '\\');
    assert_eq!(escape_char('3'), '\u{3}');
    assert_eq!(escape_char('x'), 'x');
}

/// Every word of up to `n` characters over `alphabet`.
fn words(alphabet: &[char], n: usize) -> Vec<String> {
    let mut all = vec![String::new()];
    let mut last = vec![String::new()];
    for _ in 0..n {
        let mut next = Vec::new();
        for w in &last {
            for c in alphabet {
                let mut v = w.clone();
                v.push(*c);
                next.push(v);
            }
        }
        all.extend(next.iter().cloned());
        last = next;
    }
    all
}

#[test]
fn numbers_agree_with_std() {
    let alphabet = ['0', '7', '.', '-', '+', 'e', 'E', 'x'];
    for w in words(&alphabet, 5) {
        let cs: Vec<char> = w.chars().collect();
        if cs.is_empty() || !(cs[0].is_ascii_digit() || cs[0] == '-') {
            continue;
        }
        if w.contains('.') {
            assert_eq!(is_real_literal(&cs, 0, cs.len()), w.parse::<f64>().is_ok(), "{}", w);
        } else {
            assert_eq!(integer_value(&cs, 0, cs.len()), w.parse::<i64>().ok(), "{}", w);
        }
    }
}

#[test]
fn integer_bounds() {
    for w in ["9223372036854775807", "-9223372036854775808", "9223372036854775808",
              "-9223372036854775809", "99999999999999999999999", "00000000000000000000001"] {
        let cs: Vec<char> = w.chars().collect();
        assert_eq!(integer_value(&cs, 0, cs.len()), w.parse::<i64>().ok(), "{}", w);
    }
    let cs: Vec<char> = "(42)".chars().collect();
    assert_eq!(integer_value(&cs, 1, 3), Some(42));
}

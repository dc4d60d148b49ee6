//! Classes of characters, escapes and the texts of numbers.
use vstd::prelude::*;

verus! {

/// The characters with the Unicode `White_Space` property, those that
/// `char::is_whitespace` accepts.
pub open spec fn is_space(c: char) -> bool {
    let u = c as u32;
    ||| 0x09 <= u <= 0x0d
    ||| u == 0x20
    ||| u == 0x85
    ||| u == 0xa0
    ||| u == 0x1680
    ||| 0x2000 <= u <= 0x200a
    ||| u == 0x2028
    ||| u == 0x2029
    ||| u == 0x202f
    ||| u == 0x205f
    ||| u == 0x3000
}

/// An ASCII decimal digit.
pub open spec fn is_digit(c: char) -> bool {
    '0' <= c <= '9'
}

/// A character that may stand in a symbol: anything but whitespace,
/// brackets, the dot and the two quote marks.
pub open spec fn is_ident_char(c: char) -> bool {
    !(is_space(c) || c == '[' || c == ']' || c == '(' || c == ')' || c == '.' || c == '"'
        || c == '\'')
}

/// A character that may stand in a number: those of symbols and the dot.
pub open spec fn is_word_char(c: char) -> bool {
    is_ident_char(c) || c == '.'
}

/// The character that the escape `\c` inside a string literal stands for.
pub open spec fn unescape(c: char) -> char {
    if c == 'n' {
        '\n'
    } else if c == 't' {
        '\t'
    } else if is_digit(c) {
        char_of_code((c as u32 - '0' as u32) as u32)
    } else {
        c
    }
}

/// The character with the code point `u`, where `u` is below 10.
pub open spec fn char_of_code(u: u32) -> char {
    if u == 0 {
        '\x00'
    } else if u == 1 {
        '\x01'
    } else if u == 2 {
        '\x02'
    } else if u == 3 {
        '\x03'
    } else if u == 4 {
        '\x04'
    } else if u == 5 {
        '\x05'
    } else if u == 6 {
        '\x06'
    } else if u == 7 {
        '\x07'
    } else if u == 8 {
        '\x08'
    } else {
        '\x09'
    }
}

/// Whether every element of `d` is a decimal digit.
pub open spec fn all_digits(d: Seq<char>) -> bool {
    forall|k: int| 0 <= k < d.len() ==> is_digit(#[trigger] d[k])
}

/// The number that the decimal digits `d` denote.
pub open spec fn digits_value(d: Seq<char>) -> int
    decreases d.len(),
{
    if d.len() == 0 {
        0
    } else {
        digits_value(d.drop_last()) * 10 + (d.last() as int - '0' as int)
    }
}

/// The integer that `w` denotes when it is an optional minus sign followed
/// by one or more decimal digits.
pub open spec fn integer_text_value(w: Seq<char>) -> Option<int> {
    if w.len() > 0 && w[0] == '-' {
        let d = w.drop_first();
        if d.len() > 0 && all_digits(d) {
            Some(-digits_value(d))
        } else {
            None
        }
    } else if w.len() > 0 && all_digits(w) {
        Some(digits_value(w))
    } else {
        None
    }
}

/// Whether `v` fits in an `i64`.
pub open spec fn fits_i64(v: int) -> bool {
    i64::MIN <= v <= i64::MAX
}

/// How many decimal digits follow one another in `s` from position `i` on.
pub open spec fn digit_run(s: Seq<char>, i: int) -> nat
    decreases s.len() - i,
{
    if 0 <= i < s.len() && is_digit(s[i]) {
        1 + digit_run(s, i + 1)
    } else {
        0
    }
}

/// An exponent: `e` or `E`, an optional sign, and one or more digits.
pub open spec fn is_exponent(x: Seq<char>) -> bool {
    &&& x.len() >= 2
    &&& x[0] == 'e' || x[0] == 'E'
    &&& {
        let d = if x[1] == '+' || x[1] == '-' {
            x.subrange(2, x.len() as int)
        } else {
            x.subrange(1, x.len() as int)
        };
        d.len() > 0 && all_digits(d)
    }
}

/// Whether `w` is a floating-point literal with a decimal point, in the form
/// that `f64`'s `FromStr` accepts: an optional minus sign, digits, a point,
/// digits (at least one digit on either side), and an optional exponent.
pub open spec fn is_real_text(w: Seq<char>) -> bool {
    let m = if w.len() > 0 && w[0] == '-' {
        w.drop_first()
    } else {
        w
    };
    let a = digit_run(m, 0) as int;
    let b = digit_run(m, a + 1) as int;
    &&& a < m.len()
    &&& m[a] == '.'
    &&& a + b > 0
    &&& a + 1 + b == m.len() || is_exponent(m.subrange(a + 1 + b, m.len() as int))
}

/// Decides [`is_space`], as `char::is_whitespace` does.
pub fn is_whitespace(c: char) -> (r: bool)
    ensures
        r == is_space(c),
{
    let u = c as u32;
    (0x09 <= u && u <= 0x0d) || u == 0x20 || u == 0x85 || u == 0xa0 || u == 0x1680 || (0x2000
        <= u && u <= 0x200a) || u == 0x2028 || u == 0x2029 || u == 0x202f || u == 0x205f || u
        == 0x3000
}

/// Decides [`is_digit`].
pub fn is_decimal_digit(c: char) -> (r: bool)
    ensures
        r == is_digit(c),
{
    '0' <= c && c <= '9'
}

/// Decides [`is_ident_char`].
pub fn is_identifier_char(c: char) -> (r: bool)
    ensures
        r == is_ident_char(c),
{
    !(is_whitespace(c) || c == '[' || c == ']' || c == '(' || c == ')' || c == '.' || c == '"'
        || c == '\'')
}

/// Decodes the character after a backslash in a string literal.
pub fn escape_char(c: char) -> (r: char)
    ensures
        r == unescape(c),
{
    match c {
        'n' => '\n',
        't' => '\t',
        '0' => '\x00',
        '1' => '\x01',
        '2' => '\x02',
        '3' => '\x03',
        '4' => '\x04',
        '5' => '\x05',
        '6' => '\x06',
        '7' => '\x07',
        '8' => '\x08',
        '9' => '\x09',
        _ => c,
    }
}

/// The value of a decimal digit.
fn digit_value(c: char) -> (r: u64)
    requires
        is_digit(c),
    ensures
        r as int == c as int - '0' as int,
        r <= 9,
{
    (c as u32 - '0' as u32) as u64
}

proof fn lemma_digits_value_nonneg(d: Seq<char>)
    requires
        all_digits(d),
    ensures
        digits_value(d) >= 0,
    decreases d.len(),
{
    if d.len() > 0 {
        assert(all_digits(d.drop_last()));
        lemma_digits_value_nonneg(d.drop_last());
        assert(is_digit(d[d.len() - 1]));
    }
}

/// A prefix of a run of digits never denotes more than the whole run.
proof fn lemma_digits_value_prefix(d: Seq<char>, k: int)
    requires
        all_digits(d),
        0 <= k <= d.len(),
    ensures
        digits_value(d.subrange(0, k)) <= digits_value(d),
    decreases d.len(),
{
    if k < d.len() {
        let e = d.drop_last();
        assert(all_digits(e));
        assert(e.subrange(0, k) =~= d.subrange(0, k));
        lemma_digits_value_prefix(e, k);
        lemma_digits_value_nonneg(e);
        assert(is_digit(d[d.len() - 1]));
    } else {
        assert(d.subrange(0, k) =~= d);
    }
}

/// The magnitude of `i64::MIN`, the largest of any `i64`.
const I64_MAGNITUDE_LIMIT: u64 = 0x8000_0000_0000_0000;

/// The `i64` that the characters `cs[from..to]` denote, when they are an
/// optional minus sign followed by decimal digits and the value fits.
pub fn integer_value(cs: &Vec<char>, from: usize, to: usize) -> (r: Option<i64>)
    requires
        from <= to <= cs.len(),
    ensures
        ({
            let v = integer_text_value(cs@.subrange(from as int, to as int));
            match r {
                Some(n) => v == Some(n as int),
                None => v is None || !fits_i64(v->0),
            }
        }),
{
    let ghost w = cs@.subrange(from as int, to as int);
    let neg = from < to && cs[from] == '-';
    let start = if neg {
        from + 1
    } else {
        from
    };
    let ghost d = cs@.subrange(start as int, to as int);
    assert(neg ==> d =~= w.drop_first());
    assert(!neg ==> d =~= w);
    if start >= to {
        return None;
    }
    let limit = I64_MAGNITUDE_LIMIT;
    let mut m: u64 = 0;
    let mut i = start;
    while i < to
        invariant
            from <= start <= i <= to <= cs.len(),
            d == cs@.subrange(start as int, to as int),
            w == cs@.subrange(from as int, to as int),
            neg ==> w.len() > 0 && w[0] == '-' && d == w.drop_first(),
            !neg ==> !(w.len() > 0 && w[0] == '-') && d == w,
            limit == I64_MAGNITUDE_LIMIT,
            all_digits(cs@.subrange(start as int, i as int)),
            m as int == digits_value(cs@.subrange(start as int, i as int)),
            m <= limit,
        decreases to - i,
    {
        let c = cs[i];
        if !is_decimal_digit(c) {
            assert(d[i - start] == c);
            return None;
        }
        let dv = digit_value(c);
        let ghost p = cs@.subrange(start as int, i as int + 1);
        assert(p.drop_last() =~= cs@.subrange(start as int, i as int));
        assert(all_digits(p));
        if m > (limit - dv) / 10 {
            assert(digits_value(p) > limit);
            assert(p =~= d.subrange(0, i - start + 1));
            proof {
                if all_digits(d) {
                    lemma_digits_value_prefix(d, i - start + 1);
                }
            }
            return None;
        }
        m = m * 10 + dv;
        i += 1;
    }
    assert(cs@.subrange(start as int, i as int) =~= d);
    if neg {
        if m == limit {
            Some(i64::MIN)
        } else {
            Some(-(m as i64))
        }
    } else if m <= i64::MAX as u64 {
        Some(m as i64)
    } else {
        None
    }
}

/// The number of digits in `cs` from position `k` on, before `hi`.
fn count_digits(cs: &Vec<char>, lo: usize, hi: usize, k: usize) -> (n: usize)
    requires
        lo <= k <= hi <= cs.len(),
    ensures
        n == digit_run(cs@.subrange(lo as int, hi as int), k - lo),
        k + n <= hi,
{
    let ghost m = cs@.subrange(lo as int, hi as int);
    let mut j = k;
    while j < hi && is_decimal_digit(cs[j])
        invariant
            lo <= k <= j <= hi <= cs.len(),
            m == cs@.subrange(lo as int, hi as int),
            digit_run(m, k - lo) == (j - k) + digit_run(m, j - lo),
        decreases hi - j,
    {
        assert(m[j - lo] == cs[j as int]);
        j += 1;
    }
    if j < hi {
        assert(m[j - lo] == cs[j as int]);
    }
    j - k
}

/// Whether `cs[from..to]` are all decimal digits.
fn only_digits(cs: &Vec<char>, from: usize, to: usize) -> (r: bool)
    requires
        from <= to <= cs.len(),
    ensures
        r == all_digits(cs@.subrange(from as int, to as int)),
{
    let ghost w = cs@.subrange(from as int, to as int);
    let mut i = from;
    while i < to
        invariant
            from <= i <= to <= cs.len(),
            w == cs@.subrange(from as int, to as int),
            all_digits(cs@.subrange(from as int, i as int)),
        decreases to - i,
    {
        if !is_decimal_digit(cs[i]) {
            assert(w[i - from] == cs[i as int]);
            return false;
        }
        assert(cs@.subrange(from as int, i + 1) =~= cs@.subrange(from as int, i as int).push(cs[i as int]));
        i += 1;
    }
    assert(cs@.subrange(from as int, i as int) =~= w);
    true
}

/// Decides [`is_real_text`] for `cs[from..to]`.
pub fn is_real_literal(cs: &Vec<char>, from: usize, to: usize) -> (r: bool)
    requires
        from <= to <= cs.len(),
    ensures
        r == is_real_text(cs@.subrange(from as int, to as int)),
{
    let ghost w = cs@.subrange(from as int, to as int);
    let lo = if from < to && cs[from] == '-' {
        from + 1
    } else {
        from
    };
    let ghost m = cs@.subrange(lo as int, to as int);
    assert(lo > from ==> m =~= w.drop_first());
    assert(lo == from ==> m =~= w);
    let a = count_digits(cs, lo, to, lo);
    let p = lo + a;
    if p >= to || cs[p] != '.' {
        return false;
    }
    let b = count_digits(cs, lo, to, p + 1);
    if a + b == 0 {
        return false;
    }
    let q = p + 1 + b;
    if q == to {
        return true;
    }
    let ghost x = m.subrange(a + 1 + b, m.len() as int);
    assert(x =~= cs@.subrange(q as int, to as int));
    if to - q < 2 || (cs[q] != 'e' && cs[q] != 'E') {
        return false;
    }
    let ds = if cs[q + 1] == '+' || cs[q + 1] == '-' {
        q + 2
    } else {
        q + 1
    };
    assert(x.subrange((ds - q) as int, x.len() as int) =~= cs@.subrange(ds as int, to as int));
    ds < to && only_digits(cs, ds, to)
}

} // verus!

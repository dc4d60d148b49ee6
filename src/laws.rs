//! Laws of decoding that relate several inputs or several calls.
use vstd::prelude::*;
use crate::classify::{is_ident_char, is_space, is_word_char};
use crate::grammar::{
    ident_run, lemma_ident_run_bound, lemma_read_skips, lemma_token_advances, lemma_word_run_bound, parse, read, step, string_body, token_at,
    word_run, Frame, Step, Token,
};
use crate::lisp::{Error, Sexp};

verus! {

/// The contents of a string literal reach up to the first quote; without
/// quotes or backslashes the contents are taken as they stand.
proof fn lemma_plain_string_body(q: Seq<char>, s: Seq<char>, i: int)
    requires
        q == seq!['"'] + s + seq!['"'],
        forall|k: int| 0 <= k < s.len() ==> s[k] != '"' && s[k] != '\\',
        1 <= i <= s.len() + 1,
    ensures
        string_body(q, i) == Some((s.subrange(i - 1, s.len() as int), (s.len() + 2) as int)),
    decreases s.len() + 1 - i,
{
    if i <= s.len() {
        lemma_plain_string_body(q, s, i + 1);
        assert(q[i] == s[i - 1]);
        assert(seq![s[i - 1]] + s.subrange(i, s.len() as int) =~= s.subrange(i - 1, s.len() as int));
    } else {
        assert(s.subrange(i - 1, s.len() as int) =~= Seq::<char>::empty());
    }
}

/// A text in double quotes, holding neither a double quote nor a backslash,
/// decodes to the string of that very text.
pub proof fn law_plain_string_round_trip(s: Seq<char>)
    requires
        forall|k: int| 0 <= k < s.len() ==> s[k] != '"' && s[k] != '\\',
    ensures
        parse(seq!['"'] + s + seq!['"']) == Ok::<Sexp, Error>(Sexp::Str(s)),
{
    let q = seq!['"'] + s + seq!['"'];
    lemma_plain_string_body(q, s, 1);
    assert(s.subrange(0, s.len() as int) =~= s);
    assert(q[0] == '"');
    assert(!is_space(q[0]));
    assert(token_at(q, 0).0 == Token::Atom(Sexp::Str(s)));
}

/// `s` from position `i` on, with each run of whitespace outside string
/// literals replaced by a single space; `in_string` tells whether position
/// `i` lies inside a string literal.
pub open spec fn squeeze(s: Seq<char>, i: int, in_string: bool) -> Seq<char>
    decreases s.len() - i,
{
    if i < 0 || i >= s.len() {
        Seq::empty()
    } else if in_string {
        if s[i] == '\\' && i + 1 < s.len() {
            seq![s[i], s[i + 1]] + squeeze(s, i + 2, true)
        } else if s[i] == '"' {
            seq![s[i]] + squeeze(s, i + 1, false)
        } else {
            seq![s[i]] + squeeze(s, i + 1, true)
        }
    } else if is_space(s[i]) {
        if i + 1 < s.len() && is_space(s[i + 1]) {
            squeeze(s, i + 1, false)
        } else {
            seq![' '] + squeeze(s, i + 1, false)
        }
    } else if s[i] == '"' {
        seq![s[i]] + squeeze(s, i + 1, true)
    } else {
        seq![s[i]] + squeeze(s, i + 1, false)
    }
}

/// `s` with each run of whitespace outside string literals replaced by a
/// single space.
pub open spec fn collapse(s: Seq<char>) -> Seq<char> {
    squeeze(s, 0, false)
}

/// The suffix `c[j..]` starts with `x`, followed by `rest`.
proof fn lemma_suffix_starts_with(c: Seq<char>, j: int, x: Seq<char>, rest: Seq<char>)
    requires
        0 <= j <= c.len(),
        c.subrange(j, c.len() as int) == x + rest,
    ensures
        j + x.len() <= c.len(),
        forall|k: int| 0 <= k < x.len() ==> c[j + k] == #[trigger] x[k],
        c.subrange(j + x.len(), c.len() as int) == rest,
{
    let t = c.subrange(j, c.len() as int);
    assert(t.len() == x.len() + rest.len());
    assert forall|k: int| 0 <= k < x.len() implies c[j + k] == #[trigger] x[k] by {
        assert(t[k] == c[j + k]);
        assert((x + rest)[k] == x[k]);
    }
    assert(c.subrange(j + x.len(), c.len() as int) =~= t.subrange(x.len() as int, t.len() as int));
    assert(t.subrange(x.len() as int, t.len() as int) =~= rest);
}

/// A run of whitespace squeezes to a space.
proof fn lemma_space_squeeze(s: Seq<char>, i: int)
    requires
        0 <= i < s.len(),
        is_space(s[i]),
    ensures
        squeeze(s, i, false).len() > 0,
        squeeze(s, i, false)[0] == ' ',
    decreases s.len() - i,
{
    if i + 1 < s.len() && is_space(s[i + 1]) {
        lemma_space_squeeze(s, i + 1);
    }
}

/// Inside a string literal the text is kept as it is, so the literal decodes
/// alike, and squeezing goes on in step after it.
proof fn lemma_string_squeeze(s: Seq<char>, i: int, c: Seq<char>, j: int)
    requires
        0 <= i <= s.len(),
        0 <= j <= c.len(),
        squeeze(s, i, true) == c.subrange(j, c.len() as int),
    ensures
        match (string_body(s, i), string_body(c, j)) {
            (None, None) => true,
            (Some((t, e)), Some((u, f))) => t == u && i <= e <= s.len() && j <= f <= c.len()
                && squeeze(s, e, false) == c.subrange(f, c.len() as int),
            _ => false,
        },
    decreases s.len() - i,
{
    if i >= s.len() {
        assert(c.subrange(j, c.len() as int).len() == 0);
    } else if s[i] == '\\' && i + 1 < s.len() {
        lemma_suffix_starts_with(c, j, seq![s[i], s[i + 1]], squeeze(s, i + 2, true));
        assert(c[j + 0] == seq![s[i]][0]);
        assert(c[j + 1] == s[i + 1]);
        lemma_string_squeeze(s, i + 2, c, j + 2);
    } else {
        let rest = if s[i] == '"' {
            squeeze(s, i + 1, false)
        } else {
            squeeze(s, i + 1, true)
        };
        lemma_suffix_starts_with(c, j, seq![s[i]], rest);
        assert(c[j + 0] == seq![s[i]][0]);
        if s[i] != '"' {
            if s[i] == '\\' {
                assert(squeeze(s, i + 1, true) == Seq::<char>::empty());
            } else {
                lemma_string_squeeze(s, i + 1, c, j + 1);
            }
        }
    }
}

/// Runs of number or symbol characters are kept as they are.
proof fn lemma_run_squeeze(s: Seq<char>, i: int, c: Seq<char>, j: int)
    requires
        0 <= i <= s.len(),
        0 <= j <= c.len(),
        squeeze(s, i, false) == c.subrange(j, c.len() as int),
    ensures
        word_run(s, i) == word_run(c, j),
        ident_run(s, i) == ident_run(c, j),
        i + word_run(s, i) <= s.len(),
        j + word_run(c, j) <= c.len(),
        ident_run(s, i) <= word_run(s, i),
        s.subrange(i, i + word_run(s, i)) == c.subrange(j, j + word_run(c, j)),
        s.subrange(i, i + ident_run(s, i)) == c.subrange(j, j + ident_run(c, j)),
        squeeze(s, i + word_run(s, i), false) == c.subrange(j + word_run(c, j), c.len() as int),
        squeeze(s, i + ident_run(s, i), false) == c.subrange(j + ident_run(c, j), c.len() as int),
    decreases s.len() - i,
{
    if i >= s.len() {
        assert(c.subrange(j, c.len() as int).len() == 0);
        assert(s.subrange(i, i) =~= c.subrange(j, j));
    } else if is_space(s[i]) {
        lemma_space_squeeze(s, i);
        assert(c.subrange(j, c.len() as int)[0] == c[j]);
        assert(s.subrange(i, i) =~= c.subrange(j, j));
    } else {
        let rest = if s[i] == '"' {
            squeeze(s, i + 1, true)
        } else {
            squeeze(s, i + 1, false)
        };
        lemma_suffix_starts_with(c, j, seq![s[i]], rest);
        assert(c[j + 0] == seq![s[i]][0]);
        if is_word_char(s[i]) {
            lemma_run_squeeze(s, i + 1, c, j + 1);
            let n = word_run(s, i);
            let m = ident_run(s, i);
            assert(s.subrange(i, i + n) =~= seq![s[i]] + s.subrange(i + 1, i + n));
            assert(c.subrange(j, j + n) =~= seq![c[j]] + c.subrange(j + 1, j + n));
            if is_ident_char(s[i]) {
                assert(s.subrange(i, i + m) =~= seq![s[i]] + s.subrange(i + 1, i + m));
                assert(c.subrange(j, j + m) =~= seq![c[j]] + c.subrange(j + 1, j + m));
            } else {
                assert(s.subrange(i, i) =~= c.subrange(j, j));
            }
        } else {
            assert(s.subrange(i, i) =~= c.subrange(j, j));
        }
    }
}

/// Reading a text and reading its squeezed form give the same result, for
/// any open groups.
proof fn lemma_read_squeeze(s: Seq<char>, i: int, c: Seq<char>, j: int, stack: Seq<Frame>)
    requires
        0 <= i <= s.len(),
        0 <= j <= c.len(),
        squeeze(s, i, false) == c.subrange(j, c.len() as int),
    ensures
        read(s, i, stack) == read(c, j, stack),
    decreases s.len() - i,
{
    if i >= s.len() {
        assert(c.subrange(j, c.len() as int).len() == 0);
    } else if is_space(s[i]) {
        if i + 1 < s.len() && is_space(s[i + 1]) {
            lemma_read_squeeze(s, i + 1, c, j, stack);
        } else {
            lemma_suffix_starts_with(c, j, seq![' '], squeeze(s, i + 1, false));
            assert(c[j + 0] == seq![' '][0]);
            lemma_read_squeeze(s, i + 1, c, j + 1, stack);
        }
    } else {
        let rest = if s[i] == '"' {
            squeeze(s, i + 1, true)
        } else {
            squeeze(s, i + 1, false)
        };
        lemma_suffix_starts_with(c, j, seq![s[i]], rest);
        assert(c[j + 0] == seq![s[i]][0]);
        lemma_token_advances(s, i);
        lemma_token_advances(c, j);
        let (tok, e) = token_at(s, i);
        let (tok2, f) = token_at(c, j);
        if s[i] == '"' {
            lemma_string_squeeze(s, i + 1, c, j + 1);
        } else {
            lemma_run_squeeze(s, i, c, j);
        }
        assert(tok == tok2);
        match step(stack, tok) {
            Step::Done(_) => {},
            Step::Next(next) => {
                assert(squeeze(s, e, false) == c.subrange(f, c.len() as int));
                lemma_read_squeeze(s, e, c, f, next);
            },
        }
    }
}

/// Replacing each run of whitespace outside string literals by a single
/// space changes nothing in what a text decodes to.
pub proof fn law_whitespace_runs(s: Seq<char>)
    ensures
        parse(s) == parse(collapse(s)),
{
    let c = collapse(s);
    assert(c.subrange(0, c.len() as int) =~= c);
    lemma_read_squeeze(s, 0, c, 0, Seq::empty());
}

/// `s` stands in `t` from position `k` on, and only whitespace follows it.
pub open spec fn embedded(t: Seq<char>, k: int, s: Seq<char>) -> bool {
    &&& 0 <= k
    &&& k + s.len() <= t.len()
    &&& t.subrange(k, k + s.len()) == s
    &&& forall|m: int| k + s.len() <= m < t.len() ==> is_space(#[trigger] t[m])
}

proof fn lemma_embedded_char(t: Seq<char>, k: int, s: Seq<char>, i: int)
    requires
        embedded(t, k, s),
        0 <= i < s.len(),
    ensures
        t[k + i] == s[i],
{
    assert(t.subrange(k, k + s.len())[i] == t[k + i]);
}

/// A string literal never closes in whitespace.
proof fn lemma_string_body_in_spaces(t: Seq<char>, m: int)
    requires
        0 <= m,
        forall|q: int| m <= q < t.len() ==> is_space(#[trigger] t[q]),
    ensures
        string_body(t, m) is None,
    decreases t.len() - m,
{
    if m < t.len() {
        assert(is_space(t[m]));
        lemma_string_body_in_spaces(t, m + 1);
    }
}

/// Runs read alike in `s` and where `s` stands in `t`.
proof fn lemma_runs_embedded(t: Seq<char>, k: int, s: Seq<char>, i: int)
    requires
        embedded(t, k, s),
        0 <= i <= s.len(),
    ensures
        ident_run(t, k + i) == ident_run(s, i),
        word_run(t, k + i) == word_run(s, i),
    decreases s.len() - i,
{
    if i < s.len() {
        lemma_embedded_char(t, k, s, i);
        lemma_runs_embedded(t, k, s, i + 1);
    } else if k + i < t.len() {
        assert(is_space(t[k + i]));
    }
}

/// String literals read alike in `s` and where `s` stands in `t`.
proof fn lemma_string_embedded(t: Seq<char>, k: int, s: Seq<char>, i: int)
    requires
        embedded(t, k, s),
        0 <= i <= s.len(),
    ensures
        match string_body(s, i) {
            Some((x, e)) => string_body(t, k + i) == Some((x, e + k)),
            None => string_body(t, k + i) is None,
        },
    decreases s.len() - i,
{
    if i == s.len() {
        lemma_string_body_in_spaces(t, k + i);
    } else {
        lemma_embedded_char(t, k, s, i);
        if s[i] == '\\' {
            if i + 1 < s.len() {
                lemma_embedded_char(t, k, s, i + 1);
                lemma_string_embedded(t, k, s, i + 2);
            } else {
                lemma_string_body_in_spaces(t, k + i + 1);
                if k + i + 1 < t.len() {
                    lemma_string_body_in_spaces(t, k + i + 2);
                }
            }
        } else if s[i] != '"' {
            lemma_string_embedded(t, k, s, i + 1);
        }
    }
}

/// Reading `s` and reading `t` where `s` stands in it, followed only by
/// whitespace, give the same result, for any open groups.
proof fn lemma_read_embedded(t: Seq<char>, k: int, s: Seq<char>, i: int, stack: Seq<Frame>)
    requires
        embedded(t, k, s),
        0 <= i <= s.len(),
    ensures
        read(t, k + i, stack) == read(s, i, stack),
    decreases s.len() - i,
{
    if i == s.len() {
        lemma_read_skips(t, k + i, t.len() as int, stack);
    } else {
        lemma_embedded_char(t, k, s, i);
        if is_space(s[i]) {
            lemma_read_embedded(t, k, s, i + 1, stack);
        } else {
            lemma_token_advances(s, i);
            lemma_runs_embedded(t, k, s, i);
            lemma_word_run_bound(s, i);
            lemma_ident_run_bound(s, i);
            lemma_string_embedded(t, k, s, i + 1);
            let (tok, e) = token_at(s, i);
            let n = word_run(s, i) as int;
            let m = ident_run(s, i) as int;
            assert(t.subrange(k + i, k + i + n) =~= s.subrange(i, i + n)) by {
                assert forall|q: int| 0 <= q < n implies #[trigger] t.subrange(k + i, k + i + n)[q]
                    == s.subrange(i, i + n)[q] by {
                    lemma_embedded_char(t, k, s, i + q);
                }
            }
            assert(t.subrange(k + i, k + i + m) =~= s.subrange(i, i + m)) by {
                assert forall|q: int| 0 <= q < m implies #[trigger] t.subrange(k + i, k + i + m)[q]
                    == s.subrange(i, i + m)[q] by {
                    lemma_embedded_char(t, k, s, i + q);
                }
            }
            assert(token_at(t, k + i).0 == tok);
            match step(stack, tok) {
                Step::Done(_) => {},
                Step::Next(next) => {
                    assert(token_at(t, k + i).1 == e + k);
                    lemma_read_embedded(t, k, s, e, next);
                },
            }
        }
    }
}

/// Whitespace before and after a text changes nothing in what it decodes
/// to.
pub proof fn law_whitespace_padding(w1: Seq<char>, s: Seq<char>, w2: Seq<char>)
    requires
        forall|q: int| 0 <= q < w1.len() ==> is_space(#[trigger] w1[q]),
        forall|q: int| 0 <= q < w2.len() ==> is_space(#[trigger] w2[q]),
    ensures
        parse(w1 + s + w2) == parse(s),
{
    let t = w1 + s + w2;
    let k = w1.len() as int;
    assert(t.subrange(k, k + s.len()) =~= s);
    assert forall|m: int| k + s.len() <= m < t.len() implies is_space(#[trigger] t[m]) by {
        assert(t[m] == w2[m - k - s.len()]);
    }
    assert forall|m: int| 0 <= m < k implies is_space(#[trigger] t[m]) by {
        assert(t[m] == w1[m]);
    }
    lemma_read_skips(t, 0, k, Seq::empty());
    lemma_read_embedded(t, k, s, 0, Seq::empty());
}

} // verus!

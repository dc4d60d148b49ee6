//! The scanner over the characters of an input, and the stack of open
//! groups that turns its tokens into values.
use vstd::prelude::*;
use crate::classify::{
    escape_char, integer_value, is_decimal_digit, is_digit, is_ident_char, is_identifier_char,
    is_real_literal, is_space, is_whitespace,
};
use crate::grammar::{
    deliver, end_error, ident_run, lemma_read_skips, prefixed, read_end, lemma_token_advances, read, step, string_body, token_at,
    word_run, Frame, Step, Token,
};
use crate::lisp::{
    lemma_views_index, lemma_views_len, lemma_views_push, result_view, views, Error, Sexp, Value,
};
use crate::text::{chars_of, text_of};

verus! {

/// What one step of [`Parser::next_event`] found.
pub enum Event {
    /// A complete value.
    Parsed(Value),
    /// A run of whitespace, now passed.
    Skipped,
    /// A malformed value, or a character where no value may start.
    ErrorHappened(Error),
    /// The end of the input.
    End,
}

impl Event {
    /// The value of a `Parsed` event.
    pub fn parsed(self) -> (r: Option<Value>)
        ensures
            r == (match self {
                Event::Parsed(v) => Some(v),
                _ => None,
            }),
    {
        match self {
            Event::Parsed(v) => Some(v),
            _ => None,
        }
    }
}

impl From<Result<Value, Error>> for Event {
    /// A decoded value is `Parsed`, an error `ErrorHappened`.
    fn from(r: Result<Value, Error>) -> (ev: Event) {
        match r {
            Ok(v) => Event::Parsed(v),
            Err(e) => Event::ErrorHappened(e),
        }
    }
}

impl vstd::std_specs::convert::FromSpecImpl<Result<Value, Error>> for Event {
    open spec fn obeys_from_spec() -> bool {
        true
    }

    open spec fn from_spec(r: Result<Value, Error>) -> Event {
        match r {
            Ok(v) => Event::Parsed(v),
            Err(e) => Event::ErrorHappened(e),
        }
    }
}

/// The result that an event stands for: a value, or an error.
pub open spec fn event_result(ev: Event) -> Result<Sexp, Error> {
    match ev {
        Event::Parsed(v) => Ok(v@),
        Event::ErrorHappened(e) => Err(e),
        Event::Skipped | Event::End => Err(Error::EndOfInput),
    }
}

/// What the token scanner found at the cursor.
enum Scan {
    /// A string, symbol or number.
    Atom(Value),
    /// A run of whitespace, now passed.
    Skipped,
    /// A malformed token.
    Bad(Error),
    /// The end of the input.
    End,
    /// An opening bracket, with the bracket that closes it.
    Open(char),
    /// A closing bracket.
    Close(char),
    /// A dot standing alone.
    Dot,
}

impl Scan {
    /// The token that a scan other than `Skipped` and `End` stands for.
    closed spec fn token(&self) -> Token {
        match self {
            Scan::Atom(v) => Token::Atom(v@),
            Scan::Bad(e) => Token::Bad(*e),
            Scan::Open(c) => Token::Open(*c),
            Scan::Close(c) => Token::Close(*c),
            Scan::Dot => Token::Dot,
            Scan::Skipped | Scan::End => Token::Bad(Error::EndOfInput),
        }
    }
}

/// The two kinds of bracketed groups, which decode alike.
enum ListType {
    Vec,
    List,
}

impl ListType {
    /// The kind of group that the bracket `op` opens, if it opens one.
    fn from_open(op: char) -> (r: Option<ListType>)
        ensures
            r == (if op == '(' {
                Some(ListType::List)
            } else if op == '[' {
                Some(ListType::Vec)
            } else {
                None
            }),
    {
        match op {
            '(' => Some(ListType::List),
            '[' => Some(ListType::Vec),
            _ => None,
        }
    }

    /// The bracket that closes this kind of group.
    fn close(&self) -> (c: char)
        ensures
            c == (if *self is List {
                ')'
            } else {
                ']'
            }),
    {
        match self {
            ListType::List => ')',
            ListType::Vec => ']',
        }
    }
}

/// A group that is open while the input is read.
enum Group {
    Items { close: char, items: Vec<Value> },
    Dotted { close: char, car: Value },
    Pair { close: char, car: Value, cdr: Value },
}

impl View for Group {
    type V = Frame;

    closed spec fn view(&self) -> Frame {
        match self {
            Group::Items { close, items } => Frame::Items { close: *close, items: views(items@) },
            Group::Dotted { close, car } => Frame::Dotted { close: *close, car: car@ },
            Group::Pair { close, car, cdr } => Frame::Pair { close: *close, car: car@, cdr: cdr@ },
        }
    }
}

/// The frames of the open groups `st`.
spec fn frames(st: Seq<Group>) -> Seq<Frame> {
    st.map_values(|g: Group| g@)
}

proof fn lemma_frames_push(st: Seq<Group>, g: Group)
    ensures
        frames(st.push(g)) == frames(st).push(g@),
{
    assert(frames(st.push(g)) =~= frames(st).push(g@));
}

proof fn lemma_frames_drop_last(st: Seq<Group>)
    requires
        st.len() > 0,
    ensures
        frames(st.drop_last()) == frames(st).drop_last(),
        frames(st).last() == st.last()@,
{
    assert(frames(st.drop_last()) =~= frames(st).drop_last());
}

/// Hands the complete value `v` to the innermost open group, or returns it
/// when no group is open.
fn deliver_value(stack: &mut Vec<Group>, v: Value) -> (r: Option<Result<Value, Error>>)
    ensures
        match deliver(frames(old(stack)@), v@) {
            Step::Done(res) => r matches Some(x) && result_view(x) == res,
            Step::Next(next) => r is None && frames(final(stack)@) == next,
        },
{
    proof {
        if old(stack)@.len() > 0 {
            lemma_frames_drop_last(old(stack)@);
        }
    }
    match stack.pop() {
        None => Some(Ok(v)),
        Some(g) => match g {
            Group::Items { close, mut items } => {
                proof {
                    lemma_views_push(items@, v);
                }
                items.push(v);
                let ghost rest = stack@;
                stack.push(Group::Items { close, items });
                proof {
                    lemma_frames_push(rest, stack@.last());
                }
                None
            },
            Group::Dotted { close, car } => {
                let ghost rest = stack@;
                stack.push(Group::Pair { close, car, cdr: v });
                proof {
                    lemma_frames_push(rest, stack@.last());
                }
                None
            },
            Group::Pair { .. } => Some(Err(Error::UnexpectedDot)),
        },
    }
}

/// A scanning position over the characters of an input.
pub struct Parser {
    src: Vec<char>,
    cursor: usize,
}

impl Parser {
    /// The characters of the input.
    pub closed spec fn text(&self) -> Seq<char> {
        self.src@
    }

    /// The position of the next character to read.
    pub closed spec fn position(&self) -> int {
        self.cursor as int
    }

    /// The cursor stands within the input or at its end.
    pub closed spec fn wf(&self) -> bool {
        self.cursor <= self.src.len()
    }

    /// A parser at the start of `src`.
    pub fn new(src: &str) -> (p: Parser)
        ensures
            p.wf(),
            p.text() == src@,
            p.position() == 0,
    {
        Parser { src: chars_of(src), cursor: 0 }
    }

    /// The character at the cursor, if the input goes on.
    fn ch(&self) -> (r: Option<char>)
        requires
            self.wf(),
        ensures
            r == (if self.cursor < self.src.len() {
                Some(self.src@[self.cursor as int])
            } else {
                None
            }),
    {
        if self.cursor < self.src.len() {
            Some(self.src[self.cursor])
        } else {
            None
        }
    }

    /// Passes the run of whitespace at the cursor.
    fn chop_spaces(&mut self)
        requires
            old(self).wf(),
        ensures
            final(self).wf(),
            final(self).src == old(self).src,
            old(self).cursor <= final(self).cursor,
            forall|k: int|
                old(self).cursor <= k < final(self).cursor ==> is_space(#[trigger] old(self).src@[k]),
            final(self).cursor == old(self).src.len() || !is_space(old(self).src@[final(self).cursor as int]),
    {
        while self.cursor < self.src.len() && is_whitespace(self.src[self.cursor])
            invariant
                self.wf(),
                self.src == old(self).src,
                old(self).cursor <= self.cursor,
                forall|k: int| old(self).cursor <= k < self.cursor ==> is_space(#[trigger] old(self).src@[k]),
            decreases self.src.len() - self.cursor,
        {
            self.cursor += 1;
        }
    }

    /// The end of the run of symbol characters at the cursor.
    fn identifier_end(&self) -> (r: usize)
        requires
            self.wf(),
        ensures
            r == self.cursor + ident_run(self.src@, self.cursor as int),
            r <= self.src.len(),
    {
        let ghost s = self.src@;
        let mut j = self.cursor;
        while j < self.src.len() && is_identifier_char(self.src[j])
            invariant
                self.cursor <= j <= self.src.len(),
                s == self.src@,
                ident_run(s, self.cursor as int) == (j - self.cursor) + ident_run(s, j as int),
            decreases self.src.len() - j,
        {
            j += 1;
        }
        j
    }

    /// The end of the run of number characters at the cursor.
    fn word_end(&self) -> (r: usize)
        requires
            self.wf(),
        ensures
            r == self.cursor + word_run(self.src@, self.cursor as int),
            r <= self.src.len(),
    {
        let ghost s = self.src@;
        let mut j = self.cursor;
        while j < self.src.len() && (is_identifier_char(self.src[j]) || self.src[j] == '.')
            invariant
                self.cursor <= j <= self.src.len(),
                s == self.src@,
                word_run(s, self.cursor as int) == (j - self.cursor) + word_run(s, j as int),
            decreases self.src.len() - j,
        {
            j += 1;
        }
        j
    }

    /// Whether `src[from..to]` holds a dot.
    fn has_dot(&self, from: usize, to: usize) -> (r: bool)
        requires
            from <= to <= self.src.len(),
        ensures
            r == self.src@.subrange(from as int, to as int).contains('.'),
    {
        let ghost w = self.src@.subrange(from as int, to as int);
        let mut i = from;
        while i < to
            invariant
                from <= i <= to <= self.src.len(),
                w == self.src@.subrange(from as int, to as int),
                forall|k: int| from <= k < i ==> self.src@[k] != '.',
            decreases to - i,
        {
            if self.src[i] == '.' {
                assert(w[i - from] == '.');
                return true;
            }
            i += 1;
        }
        assert forall|k: int| 0 <= k < w.len() implies w[k] != '.' by {
            assert(w[k] == self.src@[from + k]);
        }
        false
    }

    /// Reads the string literal whose opening quote is at the cursor.
    fn parse_string(&mut self) -> (ev: Scan)
        requires
            old(self).wf(),
            old(self).cursor < old(self).src.len(),
            old(self).src@[old(self).cursor as int] == '"',
        ensures
            final(self).wf(),
            final(self).src == old(self).src,
            token_at(old(self).src@, old(self).cursor as int) == (ev.token(), final(self).cursor as int),
            ev is Atom || ev is Bad,
    {
        let ghost s = self.src@;
        let ghost start = self.cursor + 1;
        let mut text = String::new();
        let mut i = self.cursor + 1;
        while i < self.src.len() && self.src[i] != '"'
            invariant
                start <= i,
                i <= self.src.len() + 1,
                s == self.src@,
                self.wf(),
                self.src == old(self).src,
                start == old(self).cursor + 1,
                1 <= start <= s.len(),
                s[start - 1] == '"',
                string_body(s, start) == prefixed(text@, string_body(s, i as int)),
            decreases self.src.len() + 1 - i,
        {
            let c = self.src[i];
            if c == '\\' {
                if i + 1 >= self.src.len() {
                    assert(string_body(s, i as int) is None);
                    self.cursor = self.src.len();
                    return Scan::Bad(Error::UnbalancedExpr);
                }
                let d = escape_char(self.src[i + 1]);
                proof {
                    lemma_prefixed_push(text@, d, string_body(s, i + 2));
                }
                text.push(d);
                i += 2;
            } else {
                proof {
                    lemma_prefixed_push(text@, c, string_body(s, i + 1));
                }
                text.push(c);
                i += 1;
            }
        }
        if i >= self.src.len() {
            self.cursor = self.src.len();
            Scan::Bad(Error::UnbalancedExpr)
        } else {
            assert(text@ + Seq::<char>::empty() =~= text@);
            self.cursor = i + 1;
            Scan::Atom(Value::String(text))
        }
    }

    /// Reads the symbol at the cursor, which holds a symbol character.
    fn parse_symbol(&mut self) -> (ev: Scan)
        requires
            old(self).wf(),
            old(self).cursor < old(self).src.len(),
            is_ident_char(old(self).src@[old(self).cursor as int]),
            !is_digit(old(self).src@[old(self).cursor as int]),
            old(self).src@[old(self).cursor as int] != '-',
            old(self).src@[old(self).cursor as int] != '"',
        ensures
            final(self).wf(),
            final(self).src == old(self).src,
            token_at(old(self).src@, old(self).cursor as int) == (ev.token(), final(self).cursor as int),
            ev is Atom,
    {
        let end = self.identifier_end();
        let name = text_of(&self.src, self.cursor, end);
        self.cursor = end;
        Scan::Atom(Value::Symbol(name))
    }

    /// Reads the number, or the symbol, at the cursor, which holds a digit
    /// or a minus sign.
    fn parse_numeric_or_symbol(&mut self) -> (ev: Scan)
        requires
            old(self).wf(),
            old(self).cursor < old(self).src.len(),
            is_digit(old(self).src@[old(self).cursor as int]) || old(self).src@[old(self).cursor as int] == '-',
        ensures
            final(self).wf(),
            final(self).src == old(self).src,
            token_at(old(self).src@, old(self).cursor as int) == (ev.token(), final(self).cursor as int),
            ev is Atom || ev is Bad,
    {
        let beg = self.cursor;
        let end = self.word_end();
        self.cursor = end;
        if self.has_dot(beg, end) {
            if is_real_literal(&self.src, beg, end) {
                Scan::Atom(Value::Real(text_of(&self.src, beg, end)))
            } else {
                Scan::Bad(Error::InvalidNumber)
            }
        } else {
            match integer_value(&self.src, beg, end) {
                Some(n) => Scan::Atom(Value::Integer(n)),
                None => Scan::Atom(Value::Symbol(text_of(&self.src, beg, end))),
            }
        }
    }

    /// Scans one step from the cursor: passes a run of whitespace, or reads
    /// one token, or finds the end of the input.
    fn next_token(&mut self) -> (ev: Scan)
        requires
            old(self).wf(),
        ensures
            final(self).wf(),
            final(self).text() == old(self).text(),
            ev is End <==> old(self).position() == old(self).text().len(),
            ev is End ==> final(self).position() == old(self).position(),
            ev is Skipped ==> old(self).position() < final(self).position() && forall|k: int|
                old(self).position() <= k < final(self).position() ==> is_space(
                    #[trigger] old(self).text()[k],
                ),
            !(ev is End) && !(ev is Skipped) ==> !is_space(old(self).text()[old(self).position()])
                && token_at(old(self).text(), old(self).position()) == (
                ev.token(),
                final(self).position(),
            ),
    {
        let c = match self.ch() {
            None => return Scan::End,
            Some(c) => c,
        };
        if is_whitespace(c) {
            self.chop_spaces();
            return Scan::Skipped;
        }
        if let Some(kind) = ListType::from_open(c) {
            self.cursor += 1;
            return Scan::Open(kind.close());
        }
        if c == ')' || c == ']' {
            self.cursor += 1;
            Scan::Close(c)
        } else if c == '.' {
            self.cursor += 1;
            Scan::Dot
        } else if c == '"' {
            self.parse_string()
        } else if is_decimal_digit(c) || c == '-' {
            self.parse_numeric_or_symbol()
        } else if is_identifier_char(c) {
            self.parse_symbol()
        } else {
            self.cursor += 1;
            Scan::Bad(Error::UnbalancedExpr)
        }
    }
}

/// Applies the token of `ev` to the open groups `stack`.
fn apply(stack: &mut Vec<Group>, ev: Scan) -> (r: Option<Result<Value, Error>>)
    requires
        !(ev is Skipped),
        !(ev is End),
    ensures
        match step(frames(old(stack)@), ev.token()) {
            Step::Done(res) => r matches Some(x) && result_view(x) == res,
            Step::Next(next) => r is None && frames(final(stack)@) == next,
        },
{
    proof {
        if old(stack)@.len() > 0 {
            lemma_frames_drop_last(old(stack)@);
        }
    }
    match ev {
        Scan::Atom(v) => deliver_value(stack, v),
        Scan::Open(close) => {
            let n = stack.len();
            if n > 0 {
                if let Group::Pair { .. } = &stack[n - 1] {
                    return Some(Err(Error::UnexpectedDot));
                }
            }
            let ghost before = stack@;
            let items: Vec<Value> = Vec::new();
            proof {
                assert(views(items@) == Seq::<Sexp>::empty());
            }
            stack.push(Group::Items { close, items });
            proof {
                lemma_frames_push(before, stack@.last());
            }
            None
        },
        Scan::Close(c) => match stack.pop() {
            None => Some(Err(Error::UnbalancedExpr)),
            Some(Group::Items { close, items }) => if c == close {
                deliver_value(stack, Value::List(items))
            } else {
                Some(Err(Error::UnbalancedExpr))
            },
            Some(Group::Dotted { .. }) => Some(Err(Error::UnexpectedDot)),
            Some(Group::Pair { close, car, cdr }) => if c == close {
                deliver_value(stack, Value::Cons(Box::new(car), Box::new(cdr)))
            } else {
                Some(Err(Error::UnbalancedExpr))
            },
        },
        Scan::Dot => match stack.pop() {
            None => Some(Err(Error::UnexpectedDot)),
            Some(Group::Items { close, mut items }) => {
                proof {
                    lemma_views_len(items@);
                }
                if items.len() == 0 {
                    return Some(Err(Error::UnexpectedDot));
                }
                let car = if items.len() == 1 {
                    proof {
                        lemma_views_index(items@, 0);
                    }
                    items.pop().unwrap()
                } else {
                    Value::List(items)
                };
                let ghost before = stack@;
                stack.push(Group::Dotted { close, car });
                proof {
                    lemma_frames_push(before, stack@.last());
                }
                None
            },
            Some(_) => Some(Err(Error::UnexpectedDot)),
        },
        Scan::Bad(e) => Some(Err(e)),
        _ => None,
    }
}

/// The error for an input that ends with the groups `stack` open.
fn end_error_of(stack: &Vec<Group>) -> (e: Error)
    ensures
        e == end_error(frames(stack@)),
{
    let n = stack.len();
    if n == 0 {
        return Error::EndOfInput;
    }
    proof {
        lemma_frames_drop_last(stack@);
    }
    match &stack[n - 1] {
        Group::Dotted { .. } => Error::EndOfInput,
        _ => Error::UnbalancedExpr,
    }
}

impl Parser {
    /// Reads one value from the cursor on, with the open groups kept on a
    /// stack of their own, so that deep nesting needs no deep recursion.
    fn read_value(&mut self) -> (r: Result<Value, Error>)
        requires
            old(self).wf(),
        ensures
            final(self).wf(),
            final(self).text() == old(self).text(),
            result_view(r) == read(old(self).text(), old(self).position(), Seq::empty()),
            r is Ok ==> final(self).position() == read_end(
                old(self).text(),
                old(self).position(),
                Seq::empty(),
            ),
    {
        let ghost s = self.src@;
        let ghost goal = read(s, self.cursor as int, Seq::empty());
        let ghost goal_end = read_end(s, self.cursor as int, Seq::empty());
        let mut stack: Vec<Group> = Vec::new();
        proof {
            assert(frames(stack@) =~= Seq::<Frame>::empty());
        }
        loop
            invariant
                self.wf(),
                self.src@ == s,
                s == old(self).src@,
                goal == read(s, old(self).cursor as int, Seq::empty()),
                goal_end == read_end(s, old(self).cursor as int, Seq::empty()),
                read(s, self.cursor as int, frames(stack@)) == goal,
                read_end(s, self.cursor as int, frames(stack@)) == goal_end,
            decreases s.len() - self.cursor,
        {
            let ghost before = self.cursor as int;
            let ghost open = frames(stack@);
            let ev = self.next_token();
            match ev {
                Scan::End => {
                    return Err(end_error_of(&stack));
                },
                Scan::Skipped => {
                    proof {
                        lemma_read_skips(s, before, self.cursor as int, open);
                    }
                },
                _ => {
                    proof {
                        lemma_token_advances(s, before);
                    }
                    match apply(&mut stack, ev) {
                        Some(r) => {
                            return r;
                        },
                        None => {},
                    }
                },
            }
        }
    }

    /// Takes one step from the cursor: passes a run of whitespace, reads one
    /// complete value, or finds the end of the input. A dot or a closing
    /// bracket, where a value should start, is an error and stays unread.
    pub fn next_event(&mut self) -> (ev: Event)
        requires
            old(self).wf(),
        ensures
            final(self).wf(),
            final(self).text() == old(self).text(),
            ({
                let s = old(self).text();
                let i = old(self).position();
                let j = final(self).position();
                &&& ev is End <==> i == s.len()
                &&& ev is End ==> j == i
                &&& ev is Skipped <==> i < s.len() && is_space(s[i])
                &&& ev is Skipped ==> i < j && (j == s.len() || !is_space(s[j])) && forall|k: int|
                    i <= k < j ==> is_space(#[trigger] s[k])
                &&& i < s.len() && !is_space(s[i]) ==> event_result(ev) == read(s, i, Seq::empty())
                &&& ev is Parsed ==> j == read_end(s, i, Seq::empty())
                &&& i < s.len() && (s[i] == '.' || s[i] == ')' || s[i] == ']') ==> j == i
            }),
    {
        let c = match self.ch() {
            None => return Event::End,
            Some(c) => c,
        };
        if is_whitespace(c) {
            self.chop_spaces();
            return Event::Skipped;
        }
        if c == '.' {
            return Event::ErrorHappened(Error::UnexpectedDot);
        }
        if c == ')' || c == ']' {
            return Event::ErrorHappened(Error::UnbalancedExpr);
        }
        match self.read_value() {
            Ok(v) => Event::Parsed(v),
            Err(e) => Event::ErrorHappened(e),
        }
    }

    /// Reads the value that starts at the cursor, after any whitespace; the
    /// cursor then stands just after it, and what follows is not looked at.
    pub fn parse(&mut self) -> (r: Result<Value, Error>)
        requires
            old(self).wf(),
        ensures
            final(self).wf(),
            final(self).text() == old(self).text(),
            result_view(r) == read(old(self).text(), old(self).position(), Seq::empty()),
            r is Ok ==> final(self).position() == read_end(
                old(self).text(),
                old(self).position(),
                Seq::empty(),
            ),
    {
        let ghost s = self.src@;
        let ghost goal = read(s, self.cursor as int, Seq::empty());
        let ghost goal_end = read_end(s, self.cursor as int, Seq::empty());
        loop
            invariant
                self.wf(),
                self.src@ == s,
                s == old(self).src@,
                goal == read(s, old(self).cursor as int, Seq::empty()),
                goal_end == read_end(s, old(self).cursor as int, Seq::empty()),
                read(s, self.cursor as int, Seq::empty()) == goal,
                read_end(s, self.cursor as int, Seq::empty()) == goal_end,
            decreases s.len() - self.cursor,
        {
            let ghost before = self.cursor as int;
            match self.next_event() {
                Event::Skipped => {
                    proof {
                        lemma_read_skips(s, before, self.cursor as int, Seq::empty());
                    }
                },
                Event::End => {
                    return Err(Error::EndOfInput);
                },
                Event::Parsed(v) => {
                    return Ok(v);
                },
                Event::ErrorHappened(e) => {
                    return Err(e);
                },
            }
        }
    }
}

proof fn lemma_prefixed_push(acc: Seq<char>, c: char, r: Option<(Seq<char>, int)>)
    ensures
        prefixed(acc, prefixed(seq![c], r)) == prefixed(acc.push(c), r),
{
    if let Some((t, end)) = r {
        assert(acc + (seq![c] + t) =~= acc.push(c) + t);
    }
}

} // verus!

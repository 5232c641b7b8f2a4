use vstd::prelude::*;
use vstd::string::StrSliceExecFns;

use crate::error::RedisError;
use crate::text::{collect_chars, integer_text_value, parse_i64};

verus! {

// ---------------------------------------------------------------------
// The model: what each read does to the characters that are left.
// ---------------------------------------------------------------------

/// How a read ends: with a value, with an error message, or by aborting
/// the program (an integer field whose text is not a valid `i64`).
pub enum Outcome<T> {
    Value(T),
    Failure(Seq<char>),
    Abort,
}

/// A read: how it ends, the characters left after it, and how much it adds
/// to the reader's count of skipped and consumed characters. A read that
/// aborts is left where the integer text that it could not read starts.
pub struct Step<T> {
    pub outcome: Outcome<T>,
    pub rest: Seq<char>,
    pub counted: nat,
}

/// What a frame read hands to the consumer of the data: a text borrowed
/// from the input, an owned text, an integer, or the announced length of
/// an array.
pub enum Token {
    Borrowed(Seq<char>),
    Owned(Seq<char>),
    Int(int),
    ArrayLen(int),
}

pub open spec fn msg_peek_eof() -> Seq<char> {
    "Peek EOF"@
}

pub open spec fn msg_eof_string() -> Seq<char> {
    "Eof string"@
}

pub open spec fn msg_eof_integer() -> Seq<char> {
    "Eof intege"@
}

pub open spec fn msg_invalid_integer() -> Seq<char> {
    "InvalidInteger"@
}

pub open spec fn msg_invalid_bulk_string() -> Seq<char> {
    "InvalidBulkString"@
}

pub open spec fn msg_expected_array() -> Seq<char> {
    "ExpectedArray"@
}

pub open spec fn msg_syntax() -> Seq<char> {
    "Syntax"@
}

/// The first index at or after `i` that holds a line feed.
pub open spec fn newline_index_from(s: Seq<char>, i: int) -> Option<int>
    decreases s.len() - i,
{
    if i < 0 || i >= s.len() {
        None
    } else if s[i] == '\n' {
        Some(i)
    } else {
        newline_index_from(s, i + 1)
    }
}

/// The first index of a line feed in `s`.
pub open spec fn newline_index(s: Seq<char>) -> Option<int> {
    newline_index_from(s, 0)
}

/// `s` holds a carriage return followed by a line feed at index `i`.
pub open spec fn crlf_at(s: Seq<char>, i: int) -> bool {
    0 <= i && i + 1 < s.len() && s[i] == '\r' && s[i + 1] == '\n'
}

/// The first index at or after `i` where `s` holds `\r\n`.
pub open spec fn crlf_index_from(s: Seq<char>, i: int) -> Option<int>
    decreases s.len() - i,
{
    if i < 0 || i + 1 >= s.len() {
        None
    } else if crlf_at(s, i) {
        Some(i)
    } else {
        crlf_index_from(s, i + 1)
    }
}

/// The first index of `\r\n` in `s`.
pub open spec fn crlf_index(s: Seq<char>) -> Option<int> {
    crlf_index_from(s, 0)
}

/// A failed read that leaves the input as it was.
pub open spec fn fail<T>(msg: Seq<char>, s: Seq<char>) -> Step<T> {
    Step { outcome: Outcome::Failure(msg), rest: s, counted: 0 }
}

/// Takes the first character.
pub open spec fn read_char(s: Seq<char>) -> Step<char> {
    if s.len() > 0 {
        Step { outcome: Outcome::Value(s[0]), rest: s.drop_first(), counted: 0 }
    } else {
        fail(msg_peek_eof(), s)
    }
}

/// Consumes characters up to and including the first line feed, counting
/// the ones before it; without a line feed, consumes everything and fails.
pub open spec fn skip_line(s: Seq<char>) -> Step<()> {
    match newline_index(s) {
        Some(j) => Step { outcome: Outcome::Value(()), rest: s.skip(j + 1), counted: j as nat },
        None => Step {
            outcome: Outcome::Failure(msg_peek_eof()),
            rest: Seq::empty(),
            counted: s.len(),
        },
    }
}

/// The text before the first `\r\n`; what is left starts at its `\n`.
pub open spec fn read_simple(s: Seq<char>) -> Step<Seq<char>> {
    match crlf_index(s) {
        Some(k) => Step { outcome: Outcome::Value(s.take(k)), rest: s.skip(k + 1), counted: 0 },
        None => fail(msg_eof_string(), s),
    }
}

/// Skips the rest of the current line, then reads a simple text.
pub open spec fn read_bulk(s: Seq<char>) -> Step<Seq<char>> {
    let a = skip_line(s);
    match a.outcome {
        Outcome::Value(_) => {
            let b = read_simple(a.rest);
            Step { outcome: b.outcome, rest: b.rest, counted: a.counted + b.counted }
        },
        Outcome::Failure(m) => Step { outcome: Outcome::Failure(m), rest: a.rest, counted: a.counted },
        Outcome::Abort => Step { outcome: Outcome::Abort, rest: a.rest, counted: a.counted },
    }
}

/// The integer written before the first `\r\n`; aborts where that text is
/// not a valid `i64`.
pub open spec fn read_integer(s: Seq<char>) -> Step<int> {
    match crlf_index(s) {
        Some(k) => match integer_text_value(s.take(k)) {
            Some(v) => Step { outcome: Outcome::Value(v), rest: s.skip(k + 1), counted: k as nat },
            None => Step { outcome: Outcome::Abort, rest: s, counted: 0 },
        },
        None => fail(msg_eof_integer(), s),
    }
}

/// Ends a composite read with the outcome of an integer read, turned into
/// a token by `f`.
pub open spec fn after_integer(
    b: Step<int>,
    counted_before: nat,
    f: spec_fn(int) -> Token,
) -> Step<Token> {
    match b.outcome {
        Outcome::Value(v) => Step {
            outcome: Outcome::Value(f(v)),
            rest: b.rest,
            counted: counted_before + b.counted,
        },
        Outcome::Failure(m) => Step {
            outcome: Outcome::Failure(m),
            rest: b.rest,
            counted: counted_before + b.counted,
        },
        Outcome::Abort => Step { outcome: Outcome::Abort, rest: b.rest, counted: counted_before + b.counted },
    }
}

/// Ends a composite read with the outcome of a text read, turned into a
/// token by `f`.
pub open spec fn after_text(
    b: Step<Seq<char>>,
    counted_before: nat,
    f: spec_fn(Seq<char>) -> Token,
) -> Step<Token> {
    match b.outcome {
        Outcome::Value(t) => Step {
            outcome: Outcome::Value(f(t)),
            rest: b.rest,
            counted: counted_before + b.counted,
        },
        Outcome::Failure(m) => Step {
            outcome: Outcome::Failure(m),
            rest: b.rest,
            counted: counted_before + b.counted,
        },
        Outcome::Abort => Step { outcome: Outcome::Abort, rest: b.rest, counted: counted_before + b.counted },
    }
}

/// An integer frame: `:` then the integer and `\r\n`.
pub open spec fn read_i64_frame(s: Seq<char>) -> Step<Token> {
    if s.len() == 0 {
        fail(msg_peek_eof(), s)
    } else if s[0] != ':' {
        fail(msg_invalid_integer(), s.drop_first())
    } else {
        after_integer(read_integer(s.drop_first()), 0, |v: int| Token::Int(v))
    }
}

/// After the rest of the current line: `$`, a length line, then the text
/// up to the next `\r\n`. The length is read and not used.
pub open spec fn read_str_frame(s: Seq<char>) -> Step<Token> {
    let a = skip_line(s);
    match a.outcome {
        Outcome::Value(_) => {
            let t = a.rest;
            if t.len() == 0 {
                Step { outcome: Outcome::Failure(msg_peek_eof()), rest: t, counted: a.counted }
            } else if t[0] != '$' {
                Step {
                    outcome: Outcome::Failure(msg_invalid_bulk_string()),
                    rest: t.drop_first(),
                    counted: a.counted,
                }
            } else {
                let d = read_integer(t.drop_first());
                match d.outcome {
                    Outcome::Value(_) => after_text(
                        read_bulk(d.rest),
                        a.counted + 1 + d.counted,
                        |x: Seq<char>| Token::Borrowed(x),
                    ),
                    Outcome::Failure(m) => Step {
                        outcome: Outcome::Failure(m),
                        rest: d.rest,
                        counted: a.counted + 1 + d.counted,
                    },
                    Outcome::Abort => Step {
                        outcome: Outcome::Abort,
                        rest: d.rest,
                        counted: a.counted + 1 + d.counted,
                    },
                }
            }
        },
        Outcome::Failure(m) => Step { outcome: Outcome::Failure(m), rest: a.rest, counted: a.counted },
        Outcome::Abort => Step { outcome: Outcome::Abort, rest: a.rest, counted: a.counted },
    }
}

/// A text frame: `+` and a simple text (owned), `$` with a length line and
/// the text (borrowed), or otherwise what `read_str_frame` reads.
pub open spec fn read_string_frame(s: Seq<char>) -> Step<Token> {
    if s.len() == 0 {
        fail(msg_peek_eof(), s)
    } else if s[0] == '+' {
        after_text(read_simple(s.drop_first()), 0, |x: Seq<char>| Token::Owned(x))
    } else if s[0] == '$' {
        let d = read_integer(s.drop_first());
        match d.outcome {
            Outcome::Value(_) => after_text(read_bulk(d.rest), d.counted, |x: Seq<char>| Token::Borrowed(x)),
            Outcome::Failure(m) => Step { outcome: Outcome::Failure(m), rest: d.rest, counted: d.counted },
            Outcome::Abort => Step { outcome: Outcome::Abort, rest: d.rest, counted: d.counted },
        }
    } else {
        read_str_frame(s)
    }
}

/// An array header: `*` then the element count and `\r\n`.
pub open spec fn read_seq_frame(s: Seq<char>) -> Step<Token> {
    if s.len() == 0 {
        fail(msg_peek_eof(), s)
    } else if s[0] == '*' {
        after_integer(read_integer(s.drop_first()), 0, |v: int| Token::ArrayLen(v))
    } else {
        fail(msg_expected_array(), s.drop_first())
    }
}

/// A frame of any kind, chosen by its first character.
pub open spec fn read_any_frame(s: Seq<char>) -> Step<Token> {
    if s.len() == 0 {
        fail(msg_peek_eof(), s)
    } else if s[0] == '+' {
        read_string_frame(s)
    } else if s[0] == '-' || s[0] == '$' {
        read_str_frame(s)
    } else if s[0] == ':' {
        read_i64_frame(s)
    } else if s[0] == '*' {
        read_seq_frame(s)
    } else {
        fail(msg_syntax(), s)
    }
}

// ---------------------------------------------------------------------
// The reader.
// ---------------------------------------------------------------------

/// An element of a RESP array: a text or an integer.
#[derive(Debug, PartialEq)]
pub enum RedisArray {
    String(String),
    Int(i64),
}

/// What a frame read hands on, borrowing texts from the input where the
/// frame kind allows it.
#[derive(Debug, PartialEq)]
pub enum Visit<'de> {
    BorrowedStr(&'de str),
    String(String),
    I64(i64),
    Array(i64),
}

impl<'de> View for Visit<'de> {
    type V = Token;

    open spec fn view(&self) -> Token {
        match self {
            Visit::BorrowedStr(s) => Token::Borrowed(s@),
            Visit::String(s) => Token::Owned(s@),
            Visit::I64(v) => Token::Int(*v as int),
            Visit::Array(n) => Token::ArrayLen(*n as int),
        }
    }
}

/// An exec result says what the model's outcome says.
pub open spec fn agrees_char(r: Result<char, RedisError>, o: Outcome<char>) -> bool {
    match r {
        Ok(c) => o == Outcome::Value(c),
        Err(e) => o == Outcome::<char>::Failure(e@),
    }
}

pub open spec fn agrees_unit(r: Result<(), RedisError>, o: Outcome<()>) -> bool {
    match r {
        Ok(_) => o == Outcome::Value(()),
        Err(e) => o == Outcome::<()>::Failure(e@),
    }
}

pub open spec fn agrees_text(r: Result<&str, RedisError>, o: Outcome<Seq<char>>) -> bool {
    match r {
        Ok(t) => o == Outcome::Value(t@),
        Err(e) => o == Outcome::<Seq<char>>::Failure(e@),
    }
}

pub open spec fn agrees_int(r: Result<i64, RedisError>, o: Outcome<int>) -> bool {
    match r {
        Ok(v) => o == Outcome::Value(v as int),
        Err(e) => o == Outcome::<int>::Failure(e@),
    }
}

pub open spec fn agrees_token(r: Result<Visit, RedisError>, o: Outcome<Token>) -> bool {
    match r {
        Ok(v) => o == Outcome::Value(v@),
        Err(e) => o == Outcome::<Token>::Failure(e@),
    }
}

/// A RESP reader over a borrowed text.
pub struct Deserializer<'de> {
    input: &'de str,
    chars: Vec<char>,
    start: usize,
    pos: usize,
}

impl<'de> View for Deserializer<'de> {
    type V = Seq<char>;

    /// The characters not read yet.
    closed spec fn view(&self) -> Seq<char> {
        self.chars@.skip(self.start as int)
    }
}

impl<'de> Deserializer<'de> {
    /// The reader's count of characters it skipped over or read as integer
    /// text.
    pub closed spec fn counted(&self) -> nat {
        self.pos as nat
    }

    /// The fields agree with each other.
    pub closed spec fn wf(&self) -> bool {
        &&& self.chars@ == self.input@
        &&& self.start <= self.chars@.len()
        &&& self.pos <= self.start
    }

    /// `self` reads the same input as `other`.
    pub closed spec fn same_source(&self, other: &Deserializer<'de>) -> bool {
        &&& self.input == other.input
        &&& self.chars == other.chars
    }

    /// `self` is the reader after `step`, started from `before`.
    pub open spec fn follows<T>(&self, before: &Deserializer<'de>, step: Step<T>) -> bool {
        &&& self.wf()
        &&& self.same_source(before)
        &&& self@ == step.rest
        &&& self.counted() == before.counted() + step.counted
    }

    /// A reader at the start of `input`.
    pub fn from_str(input: &'de str) -> (d: Self)
        ensures
            d.wf(),
            d@ == input@,
            d.counted() == 0,
    {
        let chars = collect_chars(input);
        let pos: usize = 0;
        let d = Deserializer { input, chars, start: 0, pos };
        assert(d.chars@.skip(0) =~= input@);
        d
    }

    /// The next character, without consuming it.
    pub fn peek_char(&mut self) -> (r: Result<char, RedisError>)
        requires
            old(self).wf(),
        ensures
            *final(self) == *old(self),
            agrees_char(r, read_char(old(self)@).outcome),
    {
        if self.start < self.chars.len() {
            Ok(self.chars[self.start])
        } else {
            Err(RedisError::Message("Peek EOF".to_owned()))
        }
    }

    /// Consumes and returns the next character.
    pub fn next_char(&mut self) -> (r: Result<char, RedisError>)
        requires
            old(self).wf(),
        ensures
            final(self).follows(old(self), read_char(old(self)@)),
            agrees_char(r, read_char(old(self)@).outcome),
    {
        let ch = self.peek_char()?;
        assert(self@.len() > 0);
        assert(self.start < self.chars.len());
        self.start = self.start + 1;
        assert(self@ =~= old(self)@.drop_first());
        Ok(ch)
    }

    /// Where the next `\r\n` starts, counted from the next character.
    fn find_crlf(&self) -> (r: Option<usize>)
        requires
            self.wf(),
        ensures
            r matches Some(k) ==> crlf_index(self@) == Some(k as int) && self.start + k + 1 < self.chars.len(),
            r is None ==> crlf_index(self@) is None,
    {
        let ghost s = self@;
        let n = self.chars.len();
        let rem = n - self.start;
        let mut j: usize = 0;
        while j < rem && rem - j > 1
            invariant
                self.wf(),
                s == self@,
                n == self.chars@.len(),
                rem == n - self.start,
                j <= rem,
                crlf_index(s) == crlf_index_from(s, j as int),
            decreases n - j,
        {
            if self.chars[self.start + j] == '\r' && self.chars[self.start + j + 1] == '\n' {
                assert(crlf_at(s, j as int));
                return Some(j);
            }
            assert(!crlf_at(s, j as int));
            j = j + 1;
        }
        None
    }

    /// Where the next line feed is, counted from the next character.
    fn find_newline(&self) -> (r: Option<usize>)
        requires
            self.wf(),
        ensures
            r matches Some(k) ==> newline_index(self@) == Some(k as int) && self.start + k < self.chars.len(),
            r is None ==> newline_index(self@) is None,
    {
        let ghost s = self@;
        let n = self.chars.len();
        let mut j: usize = 0;
        while self.start + j < n
            invariant
                self.wf(),
                s == self@,
                n == self.chars@.len(),
                self.start + j <= n,
                newline_index(s) == newline_index_from(s, j as int),
            decreases n - j,
        {
            if self.chars[self.start + j] == '\n' {
                return Some(j);
            }
            j = j + 1;
        }
        None
    }

    /// Consumes the rest of the current line, up to and including its line
    /// feed, counting the characters before the line feed.
    pub fn skip_line(&mut self) -> (r: Result<(), RedisError>)
        requires
            old(self).wf(),
        ensures
            final(self).follows(old(self), skip_line(old(self)@)),
            agrees_unit(r, skip_line(old(self)@).outcome),
    {
        let ghost s = self@;
        let ghost first = self.start;
        proof {
            match newline_index(s) {
                Some(k) => {},
                None => {},
            }
        }
        assert(s.skip(0) =~= s);
        loop
            invariant
                self.wf(),
                self.input == old(self).input,
                self.chars == old(self).chars,
                s == old(self)@,
                first == old(self).start,
                first <= self.start,
                self.pos == old(self).pos + (self.start - first),
                self@ == s.skip(self.start - first),
                newline_index(s) == newline_index_from(s, self.start - first),
            decreases self.chars@.len() - self.start,
        {
            let ghost j = self.start - first;
            let c = match self.next_char() {
                Ok(c) => c,
                Err(e) => {
                    assert(self@ =~= Seq::<char>::empty());
                    return Err(e);
                },
            };
            assert(self@ =~= s.skip(j + 1));
            if c == '\n' {
                return Ok(());
            }
            self.pos = self.pos + 1;
        }
    }

    /// The text before the next `\r\n`, borrowed from the input; the reader
    /// is left on the `\n`.
    pub fn parse_simple_string(&mut self) -> (r: Result<&'de str, RedisError>)
        requires
            old(self).wf(),
        ensures
            final(self).follows(old(self), read_simple(old(self)@)),
            agrees_text(r, read_simple(old(self)@).outcome),
    {
        match self.find_crlf() {
            Some(len) => {
                let input: &'de str = self.input;
                let s = input.substring_char(self.start, self.start + len);
                self.start = self.start + len + 1;
                assert(s@ =~= old(self)@.take(len as int));
                assert(self@ =~= old(self)@.skip(len + 1));
                Ok(s)
            },
            None => Err(RedisError::Message("Eof string".to_owned())),
        }
    }

    /// Skips the rest of the current line, then reads a simple text.
    pub fn parse_bulk_string(&mut self) -> (r: Result<&'de str, RedisError>)
        requires
            old(self).wf(),
        ensures
            final(self).follows(old(self), read_bulk(old(self)@)),
            agrees_text(r, read_bulk(old(self)@).outcome),
    {
        self.skip_line()?;
        self.parse_simple_string()
    }

    /// The integer before the next `\r\n`, read as `str::parse::<i64>`
    /// reads it; the reader is left on the `\n`. `None` where that text is
    /// not a valid `i64` (a read that aborts), and then the reader is left
    /// as it was.
    pub fn try_parse_integer(&mut self) -> (r: Option<Result<i64, RedisError>>)
        requires
            old(self).wf(),
        ensures
            final(self).follows(old(self), read_integer(old(self)@)),
            r is None <==> read_integer(old(self)@).outcome is Abort,
            r is None ==> *final(self) == *old(self),
            r matches Some(x) ==> agrees_int(x, read_integer(old(self)@).outcome),
    {
        match self.find_crlf() {
            Some(len) => {
                let end = self.start + len;
                assert(self.chars@.subrange(self.start as int, end as int) =~= self@.take(len as int));
                match parse_i64(&self.chars, self.start, end) {
                    Some(v) => {
                        self.start = end + 1;
                        self.pos = self.pos + len;
                        assert(self@ =~= old(self)@.skip(len + 1));
                        Some(Ok(v))
                    },
                    None => None,
                }
            },
            None => Some(Err(RedisError::Message("Eof intege".to_owned()))),
        }
    }

    /// The integer before the next `\r\n`; the reader is left on the `\n`.
    pub fn parse_integer(&mut self) -> (r: Result<i64, RedisError>)
        requires
            old(self).wf(),
            !(read_integer(old(self)@).outcome is Abort),
        ensures
            final(self).follows(old(self), read_integer(old(self)@)),
            agrees_int(r, read_integer(old(self)@).outcome),
    {
        match self.try_parse_integer() {
            Some(r) => r,
            None => unreached(),
        }
    }

    /// Reads an integer frame `:<i64>\r\n`. `None` where the integer text is
    /// not a valid `i64`, on which reading aborts.
    pub fn deserialize_i64(&mut self) -> (r: Option<Result<Visit<'de>, RedisError>>)
        requires
            old(self).wf(),
        ensures
            final(self).follows(old(self), read_i64_frame(old(self)@)),
            r is None <==> read_i64_frame(old(self)@).outcome is Abort,
            r matches Some(x) ==> agrees_token(x, read_i64_frame(old(self)@).outcome),
    {
        let c = match self.next_char() {
            Ok(c) => c,
            Err(e) => return Some(Err(e)),
        };
        if c != ':' {
            return Some(Err(RedisError::Message("InvalidInteger".to_owned())));
        }
        match self.try_parse_integer() {
            None => None,
            Some(Ok(v)) => Some(Ok(Visit::I64(v))),
            Some(Err(e)) => Some(Err(e)),
        }
    }

    /// Skips the rest of the current line, then reads a bulk text
    /// `$<length>\r\n<text>\r\n`, borrowing the text; the length is read and
    /// not used. `None` where the length is not a valid `i64`.
    pub fn deserialize_str(&mut self) -> (r: Option<Result<Visit<'de>, RedisError>>)
        requires
            old(self).wf(),
        ensures
            final(self).follows(old(self), read_str_frame(old(self)@)),
            r is None <==> read_str_frame(old(self)@).outcome is Abort,
            r matches Some(x) ==> agrees_token(x, read_str_frame(old(self)@).outcome),
    {
        if let Err(e) = self.skip_line() {
            return Some(Err(e));
        }
        let c = match self.next_char() {
            Ok(c) => c,
            Err(e) => return Some(Err(e)),
        };
        if c != '$' {
            return Some(Err(RedisError::Message("InvalidBulkString".to_owned())));
        }
        self.pos = self.pos + 1;
        match self.try_parse_integer() {
            None => return None,
            Some(Err(e)) => return Some(Err(e)),
            Some(Ok(_size)) => {},
        }
        match self.parse_bulk_string() {
            Ok(s) => Some(Ok(Visit::BorrowedStr(s))),
            Err(e) => Some(Err(e)),
        }
    }

    /// Reads a text frame: `+<text>\r\n` gives an owned text, `$<length>\r\n
    /// <text>\r\n` a borrowed one; any other frame is read as
    /// `deserialize_str` reads it. `None` where a length is not a valid `i64`.
    pub fn deserialize_string(&mut self) -> (r: Option<Result<Visit<'de>, RedisError>>)
        requires
            old(self).wf(),
        ensures
            final(self).follows(old(self), read_string_frame(old(self)@)),
            r is None <==> read_string_frame(old(self)@).outcome is Abort,
            r matches Some(x) ==> agrees_token(x, read_string_frame(old(self)@).outcome),
    {
        let c = match self.peek_char() {
            Ok(c) => c,
            Err(e) => return Some(Err(e)),
        };
        if c == '+' {
            match self.next_char() {
                Ok(c2) => {
                    if c2 != '+' {
                        return Some(Err(RedisError::Message("Invalid String".to_owned())));
                    }
                },
                Err(e) => return Some(Err(e)),
            }
            match self.parse_simple_string() {
                Ok(s) => Some(Ok(Visit::String(s.to_owned()))),
                Err(e) => Some(Err(e)),
            }
        } else if c == '$' {
            match self.next_char() {
                Ok(c2) => {
                    if c2 != '$' {
                        return Some(Err(RedisError::Message("Invalid String".to_owned())));
                    }
                },
                Err(e) => return Some(Err(e)),
            }
            match self.try_parse_integer() {
                None => return None,
                Some(Err(e)) => return Some(Err(e)),
                Some(Ok(_size)) => {},
            }
            match self.parse_bulk_string() {
                Ok(s) => Some(Ok(Visit::BorrowedStr(s))),
                Err(e) => Some(Err(e)),
            }
        } else {
            self.deserialize_str()
        }
    }

    /// Reads an array header `*<count>\r\n`; the elements follow it. `None`
    /// where the count is not a valid `i64`.
    pub fn deserialize_seq(&mut self) -> (r: Option<Result<Visit<'de>, RedisError>>)
        requires
            old(self).wf(),
        ensures
            final(self).follows(old(self), read_seq_frame(old(self)@)),
            r is None <==> read_seq_frame(old(self)@).outcome is Abort,
            r matches Some(x) ==> agrees_token(x, read_seq_frame(old(self)@).outcome),
    {
        let c = match self.next_char() {
            Ok(c) => c,
            Err(e) => return Some(Err(e)),
        };
        if c == '*' {
            match self.try_parse_integer() {
                None => None,
                Some(Ok(n)) => Some(Ok(Visit::Array(n))),
                Some(Err(e)) => Some(Err(e)),
            }
        } else {
            Some(Err(RedisError::Message("ExpectedArray".to_owned())))
        }
    }

    /// Reads a frame of the kind its first character announces: `+` a text,
    /// `-` and `$` a bulk text as `deserialize_str` reads it, `:` an
    /// integer, `*` an array header. `None` where an integer field is not a
    /// valid `i64`.
    pub fn deserialize_any(&mut self) -> (r: Option<Result<Visit<'de>, RedisError>>)
        requires
            old(self).wf(),
        ensures
            final(self).follows(old(self), read_any_frame(old(self)@)),
            r is None <==> read_any_frame(old(self)@).outcome is Abort,
            r matches Some(x) ==> agrees_token(x, read_any_frame(old(self)@).outcome),
    {
        let c = match self.peek_char() {
            Ok(c) => c,
            Err(e) => return Some(Err(e)),
        };
        match c {
            '+' => self.deserialize_string(),
            '-' => self.deserialize_str(),
            ':' => self.deserialize_i64(),
            '$' => self.deserialize_str(),
            '*' => self.deserialize_seq(),
            _ => Some(Err(RedisError::Message("Syntax".to_owned()))),
        }
    }
}


/// The element count of an array being read: how many elements are still
/// to come.
pub struct CRLFSeparated {
    first: bool,
    elements: i64,
}

impl CRLFSeparated {
    /// Elements still to come.
    pub closed spec fn remaining(&self) -> int {
        self.elements as int
    }

    /// No element has been read yet.
    pub closed spec fn at_first(&self) -> bool {
        self.first
    }

    /// A count for an array that announced `num_elements` elements.
    pub fn new(num_elements: i64) -> (s: Self)
        ensures
            s.remaining() == num_elements,
            s.at_first(),
    {
        CRLFSeparated { first: true, elements: num_elements }
    }

    /// The elements still to come.
    pub fn elements(&self) -> (n: i64)
        ensures
            n == self.remaining(),
    {
        self.elements
    }

    /// Whether another element is to be read; if so, it is counted off.
    /// A negative count never reaches zero: every call says another element
    /// follows.
    pub fn next_element(&mut self) -> (more: bool)
        requires
            old(self).remaining() > i64::MIN,
        ensures
            more == (old(self).remaining() != 0),
            more ==> final(self).remaining() == old(self).remaining() - 1 && !final(self).at_first(),
            !more ==> *final(self) == *old(self),
    {
        if self.elements == 0 {
            return false;
        }
        self.first = false;
        self.elements = self.elements - 1;
        true
    }
}

} // verus!

use vstd::prelude::*;

use crate::de::{
    crlf_at, crlf_index, crlf_index_from, newline_index_from, read_any_frame, read_i64_frame, read_integer,
    read_seq_frame, read_string_frame, skip_line, Outcome, Step, Token,
};
use crate::ser::{
    bool_text, bytes_body, crlf, encode_array_header, encode_bool, encode_bulk, encode_integer,
    encode_unsigned,
};
use crate::text::{
    all_digits, decimal, digits_value, lemma_decimal_digits, lemma_decimal_no_leading_zero,
    lemma_signed_decimal_parses, signed_decimal,
};

verus! {

/// `t` holds `\r\n` somewhere.
pub open spec fn has_crlf(t: Seq<char>) -> bool {
    exists|j: int| crlf_at(t, j)
}

/// The search from `i` finds the first `\r\n` at or after `i`.
proof fn lemma_crlf_index_finds(s: Seq<char>, i: int, k: int)
    requires
        0 <= i <= k,
        crlf_at(s, k),
        forall|j: int| i <= j < k ==> !crlf_at(s, j),
    ensures
        crlf_index_from(s, i) == Some(k),
    decreases k - i,
{
    if i < k {
        lemma_crlf_index_finds(s, i + 1, k);
    }
}

/// The search from `i` finds the first line feed at or after `i`.
proof fn lemma_newline_index_finds(s: Seq<char>, i: int, k: int)
    requires
        0 <= i <= k < s.len(),
        s[k] == '\n',
        forall|j: int| i <= j < k ==> s[j] != '\n',
    ensures
        newline_index_from(s, i) == Some(k),
    decreases k - i,
{
    if i < k {
        lemma_newline_index_finds(s, i + 1, k);
    }
}

/// Text that holds no `\r`, then `\r\n`: the first `\r\n` is right after
/// the text.
proof fn lemma_crlf_after_plain(d: Seq<char>, x: Seq<char>)
    requires
        forall|i: int| 0 <= i < d.len() ==> #[trigger] d[i] != '\r',
    ensures
        crlf_index(d + crlf() + x) == Some(d.len() as int),
        (d + crlf() + x).take(d.len() as int) == d,
        (d + crlf() + x).skip(d.len() as int + 1) == seq!['\n'] + x,
{
    let s = d + crlf() + x;
    assert forall|j: int| 0 <= j < d.len() implies !crlf_at(s, j) by {
        assert(s[j] == d[j]);
    }
    lemma_crlf_index_finds(s, 0, d.len() as int);
    assert(s.take(d.len() as int) =~= d);
    assert(s.skip(d.len() as int + 1) =~= seq!['\n'] + x);
}

/// Text with no `\r\n` in it, then `\r\n`: the first `\r\n` is right after
/// the text.
proof fn lemma_crlf_after_text(t: Seq<char>, x: Seq<char>)
    requires
        !has_crlf(t),
    ensures
        crlf_index(t + crlf() + x) == Some(t.len() as int),
        (t + crlf() + x).take(t.len() as int) == t,
        (t + crlf() + x).skip(t.len() as int + 1) == seq!['\n'] + x,
{
    let s = t + crlf() + x;
    assert forall|j: int| 0 <= j < t.len() implies !crlf_at(s, j) by {
        assert(!crlf_at(t, j));
        assert(s[j] == t[j]);
        if j + 1 < t.len() {
            assert(s[j + 1] == t[j + 1]);
        } else {
            assert(s[j + 1] == '\r');
        }
    }
    lemma_crlf_index_finds(s, 0, t.len() as int);
    assert(s.take(t.len() as int) =~= t);
    assert(s.skip(t.len() as int + 1) =~= seq!['\n'] + x);
}

/// A line feed first: the rest of the line is empty.
pub proof fn lemma_skip_line_at_newline(x: Seq<char>)
    ensures
        skip_line(seq!['\n'] + x) == (Step { outcome: Outcome::Value(()), rest: x, counted: 0 }),
{
    let s = seq!['\n'] + x;
    lemma_newline_index_finds(s, 0, 0);
    assert(s.skip(1) =~= x);
}

/// The integer text of an `i64`, then `\r\n`, reads back as that integer,
/// leaving the `\n` and what follows.
pub proof fn lemma_read_integer_of_decimal(v: int, x: Seq<char>)
    requires
        i64::MIN <= v <= i64::MAX,
    ensures
        read_integer(signed_decimal(v) + crlf() + x) == (Step {
            outcome: Outcome::Value(v),
            rest: seq!['\n'] + x,
            counted: signed_decimal(v).len(),
        }),
{
    lemma_signed_decimal_parses(v);
    lemma_crlf_after_plain(signed_decimal(v), x);
}

/// Reading an integer frame gives back the integer that was written, and
/// leaves only the `\n` of its line before what follows.
pub proof fn law_integer_round_trip(v: i64, x: Seq<char>)
    ensures
        read_i64_frame(encode_integer(v as int) + x) == (Step {
            outcome: Outcome::Value(Token::Int(v as int)),
            rest: seq!['\n'] + x,
            counted: signed_decimal(v as int).len(),
        }),
        read_any_frame(encode_integer(v as int) + x) == read_i64_frame(encode_integer(v as int) + x),
{
    let s = encode_integer(v as int) + x;
    let d = signed_decimal(v as int);
    assert(s.drop_first() =~= d + crlf() + x);
    lemma_read_integer_of_decimal(v as int, x);
}

/// Reading a bulk string gives back its text, whatever length it declares
/// (up to `i64::MAX`), as long as the text holds no `\r\n`; what is left is
/// the `\n` of its last line before what follows.
pub proof fn law_bulk_string_round_trip(t: Seq<char>, n: nat, x: Seq<char>)
    requires
        !has_crlf(t),
        n <= i64::MAX,
    ensures
        read_string_frame(encode_bulk(t, n) + x).outcome == Outcome::Value(Token::Borrowed(t)),
        read_string_frame(encode_bulk(t, n) + x).rest == seq!['\n'] + x,
{
    let s = encode_bulk(t, n) + x;
    let after_len = t + crlf() + x;
    assert(s.drop_first() =~= decimal(n) + crlf() + (t + crlf() + x));
    assert(signed_decimal(n as int) == decimal(n));
    lemma_read_integer_of_decimal(n as int, t + crlf() + x);
    lemma_skip_line_at_newline(after_len);
    lemma_crlf_after_text(t, x);
}

/// Within an array, an element frame starts on the `\n` that ends the line
/// before it; reading it as a text gives back a bulk string's text, as long
/// as the text holds no `\r\n`, and leaves the `\n` of its last line.
pub proof fn law_bulk_element_round_trip(t: Seq<char>, n: nat, x: Seq<char>)
    requires
        !has_crlf(t),
        n <= i64::MAX,
    ensures
        read_string_frame(seq!['\n'] + encode_bulk(t, n) + x).outcome == Outcome::Value(
            Token::Borrowed(t),
        ),
        read_string_frame(seq!['\n'] + encode_bulk(t, n) + x).rest == seq!['\n'] + x,
{
    let s = seq!['\n'] + encode_bulk(t, n) + x;
    let b = encode_bulk(t, n) + x;
    assert(s =~= seq!['\n'] + b);
    lemma_skip_line_at_newline(b);
    assert(b.drop_first() =~= decimal(n) + crlf() + (t + crlf() + x));
    assert(signed_decimal(n as int) == decimal(n));
    lemma_read_integer_of_decimal(n as int, t + crlf() + x);
    lemma_skip_line_at_newline(t + crlf() + x);
    lemma_crlf_after_text(t, x);
}

/// Reading an array header gives back the element count that was written.
pub proof fn law_array_header_round_trip(len: usize, x: Seq<char>)
    requires
        len <= i64::MAX,
    ensures
        read_seq_frame(encode_array_header(Some(len)) + x).outcome == Outcome::Value(
            Token::ArrayLen(len as int),
        ),
        read_seq_frame(encode_array_header(Some(len)) + x).rest == seq!['\n'] + x,
        read_any_frame(encode_array_header(Some(len)) + x) == read_seq_frame(
            encode_array_header(Some(len)) + x,
        ),
{
    let s = encode_array_header(Some(len)) + x;
    assert(s.drop_first() =~= decimal(len as nat) + crlf() + x);
    assert(signed_decimal(len as int) == decimal(len as nat));
    lemma_read_integer_of_decimal(len as int, x);
}

/// Reads `n` element frames as texts, one after the other; `None` where one
/// of them does not read as a text.
pub open spec fn read_text_elements(s: Seq<char>, n: nat) -> Option<(Seq<Seq<char>>, Seq<char>)>
    decreases n,
{
    if n == 0 {
        Some((Seq::empty(), s))
    } else {
        let st = read_string_frame(s);
        let first = match st.outcome {
            Outcome::Value(Token::Borrowed(t)) => Some(t),
            Outcome::Value(Token::Owned(t)) => Some(t),
            _ => None,
        };
        match first {
            Some(t) => match read_text_elements(st.rest, (n - 1) as nat) {
                Some((ts, r)) => Some((seq![t] + ts, r)),
                None => None,
            },
            None => None,
        }
    }
}

/// Bulk strings one after the other: the texts `ts`, each declaring the
/// length at the same place in `ns`.
pub open spec fn encode_bulk_list(ts: Seq<Seq<char>>, ns: Seq<nat>) -> Seq<char>
    decreases ts.len(),
{
    if ts.len() == 0 || ns.len() == 0 {
        Seq::empty()
    } else {
        encode_bulk(ts[0], ns[0]) + encode_bulk_list(ts.drop_first(), ns.drop_first())
    }
}

/// After an array header, the bulk strings written one after the other
/// read back, in order, as their texts, as long as none holds `\r\n`.
pub proof fn law_bulk_list_round_trip(ts: Seq<Seq<char>>, ns: Seq<nat>, x: Seq<char>)
    requires
        ts.len() == ns.len(),
        forall|i: int| 0 <= i < ts.len() ==> !has_crlf(#[trigger] ts[i]),
        forall|i: int| 0 <= i < ns.len() ==> #[trigger] ns[i] <= i64::MAX,
    ensures
        read_text_elements(seq!['\n'] + encode_bulk_list(ts, ns) + x, ts.len()) == Some(
            (ts, seq!['\n'] + x),
        ),
    decreases ts.len(),
{
    if ts.len() == 0 {
        assert(seq!['\n'] + encode_bulk_list(ts, ns) + x =~= seq!['\n'] + x);
        assert(ts =~= Seq::<Seq<char>>::empty());
    } else {
        let tail = encode_bulk_list(ts.drop_first(), ns.drop_first());
        let s = seq!['\n'] + encode_bulk_list(ts, ns) + x;
        assert(s =~= seq!['\n'] + encode_bulk(ts[0], ns[0]) + (tail + x));
        law_bulk_element_round_trip(ts[0], ns[0], tail + x);
        assert(seq!['\n'] + (tail + x) =~= seq!['\n'] + tail + x);
        assert forall|i: int| 0 <= i < ts.drop_first().len() implies !has_crlf(
            #[trigger] ts.drop_first()[i],
        ) by {
            assert(ts.drop_first()[i] == ts[i + 1]);
        }
        assert forall|i: int| 0 <= i < ns.drop_first().len() implies #[trigger] ns.drop_first()[i]
            <= i64::MAX by {
            assert(ns.drop_first()[i] == ns[i + 1]);
        }
        law_bulk_list_round_trip(ts.drop_first(), ns.drop_first(), x);
        assert(seq![ts[0]] + ts.drop_first() =~= ts);
    }
}

/// An array of bulk strings, as `serialize_seq` and `serialize_str` write
/// it, reads back as its announced count and then, element by element, its
/// texts; the line feed left at the end is what finishing the read skips.
pub proof fn law_text_array_round_trip(ts: Seq<Seq<char>>, ns: Seq<nat>, x: Seq<char>)
    requires
        ts.len() == ns.len(),
        ts.len() <= i64::MAX,
        ts.len() <= usize::MAX,
        forall|i: int| 0 <= i < ts.len() ==> !has_crlf(#[trigger] ts[i]),
        forall|i: int| 0 <= i < ns.len() ==> #[trigger] ns[i] <= i64::MAX,
    ensures
        ({
            let s = encode_array_header(Some(ts.len() as usize)) + encode_bulk_list(ts, ns) + x;
            let header = read_seq_frame(s);
            &&& header.outcome == Outcome::Value(Token::ArrayLen(ts.len() as int))
            &&& read_text_elements(header.rest, ts.len()) == Some((ts, seq!['\n'] + x))
            &&& skip_line(seq!['\n'] + x).rest == x
        }),
{
    let s = encode_array_header(Some(ts.len() as usize)) + encode_bulk_list(ts, ns) + x;
    assert(s =~= encode_array_header(Some(ts.len() as usize)) + (encode_bulk_list(ts, ns) + x));
    law_array_header_round_trip(ts.len() as usize, encode_bulk_list(ts, ns) + x);
    assert(seq!['\n'] + (encode_bulk_list(ts, ns) + x) =~= seq!['\n'] + encode_bulk_list(ts, ns) + x);
    law_bulk_list_round_trip(ts, ns, x);
    lemma_skip_line_at_newline(x);
}

/// A simple string `+<text>\r\n` reads back as its text, owned, as long as
/// the text holds no `\r\n`; a written boolean reads back as `true` or
/// `false`.
pub proof fn law_simple_string_round_trip(t: Seq<char>, x: Seq<char>)
    requires
        !has_crlf(t),
    ensures
        read_string_frame(seq!['+'] + t + crlf() + x).outcome == Outcome::Value(Token::Owned(t)),
        read_string_frame(seq!['+'] + t + crlf() + x).rest == seq!['\n'] + x,
        read_any_frame(seq!['+'] + t + crlf() + x) == read_string_frame(seq!['+'] + t + crlf() + x),
{
    let s = seq!['+'] + t + crlf() + x;
    assert(s.drop_first() =~= t + crlf() + x);
    lemma_crlf_after_text(t, x);
}

/// A written boolean reads back as the text `true` or `false`.
pub proof fn law_bool_reads_as_text(v: bool, x: Seq<char>)
    ensures
        read_string_frame(encode_bool(v) + x).outcome == Outcome::Value(Token::Owned(bool_text(v))),
{
    let t = bool_text(v);
    assert forall|j: int| !crlf_at(t, j) by {
        if 0 <= j < t.len() {
            assert(t[j] != '\r');
        }
    }
    assert(encode_bool(v) + x =~= seq!['+'] + t + crlf() + x);
    law_simple_string_round_trip(t, x);
}

/// `t` is the canonical decimal text of `v`: one digit or more, worth `v`,
/// with no leading zero.
pub open spec fn is_canonical_decimal_of(t: Seq<char>, v: nat) -> bool {
    &&& t.len() >= 1
    &&& all_digits(t)
    &&& digits_value(t) == v
    &&& (t.len() == 1 || t[0] != '0')
}

/// Writing an unsigned integer (`serialize_u8` to `serialize_u64`) appends
/// the canonical decimal text of its value, whatever the value.
pub proof fn law_unsigned_is_canonical_decimal(v: nat)
    ensures
        is_canonical_decimal_of(encode_unsigned(v), v),
{
    lemma_decimal_digits(v);
    lemma_decimal_no_leading_zero(v);
}

/// The body written for a byte string is made of one part per byte, in
/// order: the body of two byte strings one after the other is the body of
/// the first followed by the body of the second, and the body of a single
/// byte is the canonical decimal text of that byte.
pub proof fn law_bytes_body_one_part_per_byte(a: Seq<u8>, b: Seq<u8>, x: u8)
    ensures
        bytes_body(a + b) == bytes_body(a) + bytes_body(b),
        is_canonical_decimal_of(bytes_body(seq![x]), x as nat),
    decreases b.len(),
{
    if b.len() == 0 {
        assert(a + b =~= a);
        assert(bytes_body(a) + bytes_body(b) =~= bytes_body(a));
    } else {
        assert((a + b).drop_last() =~= a + b.drop_last());
        law_bytes_body_one_part_per_byte(a, b.drop_last(), x);
        assert(bytes_body(a + b) =~= bytes_body(a) + bytes_body(b));
    }
    let single: Seq<u8> = seq![x];
    assert(single.drop_last() =~= Seq::<u8>::empty());
    assert(single.last() == x);
    assert(bytes_body(Seq::<u8>::empty()) == Seq::<char>::empty());
    assert(bytes_body(single) == bytes_body(single.drop_last()) + decimal(x as nat));
    assert(bytes_body(single) =~= decimal(x as nat));
    law_unsigned_is_canonical_decimal(x as nat);
}

/// The absolute value of `v`.
pub open spec fn magnitude(v: int) -> nat {
    if v < 0 {
        (-v) as nat
    } else {
        v as nat
    }
}

/// Every number that a frame declares is written in canonical decimal: an
/// integer frame holds `:`, a `-` for a negative value, the canonical digits
/// of its magnitude and `\r\n`; a bulk string declares its length, and an
/// array header its count, in canonical digits.
pub proof fn law_frames_write_canonical_numbers(v: i64, text: Seq<char>, n: nat, len: usize)
    ensures
        exists|d: Seq<char>|
            #[trigger] is_canonical_decimal_of(d, magnitude(v as int)) && encode_integer(
                v as int,
            ) == seq![':'] + (if v < 0 { seq!['-'] } else { Seq::<char>::empty() }) + d + crlf(),
        exists|d: Seq<char>|
            #[trigger] is_canonical_decimal_of(d, n) && encode_bulk(text, n) == seq!['$'] + d + crlf() + text
                + crlf(),
        exists|d: Seq<char>|
            #[trigger] is_canonical_decimal_of(d, len as nat) && encode_array_header(Some(len)) == seq!['*']
                + d + crlf(),
{
    let m: nat = magnitude(v as int);
    law_unsigned_is_canonical_decimal(m);
    law_unsigned_is_canonical_decimal(n);
    law_unsigned_is_canonical_decimal(len as nat);
    let sign = if v < 0 { seq!['-'] } else { Seq::<char>::empty() };
    assert(encode_integer(v as int) =~= seq![':'] + sign + decimal(m) + crlf());
    assert(is_canonical_decimal_of(decimal(m), m));
    assert(is_canonical_decimal_of(decimal(n), n));
    assert(is_canonical_decimal_of(decimal(len as nat), len as nat));
}

} // verus!

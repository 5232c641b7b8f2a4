use vstd::prelude::*;
use vstd::std_specs::iter::IteratorSpec;

verus! {

broadcast use vstd::string::group_string_axioms;

/// `c` is one of the ASCII digits `0` to `9`.
pub open spec fn is_digit(c: char) -> bool {
    48 <= (c as u32) <= 57
}

/// The value of an ASCII digit.
pub open spec fn digit_value(c: char) -> nat {
    ((c as u32) - 48) as nat
}

/// The ASCII digit for a value below ten.
pub open spec fn digit_char(d: nat) -> char {
    (d + 48) as char
}

/// Decimal digits of `n`, most significant first, with no leading zero.
pub open spec fn decimal(n: nat) -> Seq<char>
    decreases n,
{
    if n < 10 {
        seq![digit_char(n)]
    } else {
        decimal(n / 10).push(digit_char(n % 10))
    }
}

/// Decimal text of an integer: a `-` before the digits of a negative one.
pub open spec fn signed_decimal(v: int) -> Seq<char> {
    if v < 0 {
        seq!['-'] + decimal((-v) as nat)
    } else {
        decimal(v as nat)
    }
}

/// The characters of `s`, in order.
pub fn collect_chars(s: &str) -> (v: Vec<char>)
    ensures
        v@ == s@,
{
    let mut v: Vec<char> = Vec::new();
    for c in it: s.chars()
        invariant
            v@ == it.seq().take(it.index() as int),
    {
        v.push(c);
    }
    v
}

/// The ASCII digit for `d`.
pub fn digit_of(d: u64) -> (c: char)
    requires
        d < 10,
    ensures
        c == digit_char(d as nat),
{
    ((d as u8) + 48u8) as char
}


/// Every character of `s` is an ASCII digit.
pub open spec fn all_digits(s: Seq<char>) -> bool {
    forall|i: int| 0 <= i < s.len() ==> #[trigger] is_digit(s[i])
}

/// The value of a run of decimal digits (zero for the empty run).
pub open spec fn digits_value(s: Seq<char>) -> nat
    decreases s.len(),
{
    if s.len() == 0 {
        0
    } else {
        digits_value(s.drop_last()) * 10 + digit_value(s.last())
    }
}

/// `t` without its leading `+` or `-`, if it has one.
pub open spec fn unsigned_part(t: Seq<char>) -> Seq<char> {
    if t.len() > 0 && (t[0] == '-' || t[0] == '+') {
        t.drop_first()
    } else {
        t
    }
}

/// What reading `t` as a 64-bit signed integer gives, as `str::parse::<i64>`
/// does: an optional `+` or `-`, then one digit or more, and a value that
/// fits in an `i64`; `None` for any other text.
pub open spec fn integer_text_value(t: Seq<char>) -> Option<int> {
    let body = unsigned_part(t);
    let magnitude = digits_value(body) as int;
    let v = if t.len() > 0 && t[0] == '-' {
        -magnitude
    } else {
        magnitude
    };
    if body.len() > 0 && all_digits(body) && i64::MIN <= v <= i64::MAX {
        Some(v)
    } else {
        None
    }
}

/// A longer run of digits is worth at least as much as its prefix.
proof fn lemma_digits_value_prefix(s: Seq<char>, k: int)
    requires
        0 <= k <= s.len(),
    ensures
        digits_value(s.take(k)) <= digits_value(s),
    decreases s.len(),
{
    if k < s.len() {
        assert(s.drop_last().take(k) =~= s.take(k));
        lemma_digits_value_prefix(s.drop_last(), k);
    } else {
        assert(s.take(k) =~= s);
    }
}

/// Reads the characters `chars[from..to]` as `str::parse::<i64>` reads a
/// string: `None` where that parse fails.
pub fn parse_i64(chars: &Vec<char>, from: usize, to: usize) -> (r: Option<i64>)
    requires
        from <= to <= chars@.len(),
    ensures
        r matches Some(v) ==> integer_text_value(chars@.subrange(from as int, to as int)) == Some(
            v as int,
        ),
        r is None ==> integer_text_value(chars@.subrange(from as int, to as int)) is None,
{
    let ghost t = chars@.subrange(from as int, to as int);
    let mut i = from;
    let mut negative = false;
    if i < to && chars[i] == '-' {
        negative = true;
        i = i + 1;
    } else if i < to && chars[i] == '+' {
        i = i + 1;
    }
    let body_start = i;
    assert(negative == (t.len() > 0 && t[0] == '-'));
    assert(unsigned_part(t) =~= chars@.subrange(body_start as int, to as int));
    if i == to {
        return None;
    }
    let mut magnitude: u64 = 0;
    while i < to
        invariant
            from <= body_start <= i <= to <= chars@.len(),
            all_digits(chars@.subrange(body_start as int, i as int)),
            magnitude as nat == digits_value(chars@.subrange(body_start as int, i as int)),
            magnitude <= 0x8000_0000_0000_0000u64,
            t == chars@.subrange(from as int, to as int),
            unsigned_part(t) == chars@.subrange(body_start as int, to as int),
            body_start < to,
            negative == (t.len() > 0 && t[0] == '-'),
        decreases to - i,
    {
        let ghost before = chars@.subrange(body_start as int, i as int);
        let ghost after = chars@.subrange(body_start as int, i + 1);
        assert(after.drop_last() =~= before);
        let c = chars[i];
        if !((c as u32) >= 48 && (c as u32) <= 57) {
            assert(!is_digit(unsigned_part(t)[i - body_start]));
            assert(!all_digits(unsigned_part(t)));
            return None;
        }
        let d = ((c as u32) - 48) as u64;
        let next: u128 = (magnitude as u128) * 10 + (d as u128);
        if next > 0x8000_0000_0000_0000u128 {
            proof {
                let body = unsigned_part(t);
                assert(body.take(i + 1 - body_start) =~= after);
                lemma_digits_value_prefix(body, i + 1 - body_start);
            }
            return None;
        }
        magnitude = next as u64;
        i = i + 1;
        assert(all_digits(after)) by {
            assert forall|j: int| 0 <= j < after.len() implies #[trigger] is_digit(after[j]) by {
                if j < before.len() {
                    assert(after[j] == before[j]);
                }
            }
        }
    }
    assert(chars@.subrange(body_start as int, i as int) =~= unsigned_part(t));
    if negative {
        if magnitude == 0x8000_0000_0000_0000u64 {
            Some(i64::MIN)
        } else {
            Some(-(magnitude as i64))
        }
    } else if magnitude <= 0x7fff_ffff_ffff_ffffu64 {
        Some(magnitude as i64)
    } else {
        None
    }
}

/// Calls `String::push`, trusted to append `c` at the end of `s`, as its
/// documentation says.
#[verifier::external_body]
pub fn push_char(s: &mut String, c: char)
    ensures
        final(s)@ == old(s)@.push(c),
{
    s.push(c)
}

/// Appends the decimal digits of `n` to `out`.
pub fn push_decimal(out: &mut String, n: u64)
    ensures
        final(out)@ == old(out)@ + decimal(n as nat),
    decreases n,
{
    if n >= 10 {
        push_decimal(out, n / 10);
    }
    push_char(out, digit_of(n % 10));
    proof {
        if n >= 10 {
            assert(old(out)@ + decimal(n as nat) =~= (old(out)@ + decimal((n / 10) as nat)).push(
                digit_char((n % 10) as nat),
            ));
        } else {
            assert(old(out)@ + decimal(n as nat) =~= old(out)@.push(digit_char((n % 10) as nat)));
        }
    }
}

/// Appends the decimal text of `v`, with a `-` before a negative value.
pub fn push_signed_decimal(out: &mut String, v: i64)
    ensures
        final(out)@ == old(out)@ + signed_decimal(v as int),
{
    if v < 0 {
        push_char(out, '-');
        let magnitude: u64 = ((-(v as i128)) as u64);
        push_decimal(out, magnitude);
        assert(old(out)@.push('-') + decimal(magnitude as nat) =~= old(out)@ + signed_decimal(v as int));
    } else {
        push_decimal(out, v as u64);
    }
}

/// The decimal text of `n` is a non-empty run of digits worth `n`.
pub proof fn lemma_decimal_digits(n: nat)
    ensures
        decimal(n).len() >= 1,
        all_digits(decimal(n)),
        digits_value(decimal(n)) == n,
    decreases n,
{
    if n >= 10 {
        lemma_decimal_digits(n / 10);
        let d = decimal(n / 10);
        assert(decimal(n).drop_last() =~= d);
        assert(digit_value(digit_char((n % 10) as nat)) == n % 10);
        assert((n / 10) * 10 + n % 10 == n);
        assert(decimal(n).last() == digit_char((n % 10) as nat));
        assert(digits_value(decimal(n)) == digits_value(d) * 10 + digit_value(decimal(n).last()));
        assert(all_digits(decimal(n))) by {
            assert forall|i: int| 0 <= i < decimal(n).len() implies #[trigger] is_digit(
                decimal(n)[i],
            ) by {
                if i < d.len() {
                    assert(decimal(n)[i] == d[i]);
                }
            }
        }
    } else {
        assert(decimal(n).drop_last() =~= Seq::<char>::empty());
        assert(digit_value(digit_char(n)) == n);
        assert(digits_value(Seq::<char>::empty()) == 0);
        assert(digits_value(decimal(n)) == digits_value(decimal(n).drop_last()) * 10 + digit_value(
            decimal(n).last(),
        ));
    }
}

/// Parsing the decimal text of an `i64` gives it back.
pub proof fn lemma_signed_decimal_parses(v: int)
    requires
        i64::MIN <= v <= i64::MAX,
    ensures
        integer_text_value(signed_decimal(v)) == Some(v),
        all_digits(signed_decimal(v).drop_first()),
        signed_decimal(v).len() >= 1,
        forall|i: int|
            0 <= i < signed_decimal(v).len() ==> #[trigger] signed_decimal(v)[i] != '\r'
                && signed_decimal(v)[i] != '\n',
{
    if v < 0 {
        let d = decimal((-v) as nat);
        lemma_decimal_digits((-v) as nat);
        assert((seq!['-'] + d).drop_first() =~= d);
        assert forall|i: int| 0 <= i < signed_decimal(v).len() implies #[trigger] signed_decimal(
            v,
        )[i] != '\r' && signed_decimal(v)[i] != '\n' by {
            if i > 0 {
                assert(signed_decimal(v)[i] == d[i - 1]);
                assert(is_digit(d[i - 1]));
            }
        }
    } else {
        let d = decimal(v as nat);
        lemma_decimal_digits(v as nat);
        assert forall|i: int| 0 <= i < signed_decimal(v).len() implies #[trigger] signed_decimal(
            v,
        )[i] != '\r' && signed_decimal(v)[i] != '\n' by {
            assert(is_digit(d[i]));
        }
        assert(is_digit(d[0]));
        assert forall|i: int| 0 <= i < d.drop_first().len() implies #[trigger] is_digit(
            d.drop_first()[i],
        ) by {
            assert(d.drop_first()[i] == d[i + 1]);
        }
    }
}

/// The decimal text of a positive number does not start with `0`.
pub proof fn lemma_decimal_no_leading_zero(n: nat)
    ensures
        n > 0 ==> decimal(n)[0] != '0',
    decreases n,
{
    if n >= 10 {
        lemma_decimal_no_leading_zero(n / 10);
        lemma_decimal_digits(n / 10);
        assert(decimal(n)[0] == decimal(n / 10)[0]);
    } else if n > 0 {
        assert(digit_value(digit_char(n)) == n);
    }
}

} // verus!

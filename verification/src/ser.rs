use vstd::prelude::*;
use vstd::string::StringExecFns;
use vstd::utf8::{encode_scalar, encode_utf8};

use crate::error::RedisError;
use crate::text::{decimal, push_char, push_decimal, push_signed_decimal, signed_decimal};

verus! {

/// `\r\n`, the end of every RESP line.
pub open spec fn crlf() -> Seq<char> {
    seq!['\r', '\n']
}

/// `true` or `false`.
pub open spec fn bool_text(v: bool) -> Seq<char> {
    if v {
        seq!['t', 'r', 'u', 'e']
    } else {
        seq!['f', 'a', 'l', 's', 'e']
    }
}

/// A boolean is written as a simple string: `+true\r\n` or `+false\r\n`.
pub open spec fn encode_bool(v: bool) -> Seq<char> {
    seq!['+'] + bool_text(v) + crlf()
}

/// A signed integer: `:` then its decimal text and `\r\n`.
pub open spec fn encode_integer(v: int) -> Seq<char> {
    seq![':'] + signed_decimal(v) + crlf()
}

/// An unsigned integer is written as its bare decimal digits.
pub open spec fn encode_unsigned(v: nat) -> Seq<char> {
    decimal(v)
}

/// A bulk string: `$`, the length in bytes, `\r\n`, the text, `\r\n`.
pub open spec fn encode_bulk(text: Seq<char>, byte_len: nat) -> Seq<char> {
    seq!['$'] + decimal(byte_len) + crlf() + text + crlf()
}

/// The null bulk string `$-1\r\n`, for an absent value.
pub open spec fn encode_none() -> Seq<char> {
    seq!['$', '-', '1', '\r', '\n']
}

/// An array header: `*`, the element count (zero where it is not known),
/// `\r\n`.
pub open spec fn encode_array_header(len: Option<usize>) -> Seq<char> {
    match len {
        Some(l) => seq!['*'] + decimal(l as nat) + crlf(),
        None => seq!['*', '0', '\r', '\n'],
    }
}

/// The bytes of a byte string, each as bare decimal digits, one after the
/// other.
pub open spec fn bytes_body(bs: Seq<u8>) -> Seq<char>
    decreases bs.len(),
{
    if bs.len() == 0 {
        Seq::empty()
    } else {
        bytes_body(bs.drop_last()) + decimal(bs.last() as nat)
    }
}

/// A byte string is written as an array of its bytes.
pub open spec fn encode_bytes(bs: Seq<u8>) -> Seq<char> {
    encode_array_header(Some(bs.len() as usize)) + bytes_body(bs)
}

/// The number of bytes of `c` in UTF-8.
pub open spec fn char_byte_len(c: char) -> nat {
    encode_scalar(c as u32).len()
}

/// Calls `ToString::to_string` on a `char`, trusted to give the string that
/// holds just that character (what `char`'s `Display` writes).
#[verifier::external_body]
fn char_to_string(c: char) -> (s: String)
    ensures
        s@ == seq![c],
{
    c.to_string()
}

fn push_crlf(out: &mut String)
    ensures
        final(out)@ == old(out)@ + crlf(),
{
    push_char(out, '\r');
    push_char(out, '\n');
    assert(old(out)@.push('\r').push('\n') =~= old(out)@ + crlf());
}

/// A RESP writer: every value is appended to the text written so far.
pub struct RedisSerializer {
    output: String,
}

impl View for RedisSerializer {
    type V = Seq<char>;

    /// The text written so far.
    closed spec fn view(&self) -> Seq<char> {
        self.output@
    }
}

impl RedisSerializer {
    /// A writer that has written nothing.
    pub fn new() -> (s: Self)
        ensures
            s@ == Seq::<char>::empty(),
    {
        RedisSerializer { output: String::new() }
    }

    /// The text written.
    pub fn into_output(self) -> (s: String)
        ensures
            s@ == self@,
    {
        self.output
    }

    /// The error for a value kind this format does not carry; nothing is
    /// written.
    fn unsupported(&self) -> (r: Result<(), RedisError>)
        ensures
            r matches Err(e) && e@ == "unsupported type"@,
    {
        Err(RedisError::unsupported_type())
    }

    pub fn serialize_bool(&mut self, v: bool) -> (r: Result<(), RedisError>)
        ensures
            r is Ok,
            final(self)@ == old(self)@ + encode_bool(v),
    {
        push_char(&mut self.output, '+');
        if v {
            self.output.append("true");
            proof {
                reveal_strlit("true");
            }
        } else {
            self.output.append("false");
            proof {
                reveal_strlit("false");
            }
        }
        push_crlf(&mut self.output);
        assert(self@ =~= old(self)@ + encode_bool(v));
        Ok(())
    }

    pub fn serialize_i8(&mut self, v: i8) -> (r: Result<(), RedisError>)
        ensures
            r is Ok,
            final(self)@ == old(self)@ + encode_integer(v as int),
    {
        self.serialize_i64(v as i64)
    }

    pub fn serialize_i16(&mut self, v: i16) -> (r: Result<(), RedisError>)
        ensures
            r is Ok,
            final(self)@ == old(self)@ + encode_integer(v as int),
    {
        self.serialize_i64(v as i64)
    }

    pub fn serialize_i32(&mut self, v: i32) -> (r: Result<(), RedisError>)
        ensures
            r is Ok,
            final(self)@ == old(self)@ + encode_integer(v as int),
    {
        self.serialize_i64(v as i64)
    }

    pub fn serialize_i64(&mut self, v: i64) -> (r: Result<(), RedisError>)
        ensures
            r is Ok,
            final(self)@ == old(self)@ + encode_integer(v as int),
    {
        push_char(&mut self.output, ':');
        push_signed_decimal(&mut self.output, v);
        push_crlf(&mut self.output);
        assert(self@ =~= old(self)@ + encode_integer(v as int));
        Ok(())
    }

    pub fn serialize_u8(&mut self, v: u8) -> (r: Result<(), RedisError>)
        ensures
            r is Ok,
            final(self)@ == old(self)@ + encode_unsigned(v as nat),
    {
        self.serialize_u64(v as u64)
    }

    pub fn serialize_u16(&mut self, v: u16) -> (r: Result<(), RedisError>)
        ensures
            r is Ok,
            final(self)@ == old(self)@ + encode_unsigned(v as nat),
    {
        self.serialize_u64(v as u64)
    }

    pub fn serialize_u32(&mut self, v: u32) -> (r: Result<(), RedisError>)
        ensures
            r is Ok,
            final(self)@ == old(self)@ + encode_unsigned(v as nat),
    {
        self.serialize_u64(v as u64)
    }

    pub fn serialize_u64(&mut self, v: u64) -> (r: Result<(), RedisError>)
        ensures
            r is Ok,
            final(self)@ == old(self)@ + encode_unsigned(v as nat),
    {
        push_decimal(&mut self.output, v);
        Ok(())
    }

    /// Appends the text of a floating-point value, as its `Display` wrote
    /// it.
    pub fn serialize_float_text(&mut self, text: &str) -> (r: Result<(), RedisError>)
        ensures
            r is Ok,
            final(self)@ == old(self)@ + text@,
    {
        self.output.append(text);
        Ok(())
    }

    pub fn serialize_char(&mut self, v: char) -> (r: Result<(), RedisError>)
        ensures
            r is Ok,
            final(self)@ == old(self)@ + encode_bulk(seq![v], char_byte_len(v)),
    {
        let s = char_to_string(v);
        proof {
            reveal_with_fuel(encode_utf8, 2);
            assert(seq![v].drop_first() =~= Seq::<char>::empty());
            assert(encode_utf8(seq![v]) =~= encode_scalar(v as u32));
            assert(encode_scalar(v as u32).len() <= 4);
        }
        self.serialize_str(s.as_str())
    }

    pub fn serialize_str(&mut self, v: &str) -> (r: Result<(), RedisError>)
        ensures
            r is Ok,
            final(self)@ == old(self)@ + encode_bulk(v@, v.len() as nat),
    {
        push_char(&mut self.output, '$');
        push_decimal(&mut self.output, v.len() as u64);
        push_crlf(&mut self.output);
        self.output.append(v);
        push_crlf(&mut self.output);
        assert(self@ =~= old(self)@ + encode_bulk(v@, v.len() as nat));
        Ok(())
    }

    pub fn serialize_bytes(&mut self, v: &[u8]) -> (r: Result<(), RedisError>)
        ensures
            r is Ok,
            final(self)@ == old(self)@ + encode_bytes(v@),
    {
        let _ = self.serialize_seq(Some(v.len()));
        let ghost header = self@;
        let mut i: usize = 0;
        while i < v.len()
            invariant
                i <= v@.len(),
                header == old(self)@ + encode_array_header(Some(v@.len() as usize)),
                self@ == header + bytes_body(v@.take(i as int)),
            decreases v@.len() - i,
        {
            let _ = self.serialize_u8(v[i]);
            assert(v@.take(i + 1).drop_last() =~= v@.take(i as int));
            assert(self@ =~= header + bytes_body(v@.take(i + 1)));
            i = i + 1;
        }
        assert(v@.take(v@.len() as int) =~= v@);
        assert(self@ =~= old(self)@ + encode_bytes(v@));
        Ok(())
    }

    pub fn serialize_none(&mut self) -> (r: Result<(), RedisError>)
        ensures
            r is Ok,
            final(self)@ == old(self)@ + encode_none(),
    {
        self.output.append("$-1\r\n");
        proof {
            reveal_strlit("$-1\r\n");
        }
        assert(self@ =~= old(self)@ + encode_none());
        Ok(())
    }

    pub fn serialize_unit(&mut self) -> (r: Result<(), RedisError>)
        ensures
            r matches Err(e) && e@ == "unsupported type"@,
            final(self)@ == old(self)@,
    {
        self.unsupported()
    }

    pub fn serialize_unit_struct(&mut self, _name: &str) -> (r: Result<(), RedisError>)
        ensures
            r matches Err(e) && e@ == "unsupported type"@,
            final(self)@ == old(self)@,
    {
        self.unsupported()
    }

    pub fn serialize_unit_variant(&mut self, _name: &str, _variant_index: u32, _variant: &str) -> (r:
        Result<(), RedisError>)
        ensures
            r matches Err(e) && e@ == "unsupported type"@,
            final(self)@ == old(self)@,
    {
        self.unsupported()
    }

    pub fn serialize_newtype_struct(&mut self, _name: &str) -> (r: Result<(), RedisError>)
        ensures
            r matches Err(e) && e@ == "unsupported type"@,
            final(self)@ == old(self)@,
    {
        self.unsupported()
    }

    pub fn serialize_newtype_variant(&mut self, _name: &str, _variant_index: u32, _variant: &str) -> (r:
        Result<(), RedisError>)
        ensures
            r matches Err(e) && e@ == "unsupported type"@,
            final(self)@ == old(self)@,
    {
        self.unsupported()
    }

    /// Writes an array header; the elements are written after it.
    pub fn serialize_seq(&mut self, len: Option<usize>) -> (r: Result<(), RedisError>)
        ensures
            r is Ok,
            final(self)@ == old(self)@ + encode_array_header(len),
    {
        match len {
            None => {
                self.output.append("*0\r\n");
                proof {
                    reveal_strlit("*0\r\n");
                }
            },
            Some(l) => {
                push_char(&mut self.output, '*');
                push_decimal(&mut self.output, l as u64);
                push_crlf(&mut self.output);
            },
        }
        assert(self@ =~= old(self)@ + encode_array_header(len));
        Ok(())
    }

    pub fn serialize_tuple(&mut self, _len: usize) -> (r: Result<(), RedisError>)
        ensures
            r matches Err(e) && e@ == "unsupported type"@,
            final(self)@ == old(self)@,
    {
        self.unsupported()
    }

    pub fn serialize_tuple_struct(&mut self, _name: &str, _len: usize) -> (r: Result<(), RedisError>)
        ensures
            r matches Err(e) && e@ == "unsupported type"@,
            final(self)@ == old(self)@,
    {
        self.unsupported()
    }

    pub fn serialize_tuple_variant(
        &mut self,
        _name: &str,
        _variant_index: u32,
        _variant: &str,
        _len: usize,
    ) -> (r: Result<(), RedisError>)
        ensures
            r matches Err(e) && e@ == "unsupported type"@,
            final(self)@ == old(self)@,
    {
        self.unsupported()
    }

    pub fn serialize_map(&mut self, _len: Option<usize>) -> (r: Result<(), RedisError>)
        ensures
            r matches Err(e) && e@ == "unsupported type"@,
            final(self)@ == old(self)@,
    {
        self.unsupported()
    }

    pub fn serialize_struct(&mut self, _name: &str, _len: usize) -> (r: Result<(), RedisError>)
        ensures
            r matches Err(e) && e@ == "unsupported type"@,
            final(self)@ == old(self)@,
    {
        self.unsupported()
    }

    pub fn serialize_struct_variant(
        &mut self,
        _name: &str,
        _variant_index: u32,
        _variant: &str,
        _len: usize,
    ) -> (r: Result<(), RedisError>)
        ensures
            r matches Err(e) && e@ == "unsupported type"@,
            final(self)@ == old(self)@,
    {
        self.unsupported()
    }
}

} // verus!

use redis_cilent::{CRLFSeparated, Deserializer, RedisError, RedisSerializer, Visit};

fn msg(s: &str) -> RedisError {
    RedisError::Message(s.to_string())
}

fn written(f: impl FnOnce(&mut RedisSerializer)) -> String {
    let mut s = RedisSerializer::new();
    f(&mut s);
    s.into_output()
}

#[test]
fn writes_bool_as_simple_string() {
    assert_eq!(written(|s| { s.serialize_bool(true).unwrap(); }), "+true\r\n");
    assert_eq!(written(|s| { s.serialize_bool(false).unwrap(); }), "+false\r\n");
}

#[test]
fn writes_signed_integers() {
    assert_eq!(written(|s| { s.serialize_i64(3000).unwrap(); }), ":3000\r\n");
    assert_eq!(written(|s| { s.serialize_i64(0).unwrap(); }), ":0\r\n");
    assert_eq!(written(|s| { s.serialize_i64(-42).unwrap(); }), ":-42\r\n");
    assert_eq!(written(|s| { s.serialize_i64(i64::MIN).unwrap(); }), ":-9223372036854775808\r\n");
    assert_eq!(written(|s| { s.serialize_i64(i64::MAX).unwrap(); }), ":9223372036854775807\r\n");
    assert_eq!(written(|s| { s.serialize_i8(-7).unwrap(); }), ":-7\r\n");
    assert_eq!(written(|s| { s.serialize_i16(300).unwrap(); }), ":300\r\n");
    assert_eq!(written(|s| { s.serialize_i32(-70000).unwrap(); }), ":-70000\r\n");
}

#[test]
fn writes_unsigned_integers_as_bare_digits() {
    assert_eq!(written(|s| { s.serialize_u64(18446744073709551615).unwrap(); }), "18446744073709551615");
    assert_eq!(written(|s| { s.serialize_u8(9).unwrap(); }), "9");
    assert_eq!(written(|s| { s.serialize_u16(10).unwrap(); }), "10");
    assert_eq!(written(|s| { s.serialize_u32(0).unwrap(); }), "0");
}

#[test]
fn writes_bulk_strings_with_byte_length() {
    assert_eq!(written(|s| { s.serialize_str("PING").unwrap(); }), "$4\r\nPING\r\n");
    assert_eq!(written(|s| { s.serialize_str("").unwrap(); }), "$0\r\n\r\n");
    assert_eq!(written(|s| { s.serialize_str("héllo").unwrap(); }), "$6\r\nhéllo\r\n");
    assert_eq!(written(|s| { s.serialize_char('a').unwrap(); }), "$1\r\na\r\n");
    assert_eq!(written(|s| { s.serialize_char('é').unwrap(); }), "$2\r\né\r\n");
    assert_eq!(written(|s| { s.serialize_char('🦀').unwrap(); }), "$4\r\n🦀\r\n");
}

#[test]
fn writes_none_arrays_and_bytes() {
    assert_eq!(written(|s| { s.serialize_none().unwrap(); }), "$-1\r\n");
    assert_eq!(written(|s| { s.serialize_seq(None).unwrap(); }), "*0\r\n");
    assert_eq!(written(|s| { s.serialize_seq(Some(2)).unwrap(); }), "*2\r\n");
    assert_eq!(written(|s| { s.serialize_bytes(&[1, 20, 255]).unwrap(); }), "*3\r\n120255");
    assert_eq!(written(|s| { s.serialize_bytes(&[]).unwrap(); }), "*0\r\n");
    assert_eq!(written(|s| { s.serialize_float_text("1.5").unwrap(); }), "1.5");
}

#[test]
fn writes_a_command_array() {
    let out = written(|s| {
        s.serialize_seq(Some(2)).unwrap();
        s.serialize_str("PING").unwrap();
        s.serialize_str("Hello").unwrap();
    });
    assert_eq!(out, "*2\r\n$4\r\nPING\r\n$5\r\nHello\r\n");
}

#[test]
fn refuses_unsupported_kinds_and_writes_nothing() {
    let unsupported = msg("unsupported type");
    let mut s = RedisSerializer::new();
    assert_eq!(s.serialize_unit(), Err(msg("unsupported type")));
    assert_eq!(s.serialize_unit_struct("U"), Err(msg("unsupported type")));
    assert_eq!(s.serialize_unit_variant("E", 0, "A"), Err(msg("unsupported type")));
    assert_eq!(s.serialize_newtype_struct("N"), Err(msg("unsupported type")));
    assert_eq!(s.serialize_newtype_variant("E", 1, "B"), Err(msg("unsupported type")));
    assert_eq!(s.serialize_tuple(2), Err(msg("unsupported type")));
    assert_eq!(s.serialize_tuple_struct("T", 2), Err(msg("unsupported type")));
    assert_eq!(s.serialize_tuple_variant("E", 2, "C", 2), Err(msg("unsupported type")));
    assert_eq!(s.serialize_map(Some(1)), Err(msg("unsupported type")));
    assert_eq!(s.serialize_struct("S", 1), Err(msg("unsupported type")));
    assert_eq!(s.serialize_struct_variant("E", 3, "D", 1), Err(unsupported));
    assert_eq!(s.into_output(), "");
    assert_eq!(RedisError::unsupported_type().to_string(), "unsupported type");
}

#[test]
fn peeks_and_takes_characters() {
    let mut d = Deserializer::from_str("ab");
    assert_eq!(d.peek_char(), Ok('a'));
    assert_eq!(d.peek_char(), Ok('a'));
    assert_eq!(d.next_char(), Ok('a'));
    assert_eq!(d.next_char(), Ok('b'));
    assert_eq!(d.peek_char(), Err(msg("Peek EOF")));
    assert_eq!(d.next_char(), Err(msg("Peek EOF")));
    let mut e = Deserializer::from_str("é!");
    assert_eq!(e.next_char(), Ok('é'));
    assert_eq!(e.next_char(), Ok('!'));
}

#[test]
fn reads_simple_and_bulk_texts() {
    let mut d = Deserializer::from_str("Algo\r\nrest");
    assert_eq!(d.parse_simple_string(), Ok("Algo"));
    assert_eq!(d.next_char(), Ok('\n'));
    let mut e = Deserializer::from_str("no line end");
    assert_eq!(e.parse_simple_string(), Err(msg("Eof string")));
    let mut f = Deserializer::from_str("skipped\nfoobar\r\n");
    assert_eq!(f.parse_bulk_string(), Ok("foobar"));
    let mut g = Deserializer::from_str("no newline");
    assert_eq!(g.parse_bulk_string(), Err(msg("Peek EOF")));
}

#[test]
fn reads_integers_like_str_parse() {
    let mut d = Deserializer::from_str("3000\r\n");
    assert_eq!(d.parse_integer(), Ok(3000));
    assert_eq!(Deserializer::from_str("-17\r\n").parse_integer(), Ok(-17));
    assert_eq!(Deserializer::from_str("+5\r\n").parse_integer(), Ok(5));
    assert_eq!(Deserializer::from_str("007\r\n").parse_integer(), Ok(7));
    assert_eq!(Deserializer::from_str("-9223372036854775808\r\n").parse_integer(), Ok(i64::MIN));
    assert_eq!(Deserializer::from_str("9223372036854775807\r\n").parse_integer(), Ok(i64::MAX));
    assert_eq!(Deserializer::from_str("12").parse_integer(), Err(msg("Eof intege")));
    assert_eq!(Deserializer::from_str("9223372036854775808\r\n").try_parse_integer(), None);
    assert_eq!(Deserializer::from_str("-9223372036854775809\r\n").try_parse_integer(), None);
    assert_eq!(Deserializer::from_str("12a\r\n").try_parse_integer(), None);
    assert_eq!(Deserializer::from_str("\r\n").try_parse_integer(), None);
    assert_eq!(Deserializer::from_str("-\r\n").try_parse_integer(), None);
    assert_eq!(Deserializer::from_str("+\r\n").try_parse_integer(), None);
    assert_eq!(Deserializer::from_str(" 1\r\n").try_parse_integer(), None);
    assert_eq!(Deserializer::from_str("42\r\n").try_parse_integer(), Some(Ok(42)));
}

#[test]
fn reads_integer_frames() {
    let mut d = Deserializer::from_str(":3000\r\n");
    assert_eq!(d.deserialize_i64(), Some(Ok(Visit::I64(3000))));
    assert_eq!(d.skip_line(), Ok(()));
    assert_eq!(d.peek_char(), Err(msg("Peek EOF")));
    assert_eq!(Deserializer::from_str("+3\r\n").deserialize_i64(), Some(Err(msg("InvalidInteger"))));
    assert_eq!(Deserializer::from_str("").deserialize_i64(), Some(Err(msg("Peek EOF"))));
    assert_eq!(Deserializer::from_str(":x\r\n").deserialize_i64(), None);
    assert_eq!(Deserializer::from_str(":-1\r\n").deserialize_any(), Some(Ok(Visit::I64(-1))));
}

#[test]
fn reads_text_frames() {
    let mut d = Deserializer::from_str("+Algo\r\n");
    assert_eq!(d.deserialize_string(), Some(Ok(Visit::String("Algo".to_string()))));
    assert_eq!(d.skip_line(), Ok(()));
    let mut e = Deserializer::from_str("$6\r\nfoobar\r\n");
    assert_eq!(e.deserialize_string(), Some(Ok(Visit::BorrowedStr("foobar"))));
    let mut f = Deserializer::from_str("\n$3\r\nabc\r\n");
    assert_eq!(f.deserialize_string(), Some(Ok(Visit::BorrowedStr("abc"))));
    assert_eq!(Deserializer::from_str("\n:3\r\n").deserialize_str(), Some(Err(msg("InvalidBulkString"))));
    assert_eq!(Deserializer::from_str("+PONG\r\n").deserialize_any(), Some(Ok(Visit::String("PONG".to_string()))));
    assert_eq!(Deserializer::from_str("$x\r\nabc\r\n").deserialize_string(), None);
}

#[test]
fn reads_error_lines_as_the_following_bulk_string() {
    let mut d = Deserializer::from_str("-ERR wrong\r\n$2\r\nok\r\n");
    assert_eq!(d.deserialize_any(), Some(Ok(Visit::BorrowedStr("ok"))));
    let mut e = Deserializer::from_str("$6\r\nfoobar\r\n");
    assert_eq!(e.deserialize_any(), Some(Err(msg("InvalidBulkString"))));
}

#[test]
fn reads_array_headers_and_counts_elements() {
    let mut d = Deserializer::from_str("*2\r\n$4\r\nPING\r\n$5\r\nHello\r\n");
    assert_eq!(d.deserialize_seq(), Some(Ok(Visit::Array(2))));
    let mut count = CRLFSeparated::new(2);
    let mut items = Vec::new();
    while count.next_element() {
        match d.deserialize_string() {
            Some(Ok(Visit::BorrowedStr(s))) => items.push(s.to_string()),
            other => panic!("unexpected {:?}", other),
        }
    }
    assert_eq!(items, vec!["PING".to_string(), "Hello".to_string()]);
    assert_eq!(count.elements(), 0);
    assert_eq!(d.skip_line(), Ok(()));
    assert_eq!(Deserializer::from_str(":1\r\n").deserialize_seq(), Some(Err(msg("ExpectedArray"))));
    assert_eq!(Deserializer::from_str("*2\r\n").deserialize_any(), Some(Ok(Visit::Array(2))));
    assert_eq!(Deserializer::from_str("?").deserialize_any(), Some(Err(msg("Syntax"))));
}

#[test]
fn negative_counts_never_end() {
    let mut count = CRLFSeparated::new(-1);
    assert!(count.next_element());
    assert!(count.next_element());
    assert_eq!(count.elements(), -3);
    let mut zero = CRLFSeparated::new(0);
    assert!(!zero.next_element());
}

#[test]
fn integer_arrays_do_not_read_back() {
    let out = written(|s| {
        s.serialize_seq(Some(1)).unwrap();
        s.serialize_i64(5).unwrap();
    });
    let mut d = Deserializer::from_str(&out);
    assert_eq!(d.deserialize_seq(), Some(Ok(Visit::Array(1))));
    assert_eq!(d.deserialize_i64(), Some(Err(msg("InvalidInteger"))));
}

#[test]
fn round_trips_integers_and_texts() {
    for v in [0i64, 1, -1, 42, 3000, i64::MIN, i64::MAX] {
        let out = written(|s| { s.serialize_i64(v).unwrap(); });
        let mut d = Deserializer::from_str(&out);
        assert_eq!(d.deserialize_i64(), Some(Ok(Visit::I64(v))));
        assert_eq!(d.skip_line(), Ok(()));
    }
    for t in ["", "PING", "héllo wörld", "a\rb", "line\nbreak", "ends with cr\r"] {
        let out = written(|s| { s.serialize_str(t).unwrap(); });
        let mut d = Deserializer::from_str(&out);
        assert_eq!(d.deserialize_string(), Some(Ok(Visit::BorrowedStr(t))));
        assert_eq!(d.skip_line(), Ok(()));
    }
    let out = written(|s| { s.serialize_bool(true).unwrap(); });
    assert_eq!(Deserializer::from_str(&out).deserialize_string(), Some(Ok(Visit::String("true".to_string()))));
}

#[test]
fn texts_holding_crlf_are_cut_short() {
    let out = written(|s| { s.serialize_str("a\r\nb").unwrap(); });
    let mut d = Deserializer::from_str(&out);
    assert_eq!(d.deserialize_string(), Some(Ok(Visit::BorrowedStr("a"))));
}

#[test]
fn error_displays_its_message() {
    assert_eq!(msg("Syntax").to_string(), "Syntax");
}

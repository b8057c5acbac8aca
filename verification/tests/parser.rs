use bsc_core::parser;
use bsc_core::types::{ErrorKind, Scalar};

#[test]
fn char() {
    assert_eq!(
        parser::char("hello".as_bytes(), 'h'),
        Ok(("ello".as_bytes(), 'h'))
    );

    assert_eq!(
        parser::char("".as_bytes(), 'a'),
        Err(("".as_bytes(), ErrorKind::EOF))
    );
}

#[test]
fn crlf() {
    assert_eq!(
        parser::crlf("\r\nbar".as_bytes()),
        Ok(("bar".as_bytes(), ()))
    );
    assert_eq!(
        parser::crlf("foo\r\n".as_bytes()),
        Err(("foo\r\n".as_bytes(), ErrorKind::NotMatched))
    );
}

#[test]
fn space() {
    assert_eq!(parser::space(" foo".as_bytes()), Ok(("foo".as_bytes(), ())));
    assert_eq!(
        parser::space("\n  ".as_bytes()),
        Err(("\n  ".as_bytes(), ErrorKind::NotMatched))
    );
}

#[test]
fn chars() {
    assert_eq!(
        parser::chars("foobar".as_bytes(), "foo"),
        Ok(("bar".as_bytes(), "foo".as_bytes()))
    );

    assert_eq!(
        parser::chars("foobar".as_bytes(), "bar"),
        Err(("foobar".as_bytes(), ErrorKind::NotMatched))
    );
}

#[test]
fn u64() {
    assert_eq!(parser::u64("1234".as_bytes()), Ok(("".as_bytes(), 1234)));

    assert_eq!(
        parser::u64("foo".as_bytes()),
        Err(("foo".as_bytes(), ErrorKind::NotMatched))
    );
}

#[test]
fn take() {
    assert_eq!(
        parser::take("Hello World".as_bytes(), 5),
        Ok((" World".as_bytes(), "Hello".as_bytes()))
    );

    {
        let expected = [5u8, 4, 100, 25, 18];
        assert_eq!(
            parser::take(&expected, 3),
            Ok((&expected[3..], &expected[..3]))
        );
    }

    {
        let expected = [5u8, 4, 100];
        assert_eq!(
            parser::take(&expected, 3),
            Ok((&[] as &[u8], &expected[..3]))
        );
    }
}

#[test]
fn take_while() {
    assert_eq!(
        parser::take_while("123456foo".as_bytes(), parser::is_ascii_digit),
        Ok(("foo".as_bytes(), "123456".as_bytes()))
    );

    assert_eq!(
        parser::take_while("foo123456".as_bytes(), parser::is_ascii_alphabetic),
        Ok(("123456".as_bytes(), "foo".as_bytes()))
    );
}

#[test]
fn take_until() {
    assert_eq!(
        parser::take_until("123456foo".as_bytes(), parser::is_ascii_alphabetic),
        Ok(("foo".as_bytes(), "123456".as_bytes()))
    );

    assert_eq!(
        parser::take_until("foo123456".as_bytes(), parser::is_ascii_digit),
        Ok(("123456".as_bytes(), "foo".as_bytes()))
    );

    assert_eq!(
        parser::take_until("hello world".as_bytes(), parser::is_ascii_whitespace),
        Ok((" world".as_bytes(), "hello".as_bytes()))
    );

    assert_eq!(
        parser::take_until("hello\r\n".as_bytes(), parser::is_ascii_whitespace),
        Ok(("\r\n".as_bytes(), "hello".as_bytes()))
    );

    assert_eq!(
        parser::take_until("hello\n".as_bytes(), parser::is_ascii_whitespace),
        Ok(("\n".as_bytes(), "hello".as_bytes()))
    );

    assert_eq!(
        parser::take_until("hello\t".as_bytes(), parser::is_ascii_whitespace),
        Ok(("\t".as_bytes(), "hello".as_bytes()))
    );
}

#[test]
fn char_mismatch_keeps_input() {
    assert_eq!(
        parser::char("hello".as_bytes(), 'x'),
        Err(("hello".as_bytes(), ErrorKind::NotMatched))
    );
}

#[test]
fn crlf_failure_never_consumes() {
    assert_eq!(
        parser::crlf("\rX".as_bytes()),
        Err(("\rX".as_bytes(), ErrorKind::NotMatched))
    );
    assert_eq!(
        parser::crlf("\r".as_bytes()),
        Err(("\r".as_bytes(), ErrorKind::EOF))
    );
    assert_eq!(
        parser::crlf("".as_bytes()),
        Err(("".as_bytes(), ErrorKind::EOF))
    );
}

#[test]
fn lf_matches_line_feed_only() {
    assert_eq!(parser::lf("\nx".as_bytes()), Ok(("x".as_bytes(), ())));
    assert_eq!(
        parser::lf("\r\n".as_bytes()),
        Err(("\r\n".as_bytes(), ErrorKind::NotMatched))
    );
    assert_eq!(
        parser::lf("".as_bytes()),
        Err(("".as_bytes(), ErrorKind::EOF))
    );
}

#[test]
fn chars_tells_exhaustion_from_mismatch() {
    assert_eq!(
        parser::chars("USI".as_bytes(), "USING"),
        Err(("USI".as_bytes(), ErrorKind::EOF))
    );
    assert_eq!(
        parser::chars("USX".as_bytes(), "USING"),
        Err(("USX".as_bytes(), ErrorKind::NotMatched))
    );
    assert_eq!(
        parser::chars("".as_bytes(), "USING"),
        Err(("".as_bytes(), ErrorKind::EOF))
    );
    assert_eq!(
        parser::chars("USING".as_bytes(), "USING"),
        Ok(("".as_bytes(), "USING".as_bytes()))
    );
}

#[test]
fn predicates_on_boundary_bytes() {
    assert!(parser::is_ascii_digit(b'0') && parser::is_ascii_digit(b'9'));
    assert!(!parser::is_ascii_digit(b'/') && !parser::is_ascii_digit(b':'));
    assert!(parser::is_ascii_alphabetic(b'A') && parser::is_ascii_alphabetic(b'z'));
    assert!(!parser::is_ascii_alphabetic(b'@') && !parser::is_ascii_alphabetic(b'['));
    assert!(!parser::is_ascii_alphabetic(b'`') && !parser::is_ascii_alphabetic(b'{'));
    assert!(parser::is_ascii_alphanumeric(b'5') && parser::is_ascii_alphanumeric(b'q'));
    assert!(!parser::is_ascii_alphanumeric(b'-'));
    for b in [b' ', b'\t', b'\n', 12u8, b'\r'] {
        assert!(parser::is_ascii_whitespace(b));
    }
    assert!(!parser::is_ascii_whitespace(11u8));
    for b in 0..=255u8 {
        assert_eq!(parser::is_ascii_digit(b), b.is_ascii_digit());
        assert_eq!(parser::is_ascii_alphabetic(b), b.is_ascii_alphabetic());
        assert_eq!(parser::is_ascii_alphanumeric(b), b.is_ascii_alphanumeric());
        assert_eq!(parser::is_ascii_whitespace(b), b.is_ascii_whitespace());
    }
}

#[test]
fn take_while_failures() {
    assert_eq!(
        parser::take_while("foo".as_bytes(), parser::is_ascii_digit),
        Err(("foo".as_bytes(), ErrorKind::NotMatched))
    );
    assert_eq!(
        parser::take_while("".as_bytes(), parser::is_ascii_digit),
        Err(("".as_bytes(), ErrorKind::EOF))
    );
    assert_eq!(
        parser::take_until(" foo".as_bytes(), parser::is_ascii_whitespace),
        Err((" foo".as_bytes(), ErrorKind::NotMatched))
    );
    assert_eq!(
        parser::take_while("123".as_bytes(), parser::is_ascii_digit),
        Ok(("".as_bytes(), "123".as_bytes()))
    );
}

#[test]
fn take_short_input_is_exhausted() {
    assert_eq!(
        parser::take("1234".as_bytes(), 6),
        Err(("1234".as_bytes(), ErrorKind::EOF))
    );
    assert_eq!(
        parser::take("".as_bytes(), 0),
        Err(("".as_bytes(), ErrorKind::EOF))
    );
    assert_eq!(
        parser::take("ab".as_bytes(), 0),
        Ok(("ab".as_bytes(), "".as_bytes()))
    );
}

#[test]
fn u64_reads_digits_and_stops() {
    assert_eq!(parser::u64("42 6".as_bytes()), Ok((" 6".as_bytes(), 42)));
    assert_eq!(parser::u64("007x".as_bytes()), Ok(("x".as_bytes(), 7)));
    assert_eq!(
        parser::u64("18446744073709551615".as_bytes()),
        Ok(("".as_bytes(), u64::MAX))
    );
    assert_eq!(
        parser::u64("".as_bytes()),
        Err(("".as_bytes(), ErrorKind::EOF))
    );
}

#[test]
fn u64_overflow_is_malformed() {
    assert_eq!(
        parser::u64("18446744073709551616".as_bytes()),
        Err(("18446744073709551616".as_bytes(), ErrorKind::Integer))
    );
    assert_eq!(
        parser::u64("99999999999999999999999 ".as_bytes()),
        Err(("99999999999999999999999 ".as_bytes(), ErrorKind::Integer))
    );
}

#[test]
fn string_takes_letters_and_digits() {
    assert_eq!(
        parser::string("Hello42 world".as_bytes()),
        Ok((" world".as_bytes(), "Hello42"))
    );
    assert_eq!(
        parser::string("-x".as_bytes()),
        Err(("-x".as_bytes(), ErrorKind::NotMatched))
    );
    assert_eq!(
        parser::string("".as_bytes()),
        Err(("".as_bytes(), ErrorKind::EOF))
    );
}

#[test]
fn bool_literals() {
    assert_eq!(parser::bool("true\n".as_bytes()), Ok(("\n".as_bytes(), true)));
    assert_eq!(parser::bool("false".as_bytes()), Ok(("".as_bytes(), false)));
    assert_eq!(
        parser::bool("tru".as_bytes()),
        Err(("tru".as_bytes(), ErrorKind::EOF))
    );
    assert_eq!(
        parser::bool("yes".as_bytes()),
        Err(("yes".as_bytes(), ErrorKind::NotMatched))
    );
}

#[test]
fn number_integer_and_decimal() {
    assert_eq!(
        parser::number("42\n".as_bytes()),
        Ok(("\n".as_bytes(), Scalar::Integer(42)))
    );
    assert_eq!(
        parser::number("3.14\n".as_bytes()),
        Ok(("\n".as_bytes(), Scalar::Float { whole: 3, frac: 14, digits: 2 }))
    );
    assert_eq!(
        parser::number("3.04".as_bytes()),
        Ok(("".as_bytes(), Scalar::Float { whole: 3, frac: 4, digits: 2 }))
    );
    assert_eq!(
        parser::number("3.x".as_bytes()),
        Ok((".x".as_bytes(), Scalar::Integer(3)))
    );
    assert_eq!(
        parser::number("3.".as_bytes()),
        Ok((".".as_bytes(), Scalar::Integer(3)))
    );
    assert_eq!(
        parser::number("x".as_bytes()),
        Err(("x".as_bytes(), ErrorKind::NotMatched))
    );
}

#[test]
fn number_that_does_not_fit_is_malformed() {
    assert_eq!(
        parser::number("18446744073709551616".as_bytes()),
        Err(("18446744073709551616".as_bytes(), ErrorKind::Integer))
    );
    assert_eq!(
        parser::number("1.18446744073709551616".as_bytes()),
        Err(("1.18446744073709551616".as_bytes(), ErrorKind::Float))
    );
}

#[test]
fn scalar_tries_bool_number_text() {
    assert_eq!(
        parser::scalar("true\n".as_bytes()),
        Ok(("\n".as_bytes(), Scalar::Bool(true)))
    );
    assert_eq!(
        parser::scalar("false\n".as_bytes()),
        Ok(("\n".as_bytes(), Scalar::Bool(false)))
    );
    assert_eq!(
        parser::scalar("42\n".as_bytes()),
        Ok(("\n".as_bytes(), Scalar::Integer(42)))
    );
    assert_eq!(
        parser::scalar("HelloWorld\n".as_bytes()),
        Ok(("\n".as_bytes(), Scalar::String("HelloWorld")))
    );
    assert_eq!(
        parser::scalar("tru\n".as_bytes()),
        Ok(("\n".as_bytes(), Scalar::String("tru")))
    );
    assert_eq!(
        parser::scalar("\n".as_bytes()),
        Err(("\n".as_bytes(), ErrorKind::NotMatched))
    );
    assert_eq!(
        parser::scalar("".as_bytes()),
        Err(("".as_bytes(), ErrorKind::EOF))
    );
}

#[test]
fn scalar_does_not_fall_back_from_a_malformed_number() {
    assert_eq!(
        parser::scalar("99999999999999999999999\n".as_bytes()),
        Err(("99999999999999999999999\n".as_bytes(), ErrorKind::Integer))
    );
}

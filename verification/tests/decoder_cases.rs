use unicode_escape::decode;
use unicode_escape::DecodeError;

#[test]
fn test_plain_identity() {
    assert_eq!(decode("").unwrap(), "");
    assert_eq!(decode("hello world").unwrap(), "hello world");
    assert_eq!(decode("65480 LGM").unwrap(), "65480 LGM");
    assert_eq!(decode("x u { } t n r 0").unwrap(), "x u { } t n r 0");
}

#[test]
fn test_fixed_substitutions() {
    assert_eq!(decode(r"\t").unwrap(), "\t");
    assert_eq!(decode(r"\n").unwrap(), "\n");
    assert_eq!(decode(r"\r").unwrap(), "\r");
    assert_eq!(decode(r"\0").unwrap(), "\0");
    assert_eq!(decode(r"\\").unwrap(), "\\");
    assert_eq!(decode(r#"\""#).unwrap(), "\"");
    assert_eq!(decode(r"\'").unwrap(), "'");
}

#[test]
fn test_hex_escape() {
    assert_eq!(decode(r"\x02").unwrap(), "\u{2}");
    assert_eq!(decode(r"\x41").unwrap(), "A");
    assert_eq!(decode(r"\x6a").unwrap(), "j");
    assert_eq!(decode(r"\x6A").unwrap(), "j");
    assert_eq!(decode(r"\x00").unwrap(), "\0");
    assert_eq!(decode(r"\xff").unwrap(), "\u{FF}");
    assert_eq!(decode(r"ab\x41cd").unwrap(), "abAcd");
}

#[test]
fn test_hex_escape_failure() {
    assert_eq!(decode(r"\x6"), Err(DecodeError::InvalidHexChar));
    assert_eq!(decode(r"\xZZ"), Err(DecodeError::InvalidHexChar));
    assert_eq!(decode(r"\x"), Err(DecodeError::InvalidHexChar));
    assert_eq!(decode(r"\x4G"), Err(DecodeError::InvalidHexChar));
    assert_eq!(decode(r"\x+5"), Err(DecodeError::InvalidHexChar));
}

#[test]
fn test_unicode_escape() {
    assert_eq!(decode(r"\u{21B5}").unwrap(), "\u{21B5}");
    assert_eq!(decode(r"\u{1F600}").unwrap(), "\u{1F600}");
    assert_eq!(decode(r"\u{10FFFF}").unwrap(), "\u{10FFFF}");
    assert_eq!(decode(r"\u{41}").unwrap(), "A");
    assert_eq!(decode(r"\u{000041}").unwrap(), "A");
    assert_eq!(decode(r"\u{e9}").unwrap(), "\u{E9}");
}

#[test]
fn test_unicode_escape_failure() {
    assert_eq!(decode(r"\u21B5}"), Err(DecodeError::InvalidUnicode));
    assert_eq!(decode(r"\u{21B5"), Err(DecodeError::InvalidUnicode));
    assert_eq!(decode(r"\u{110000}"), Err(DecodeError::InvalidUnicode));
    assert_eq!(decode(r"\u{D800}"), Err(DecodeError::InvalidUnicode));
    assert_eq!(decode(r"\u{}"), Err(DecodeError::InvalidUnicode));
    assert_eq!(decode(r"\u{FFFFFFFFF}"), Err(DecodeError::InvalidUnicode));
    assert_eq!(decode(r"\u"), Err(DecodeError::InvalidUnicode));
    assert_eq!(decode(r"\u{12 34}"), Err(DecodeError::InvalidUnicode));
}

#[test]
fn test_surrogate_boundaries() {
    assert_eq!(decode(r"\u{D7FF}").unwrap(), "\u{D7FF}");
    assert_eq!(decode(r"\u{E000}").unwrap(), "\u{E000}");
    assert_eq!(decode(r"\u{DFFF}"), Err(DecodeError::InvalidUnicode));
}

#[test]
fn test_unknown_escape() {
    assert_eq!(decode(r"\z"), Err(DecodeError::InvalidEscape));
    assert_eq!(decode(r"\6"), Err(DecodeError::InvalidEscape));
    assert_eq!(decode("abc\\"), Err(DecodeError::InvalidEscape));
}

#[test]
fn test_mixed_valid_invalid() {
    assert_eq!(
        decode(r"\x02 \65480 LGM\r\n"),
        Err(DecodeError::InvalidEscape)
    );
}

#[test]
fn test_composite() {
    assert_eq!(
        decode(r"\x02 65480 LGM\r\n").unwrap(),
        "\u{2} 65480 LGM\r\n"
    );
    assert_eq!(
        decode(r"a\tb\u{48}\x69 \\").unwrap(),
        "a\tbH\u{69} \\"
    );
}

#[test]
fn test_error_message() {
    assert_eq!(DecodeError::InvalidEscape.message(), "InvalidEscape");
    assert_eq!(DecodeError::InvalidHexChar.message(), "InvalidHexChar");
    assert_eq!(DecodeError::InvalidUnicode.message(), "InvalidUnicode");
}

#[test]
fn test_escape_hex_cursor() {
    assert_eq!(unicode_escape::escape_hex("4142", 0), Ok(('A', 2)));
    assert_eq!(unicode_escape::escape_hex("x41", 1), Ok(('A', 3)));
    assert_eq!(
        unicode_escape::escape_hex("4", 0),
        Err(DecodeError::InvalidHexChar)
    );
}

#[test]
fn test_decode_unicode_cursor() {
    assert_eq!(unicode_escape::decode_unicode("{41}", 0), Ok(('A', 4)));
    assert_eq!(unicode_escape::decode_unicode("{21B5}x", 0), Ok(('\u{21B5}', 6)));
    assert_eq!(
        unicode_escape::decode_unicode("41}", 0),
        Err(DecodeError::InvalidUnicode)
    );
}

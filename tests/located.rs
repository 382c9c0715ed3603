use content_line::checks::{compare, delocate, same_result};
use content_line::error::{ErrorKind, EMPTY_CONTENT_LINE, NO_COMMA_ETC, UTF8_ERROR};
use content_line::located::Located;
use content_line::reference::reference_parse;
use content_line::scanner::preparse;

fn seg(text: &[u8]) -> (usize, usize, ErrorKind) {
    let e = preparse(text).unwrap_err();
    (e.segment.start, e.segment.end, e.kind)
}

#[test]
fn ranges_of_a_parsed_line() {
    let p = preparse(r#"FOO;BAR=íí,"ó:u":bé"#.as_bytes()).unwrap();
    assert_eq!(p.name, Located { val: "FOO".to_string(), start: 0, end: 3 });
    assert_eq!(p.parameters.len(), 1);
    assert_eq!(p.parameters[0].name, Located { val: "BAR".to_string(), start: 4, end: 7 });
    assert_eq!(p.parameters[0].values[0], Located { val: "íí".to_string(), start: 8, end: 12 });
    assert_eq!(p.parameters[0].values[1], Located { val: "ó:u".to_string(), start: 14, end: 18 });
    assert_eq!(p.value, Located { val: "bé".to_string(), start: 20, end: 23 });
}

#[test]
fn value_is_taken_verbatim() {
    let p = preparse(b"A:b;c=d,\"e\":f").unwrap();
    assert_eq!(p.value.val, "b;c=d,\"e\":f");
    assert!(p.parameters.is_empty());
}

#[test]
fn segments_of_each_kind() {
    assert_eq!(seg(b""), (0, 0, ErrorKind::EmptyContentLine));
    assert_eq!(seg(b":x"), (0, 1, ErrorKind::NoPropertyName));
    assert_eq!(seg(b"A;"), (2, 2, ErrorKind::NoParamName));
    assert_eq!(seg(b"A;=x:"), (2, 3, ErrorKind::NoParamName));
    assert_eq!(seg(b"A;B=c"), (5, 5, ErrorKind::NoPropertyValue));
    assert_eq!(seg(b"A;B=\"c\" :v"), (7, 8, ErrorKind::NoCommaEtc));
    assert_eq!(seg(b"A;B=ab\"c\":v"), (6, 7, ErrorKind::UnexpectedDoubleQuote));
    assert_eq!(seg(b"FOO:b\xC3a"), (5, 6, ErrorKind::Utf8Error));
}

#[test]
fn earliest_offending_byte_wins() {
    // a structural fault before the bad byte is reported
    assert_eq!(seg(b";\xFF"), (0, 1, ErrorKind::NoPropertyName));
    assert_eq!(seg(b"A;B=\"c\" \xFF"), (7, 8, ErrorKind::NoCommaEtc));
    // a bad byte before any structural fault is reported
    assert_eq!(seg(b"A\xFF;"), (1, 2, ErrorKind::Utf8Error));
    assert_eq!(seg(b"A;B=\"c\"\xFF"), (7, 8, ErrorKind::Utf8Error));
    // a bad byte in the value is found too
    assert_eq!(seg(b"A:ok\xF0\x92\x80a"), (4, 5, ErrorKind::Utf8Error));
}

#[test]
fn truncated_four_byte_scalar() {
    let mut bad = "abc𒀁".as_bytes().to_vec();
    let len = bad.len();
    bad[len - 2] = b'a';
    assert_eq!(seg(&bad), (3, 4, ErrorKind::Utf8Error));
}

#[test]
fn overlong_and_surrogate_encodings_are_rejected() {
    assert_eq!(seg(b"A\xC0\x80:"), (1, 2, ErrorKind::Utf8Error));
    assert_eq!(seg(b"A\xED\xA0\x80:"), (1, 2, ErrorKind::Utf8Error));
    assert_eq!(seg(b"A\xF4\x90\x80\x80:"), (1, 2, ErrorKind::Utf8Error));
}

#[test]
fn unterminated_quote_needs_a_value() {
    assert_eq!(seg(b"A;B=\"x:y"), (8, 8, ErrorKind::NoPropertyValue));
}

#[test]
fn other_follower_of_a_name() {
    assert_eq!(seg(b"A,B:c"), (5, 5, ErrorKind::NoPropertyValue));
    assert_eq!(seg(b"A;B:c"), (5, 5, ErrorKind::NoPropertyValue));
}

#[test]
fn reason_codes() {
    assert_eq!(preparse(b"").unwrap_err().reason(), EMPTY_CONTENT_LINE);
    assert_eq!(preparse(b"A;B=\"c\" :v").unwrap_err().reason(), NO_COMMA_ETC);
    assert_eq!(preparse(b"A:\xFF").unwrap_err().reason(), UTF8_ERROR);
    assert_eq!(ErrorKind::NoParamName.reason(), "NO_PARAM_NAME");
    assert_eq!(ErrorKind::NoPropertyName.reason(), "NO_PROPERTY_NAME");
    assert_eq!(ErrorKind::UnexpectedDoubleQuote.reason(), "UNEXPECTED_DOUBLE_QUOTE");
    assert_eq!(ErrorKind::NoPropertyValue.reason(), "NO_PROPERTY_VALUE");
}

#[test]
fn parsing_twice_gives_the_same_outcome() {
    for text in [&b"FOO;BAR=baz:bex"[..], b"A;", b"\xEF\x00", b"X;Y=\"a,b\",c;Z=:v"] {
        let a = preparse(text);
        let b = preparse(text);
        assert!(same_result(&a, &b));
        assert_eq!(a, b);
    }
}

#[test]
fn both_parsers_agree_on_many_inputs() {
    let alphabet: [u8; 9] = [b'A', b';', b'=', b',', b'"', b':', b' ', 0xC3, 0xA9];
    for a in alphabet {
        for b in alphabet {
            for c in alphabet {
                for d in alphabet {
                    let text = [a, b, c, d];
                    assert!(compare(&text));
                    assert_eq!(preparse(&text), reference_parse(&text));
                }
            }
        }
    }
}

#[test]
fn delocate_keeps_the_strings() {
    let p = preparse("N;P=\"x y\",z:v".as_bytes()).unwrap();
    let s = delocate(&p);
    assert_eq!(s.name, "N");
    assert_eq!(s.parameters[0].name, "P");
    assert_eq!(s.parameters[0].values, vec!["x y".to_string(), "z".to_string()]);
    assert_eq!(s.value, "v");
}

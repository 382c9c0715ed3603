use bstr::BString;
use content_line::checks::{compare, error_for, error_for_bytes, parse, StrParam, StrProp};
use content_line::error::{
    ErrorKind, PreparseError, Segment, EMPTY_CONTENT_LINE, NO_COMMA_ETC, NO_PARAM_NAME,
    NO_PROPERTY_NAME, NO_PROPERTY_VALUE, UNEXPECTED_DOUBLE_QUOTE, UTF8_ERROR,
};
use content_line::reference::reference_parse;
use content_line::scanner::preparse;

fn error_is(text: &str, expected: &str) {
    assert!(compare(text.as_bytes()), "text: |{text}|");
    assert_eq!(error_for(text), expected, "text: |{text}|");
}

fn prop(name: &str, parameters: Vec<(&str, Vec<&str>)>, value: &str) -> StrProp {
    StrProp {
        name: name.to_string(),
        value: value.to_string(),
        parameters: parameters
            .into_iter()
            .map(|(n, vs)| StrParam {
                name: n.to_string(),
                values: vs.into_iter().map(|v| v.to_string()).collect(),
            })
            .collect(),
    }
}

fn as_expected(text: &str, expected: StrProp) {
    assert!(compare(text.as_bytes()), "text: |{text}|");
    assert_eq!(parse(text), expected, "text: |{text}|");
}

fn error_at(text: &[u8], start: usize, end: usize, kind: ErrorKind) {
    let expected = PreparseError { segment: Segment { start, end }, kind };
    assert_eq!(preparse(text), Err(expected), "text: {:?}", BString::from(text));
    assert_eq!(reference_parse(text), Err(expected), "text: {:?}", BString::from(text));
}

#[test]
fn property_name_only() {
    error_is("A", NO_PROPERTY_VALUE);
}
#[test]
fn property_name_semicolon_only() {
    error_is("A;", NO_PARAM_NAME);
}
#[test]
fn no_property_value() {
    error_is("A;B=", NO_PROPERTY_VALUE);
    error_is("A;B=c", NO_PROPERTY_VALUE);
}
#[test]
fn quotes_allow_punctuation_in_values() {
    error_is(r#"A;B=",C=:""#, NO_PROPERTY_VALUE);
    error_is(r#"A;B=":C=:""#, NO_PROPERTY_VALUE);
    error_is(r#"A;B=";C=:""#, NO_PROPERTY_VALUE);
}
#[test]
fn forbid_embedded_dquotes() {
    error_is(r#"A;B=ab"c":val"#, UNEXPECTED_DOUBLE_QUOTE);
}
#[test]
fn forbid_space_after_ending_dquote() {
    error_is(r#"A;B="c" ,"d":val"#, NO_COMMA_ETC);
}
#[test]
fn property_name_required() {
    error_is(":foo", NO_PROPERTY_NAME);
    error_is("/foo", NO_PROPERTY_NAME);
}
#[test]
fn forbid_empty_content_line() {
    error_is("", EMPTY_CONTENT_LINE);
}
#[test]
fn value_required() {
    error_is("K", NO_PROPERTY_VALUE);
}
#[test]
fn parameter_name_required() {
    error_is("Foo;=bar:", NO_PARAM_NAME);
    error_is("Foo;/:", NO_PARAM_NAME);
}
#[test]
fn must_be_utf8_len_2() {
    let mut bad = BString::from("FOO:bá");
    let len = bad.len();
    bad[len - 1] = b'a';
    assert!(compare(bad.as_slice()));
    assert_eq!(error_for_bytes(bad.as_slice()), UTF8_ERROR, "text: {:?}", bad);
}
#[test]
fn must_be_utf8_len_4() {
    let mut bad = BString::from("abc𒀁");
    let len = bad.len();
    bad[len - 2] = b'a';
    assert!(compare(bad.as_slice()));
    assert_eq!(error_for_bytes(bad.as_slice()), UTF8_ERROR, "text: {:?}", bad);
}

#[test]
fn minimal() {
    as_expected("-:", prop("-", vec![], ""));
}
#[test]
fn attach() {
    let text =
        "ATTACH;FMTTYPE=text/plain;ENCODING=BASE64;VALUE=BINARY:VGhlIHF1aWNrIGJyb3duIGZveAo=";
    let expected = prop(
        "ATTACH",
        vec![
            ("FMTTYPE", vec!["text/plain"]),
            ("ENCODING", vec!["BASE64"]),
            ("VALUE", vec!["BINARY"]),
        ],
        "VGhlIHF1aWNrIGJyb3duIGZveAo=",
    );
    as_expected(text, expected);
}
#[test]
fn vanilla() {
    as_expected("FOO;BAR=baz:bex", prop("FOO", vec![("BAR", vec!["baz"])], "bex"));
}
#[test]
fn non_ascii() {
    let text = r#"FOO;BAR=íííí,,"óu":béééé"#;
    as_expected(text, prop("FOO", vec![("BAR", vec!["íííí", "", "óu"])], "béééé"));
}
#[test]
fn comma_comma_comma() {
    as_expected("FOO;BAR=,,,:bex", prop("FOO", vec![("BAR", vec!["", "", "", ""])], "bex"));
}
#[test]
fn empty_param_value_list() {
    as_expected("FOO;BAR=:bex", prop("FOO", vec![("BAR", vec![""])], "bex"));
}

#[test]
fn two_a() {
    assert!(compare("2;a=:".as_bytes()));
}
#[test]
fn two_a_quote_lt() {
    assert!(compare(r#"2;a="<":"#.as_bytes()));
}
#[test]
fn two_a_quote_lt_and_a_trailing_quote() {
    assert!(compare(r#"2;a="<":""#.as_bytes()));
}
#[test]
fn leading_x7f() {
    assert!(compare(b"\x7f"));
}
#[test]
fn z_comma() {
    assert!(compare("z,".as_bytes()));
}
#[test]
fn null_dash() {
    assert!(compare(b"\x00-"));
}
#[test]
fn z_semi_two() {
    assert!(compare("z;2".as_bytes()));
}
#[test]
fn unpaired_quote() {
    assert!(compare("2;4=\"".as_bytes()));
}
#[test]
fn unpaired_quote_bang() {
    assert!(compare("2;A=\"!".as_bytes()));
}
#[test]
fn zero_255() {
    assert!(compare(b"\x00\xFF"));
}
#[test]
fn bytes_239_0() {
    assert!(compare(b"\xEF\x00"));
}
#[test]
fn y_semi_z_semi_ctrl_r() {
    assert!(compare(b"y;z=;\x12"));
}
#[test]
fn semi_255() {
    assert!(compare(b";\xFF"));
}
#[test]
fn two_4_equal_tab_ctrl_a() {
    assert!(compare(b"2;4=\"\t\x01"));
}
#[test]
fn z_quote() {
    assert!(compare(b"z\""));
}
#[test]
fn three_z_ux() {
    assert!(compare("3zǙ".as_bytes()));
}
#[test]
fn six_t_null() {
    assert!(compare(b"6:t\0"));
}

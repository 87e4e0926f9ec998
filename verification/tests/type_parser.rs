use std::sync::Arc;

use packet_generator::kdl_parser::errors::{ParsingError, Severity, SourceInfo, Span};
use packet_generator::kdl_parser::schema::{ArraySeparator, ArraySize, DataType, IntLikeEncoding, JsonEncoding};
use packet_generator::kdl_parser::type_parser::{generic_parse, parse_datatype, Input};

fn parse(s: &str) -> Result<DataType, packet_generator::kdl_parser::type_parser::TypeError> {
    let mut input = Input::new(s);
    parse_datatype(&mut input)
}

#[test]
fn type_parser_errors_on_unspecified_i32() {
    let s = "i32";
    let val = parse(s);
    assert!(val.is_err());
}

#[test]
fn type_parser_can_parse_string_encoded_i32() {
    let s = "i32::str";
    let val = parse(s);
    assert!(matches!(val, Ok(DataType::I32 { encoding: IntLikeEncoding::String })));
}

#[test]
fn type_parser_can_parse_string_encoded_i32_with_extra() {
    let s = "i32::{str, foo}";
    let val = parse(s);
    assert!(matches!(val, Ok(DataType::I32 { encoding: IntLikeEncoding::String })));
}

#[test]
fn type_parser_can_parse_int_encoded_i32() {
    let s = "i32::int";
    let val = parse(s);
    assert!(matches!(val, Ok(DataType::I32 { encoding: IntLikeEncoding::Int })));
}

#[test]
fn type_parser_arrays_of_primitive_require_encoding() {
    let s = "[i32]";
    let val = parse(s);
    assert!(matches!(val, Err(..)));
}

#[test]
fn type_parser_can_parse_normal_arrays() {
    let s = "[i32::int]";
    let val = parse(s);
    assert!(matches!(val, Ok(DataType::Array { .. })));
}

#[test]
fn type_parser_can_parse_string_at_arrays() {
    let s = "[str]::sep(at)";
    let val = parse(s);
    assert!(matches!(val, Ok(DataType::StringArray { separator: ArraySeparator::At, .. })));
}

#[test]
fn type_parser_can_parse_string_comma_arrays() {
    let s = "[str]::sep(comma)";
    let val = parse(s);
    assert!(matches!(val, Ok(DataType::StringArray { separator: ArraySeparator::Comma, .. })));
}

#[test]
fn type_parser_can_parse_string_colon_arrays() {
    let s = "[str]::sep(colon)";
    let val = parse(s);
    assert!(matches!(val, Ok(DataType::StringArray { separator: ArraySeparator::Colon, .. })));
}

#[test]
fn type_parser_can_parse_sized_arrays() {
    let s = "[i32::int]::size(1)";
    let val = parse(s);
    assert!(matches!(val, Ok(DataType::Array { .. })));
}

#[test]
fn type_parser_can_parse_datetime() {
    let s = "datetime";
    let val = parse(s);
    assert!(matches!(val, Ok(DataType::Datetime)));
}

#[test]
fn type_parser_can_parse_datetime_unix() {
    let s = "datetime-unix";
    let val = parse(s);
    assert!(matches!(val, Ok(DataType::DatetimeUnix)));
}

#[test]
fn type_parser_can_parse_custom_type() {
    let s = "Foo";
    let val = parse(s);
    assert!(matches!(val, Ok(DataType::Custom { encoding: JsonEncoding::Json, .. })));
}

#[test]
fn type_parser_can_parse_maps() {
    let s = "%{i32::str => i64::str}";
    let val = parse(s);
    assert!(matches!(val, Ok(DataType::Dictionary { .. })));
}

#[test]
fn type_parser_can_parse_nested_maps() {
    let s = "%{i32::str => %{i64::str => f32::int}}";
    let val = parse(s);
    assert!(matches!(val, Ok(DataType::Dictionary { .. })));
}

#[test]
fn type_parser_way_too_many_parenthesis() {
    let s = "[[[%{i32::{str} => %{i64::{str, foo(x, y, z)} => f32::{int, bar(x)}}}]::size(1)]::sep(comma)]";
    let val = parse(s);
    assert!(matches!(val, Ok(DataType::Array { .. })));
}

#[test]
fn can_parse_ambiguous_custom_type() {
    let vals = &[
        "strange", // starts with "str"
        "i32foo", "f64foo",
    ];

    for &v in vals {
        let val = parse(v);
        assert!(!matches!(val, Ok(DataType::String)));
        assert!(matches!(val, Ok(DataType::Custom { encoding: JsonEncoding::Json, .. })));
    }
}

#[test]
fn can_parse_ambigous_custom_type() {
    let vals = &["strange", "i32foo", "f64foo"];

    for &v in vals {
        let val = parse(v);
        assert!(!matches!(val, Ok(DataType::String)));
        assert!(matches!(val, Ok(DataType::Custom { encoding: JsonEncoding::Json, .. })));
    }
}

#[test]
fn type_parser_reads_pipe_separators_and_sizes() {
    assert!(matches!(
        parse("[str]::sep(pipe)"),
        Ok(DataType::StringArray { separator: ArraySeparator::Pipe, size: ArraySize::Dynamic, .. })
    ));
    assert!(matches!(parse("[i32::int]::size(n)"), Ok(DataType::Array { size: ArraySize::Dynamic, .. })));
    assert!(matches!(parse("[i32::int]::size(3)"), Ok(DataType::Array { size: ArraySize::Fixed(3), .. })));
}

#[test]
fn type_parser_moves_past_the_datatype() {
    let mut input = Input::new("i32::int rest");
    let val = parse_datatype(&mut input);
    assert!(matches!(val, Ok(DataType::I32 { encoding: IntLikeEncoding::Int })));
    assert_eq!(input.pos, 8);
}

#[test]
fn generic_parse_reports_missing_encodings() {
    let source = Arc::new(SourceInfo::new("test.kdl", "field \"a\" type=\"i32\""));
    let err = generic_parse("i32", None, &source, Span::new(10, 9)).unwrap_err();
    match err {
        ParsingError::Diagnostics { diagnostics, .. } => {
            assert_eq!(diagnostics.len(), 1);
            assert_eq!(diagnostics[0].message, "integer-like type `i32` requires an encoding");
            assert_eq!(diagnostics[0].help.as_deref(), Some("specify either i32::int or i32::str"));
            assert_eq!(diagnostics[0].severity, Severity::Error);
        },
        _ => panic!("expected diagnostics"),
    }
}

#[test]
fn generic_parse_rejects_trailing_text() {
    let source = Arc::new(SourceInfo::new("test.kdl", ""));
    assert!(generic_parse("i32::int extra", None, &source, Span::new(0, 0)).is_err());
    assert!(matches!(
        generic_parse("%{str => bool}", None, &source, Span::new(0, 0)),
        Ok(DataType::Dictionary { .. })
    ));
}

#[test]
fn datatypes_are_shown_in_messages() {
    assert_eq!(parse("i32::str").unwrap().to_text(), "i32");
    assert_eq!(parse("[i32::int]::size(3)").unwrap().to_text(), "[i32]::size(3)");
    assert_eq!(parse("[str]::sep(pipe)").unwrap().to_text(), "[string|]::size(n)");
    assert_eq!(parse("%{i32::str => Foo}").unwrap().to_text(), "i32 => Foo::json");
    assert_eq!(ArraySize::Fixed(12).to_text(), "size(12)");
    assert_eq!(ArraySeparator::At.to_text(), "@");
    assert_eq!(JsonEncoding::String.to_text(), "str");
}

#[test]
fn written_datatypes_are_read_whole() {
    let written = [
        "i32::{int, foo(bar, baz), qux}",
        "bool::{x1, y}",
        "datetime-unix::{a, b}",
        "Foo9",
        "[u64::str]::{sep(pipe), size(18446744073709551615), extra}",
        "[[Bar]::size(n)]",
        "%{ str => [f32::{bar, int}]::sep(at) }::{m(p)}",
        "%{ %{ Key => f64 } => [bool]::{size(3)} }",
    ];
    for s in written {
        let source = Arc::new(SourceInfo::new("t.kdl", s));
        let span = Span::new(0, s.len());
        let parsed = generic_parse(s, None, &source, span);
        assert!(parsed.is_ok(), "{s} was not read");
    }
}

#[test]
fn written_datatypes_are_read_as_written() {
    let s = "[u64::{int, x, str}]::{sep(pipe), size(3), extra}";
    let source = Arc::new(SourceInfo::new("t.kdl", s));
    match generic_parse(s, None, &source, Span::new(0, s.len())).unwrap() {
        DataType::StringArray { inner, separator, size } => {
            assert!(matches!(*inner, DataType::U64 { encoding: IntLikeEncoding::String }));
            assert_eq!(separator, ArraySeparator::Pipe);
            assert_eq!(size, ArraySize::Fixed(3));
        },
        other => panic!("unexpected {other:?}"),
    }
    let s = "%{ bool::int => Foo }";
    let source = Arc::new(SourceInfo::new("t.kdl", s));
    match generic_parse(s, None, &source, Span::new(0, s.len())).unwrap() {
        DataType::Dictionary { key, value } => {
            assert!(matches!(*key, DataType::Bool { .. }));
            assert!(matches!(&*value, DataType::Custom { name, encoding: JsonEncoding::Json } if name == "Foo"));
        },
        other => panic!("unexpected {other:?}"),
    }
}

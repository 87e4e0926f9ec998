use std::sync::Arc;

use packet_generator::generators::cpp::{
    enum_format, enum_variant_format, split_documentation, struct_field_format, struct_format,
};
use packet_generator::generators::{
    is_generatable, Addon, CxxGenerator, GeneratedSource, GenerationError, Generator, GlazeGenerator, WithAddons,
};
use packet_generator::intermediate::registry::DefinitionRegistry;
use packet_generator::intermediate::schema::{
    ArraySeparator, ArraySize, BoolEncoding, DataType, Definition, Encoding, IntEnum, IntEnumVariant, Json,
    JsonEncoding, JsonField, StringEnum, StringEnumVariant,
};
use packet_generator::kdl_parser::errors::{SourceInfo, Span};

struct MockGenerator;

impl Generator for MockGenerator {
    fn generate(
        &self,
        _registry: &DefinitionRegistry,
        _initial_filename: &str,
    ) -> Result<Vec<GeneratedSource>, GenerationError> {
        Ok(vec![])
    }
}

#[test]
fn generator_can_read_json_name() {
    let generator = MockGenerator {};
    let definition = Json::new(
        "Foo".into(),
        0,
        "a".into(),
        Arc::new(SourceInfo { name: "foo".into(), source_code: "foo.kdl".into() }),
        Span::new(0, 0),
    );

    assert_eq!(generator.json_name(&definition), "Foo");
}

#[test]
fn generator_can_read_json_field_name() {
    let generator = MockGenerator {};

    let definition = JsonField {
        index: 0,
        name: "foo".into(),
        key: "x".into(),
        type_: DataType::String,
        optional: false,
        doc: "a".into(),
        span: Span::new(0, 0),
    };

    assert_eq!(generator.json_field_name(&definition), "foo");
}

#[test]
fn generator_can_read_int_enum_name() {
    let generator = MockGenerator {};

    let definition = IntEnum { index: 0, name: "Foo".into(), doc: "a".into(), start: 0, variants: Vec::new() };

    assert_eq!(generator.int_enum_name(&definition), "Foo");
}

#[test]
fn generator_can_read_int_enum_variant_name() {
    let generator = MockGenerator {};

    let definition = IntEnumVariant { index: 0, name: "Foo".into(), doc: "a".into(), value: None };

    assert_eq!(generator.int_enum_variant_name(&definition), "Foo");
}

#[test]
fn generator_can_read_string_enum_name() {
    let generator = MockGenerator {};

    let definition = StringEnum { index: 0, name: "Foo".into(), doc: "a".into(), variants: Vec::new() };

    assert_eq!(generator.string_enum_name(&definition), "Foo");
}

#[test]
fn generator_can_read_string_enum_variant_name() {
    let generator = MockGenerator {};

    let definition = StringEnumVariant { index: 0, name: "Foo".into(), doc: "a".into(), value: "a".into() };

    assert_eq!(generator.string_enum_variant_name(&definition), "Foo");
}

const TEST_NAME: &str = "any-random_namedSequence-Of_characters";

struct SyntheticData {
    json: Json,
    int_enum: IntEnum,
    str_enum: StringEnum,
}

fn build_synthetic_definitions() -> SyntheticData {
    let source = Arc::new(SourceInfo::new("", ""));

    let mut json = Json::new(TEST_NAME.to_owned(), 0, String::new(), source, Span::new(0, 0));

    json.add_field(JsonField {
        index: 0,
        name: TEST_NAME.into(),
        key: String::new(),
        type_: DataType::String,
        optional: false,
        doc: String::new(),
        span: Span::new(0, 0),
    });

    let mut int_enum = IntEnum::new(TEST_NAME.to_owned(), 0, String::new(), 0);

    int_enum.add_variant(IntEnumVariant { index: 0, name: TEST_NAME.into(), doc: String::new(), value: None });

    let mut str_enum = StringEnum::new(TEST_NAME.to_owned(), 0, String::new());

    str_enum.add_variant(StringEnumVariant {
        index: 0,
        name: TEST_NAME.into(),
        doc: String::new(),
        value: String::new(),
    });

    SyntheticData { json, int_enum, str_enum }
}

#[test]
fn can_format_structs() {
    let data = build_synthetic_definitions();
    let generator = CxxGenerator::new();
    let expected = "AnyRandomNamedSequenceOfCharacters";
    assert_eq!(struct_format(TEST_NAME), expected);

    assert_eq!(generator.json_name(&data.json), expected);
}

#[test]
fn can_format_struct_fields() {
    let data = build_synthetic_definitions();
    let generator = CxxGenerator::new();
    let expected = "any_random_named_sequence_of_characters";
    assert_eq!(struct_field_format(TEST_NAME), expected);

    let field = data.json.fields.iter().find(|f| f.name == TEST_NAME).unwrap();
    assert_eq!(generator.json_field_name(field), expected);
}

#[test]
fn can_format_enums() {
    let data = build_synthetic_definitions();
    let generator = CxxGenerator::new();
    let expected = "AnyRandomNamedSequenceOfCharacters";
    assert_eq!(enum_format(TEST_NAME), expected);

    assert_eq!(generator.int_enum_name(&data.int_enum), expected);

    assert_eq!(generator.string_enum_name(&data.str_enum), expected);
}

#[test]
fn can_format_enum_variants() {
    let data = build_synthetic_definitions();
    let generator = CxxGenerator::new();
    let expected = "AnyRandomNamedSequenceOfCharacters";
    assert_eq!(enum_variant_format(TEST_NAME), expected);

    let iv = data.int_enum.variants.iter().find(|v| v.name == TEST_NAME).unwrap();
    assert_eq!(generator.int_enum_variant_name(iv), expected);

    let sv = data.str_enum.variants.iter().find(|v| v.name == TEST_NAME).unwrap();
    assert_eq!(generator.string_enum_variant_name(sv), expected);
}

#[derive(Debug, Clone)]
struct MockAddon {}

impl Addon for MockAddon {
    fn preamble(&self, _registry: &DefinitionRegistry) -> Option<String> {
        None
    }

    fn content(&self, _registry: &DefinitionRegistry) -> Option<Result<String, GenerationError>> {
        None
    }

    fn postamble(&self, _registry: &DefinitionRegistry) -> Option<String> {
        None
    }
}

#[derive(Debug, Clone)]
struct TaggedAddon {
    tag: &'static str,
}

impl Addon for TaggedAddon {
    fn preamble(&self, _registry: &DefinitionRegistry) -> Option<String> {
        Some(format!("// pre {}", self.tag))
    }

    fn content(&self, _registry: &DefinitionRegistry) -> Option<Result<String, GenerationError>> {
        Some(Ok(format!("// con {}", self.tag)))
    }

    fn postamble(&self, _registry: &DefinitionRegistry) -> Option<String> {
        Some(format!("// post {}", self.tag))
    }
}

#[test]
fn can_add_addons() {
    let mut generator = CxxGenerator::new();
    assert_eq!(generator.addon_count(), 0);

    generator.add_addon(MockAddon {});
    generator.add_addon(MockAddon {});
    generator.add_addon(MockAddon {});

    assert_eq!(generator.addon_count(), 3);
}

#[test]
fn mod_can_split_documentation() {
    const DOC: &str = r#"# Foo

Bar.
    Baz."#;

    assert_eq!(
        split_documentation(DOC, 0),
        r#"/// # Foo
///
/// Bar.
///     Baz."#
    );

    assert_eq!(
        split_documentation(DOC, 2),
        r#"        /// # Foo
        ///
        /// Bar.
        ///     Baz."#
    );
}

#[test]
fn utils_can_split_documentation() {
    const DOC_FIELD: &str = r#"# This is a test

Foo.
Bar. Baz. Quox.
    Bla bla bla."#;

    const TAB: &str = " ";
    const COMMENT_STR: &str = "//";
    const INDENT_LEVEL: usize = 42;

    let res = packet_generator::generators::utils::split_documentation(DOC_FIELD, TAB, COMMENT_STR, INDENT_LEVEL);

    for (line, doc_line) in res.lines().zip(DOC_FIELD.lines()) {
        let until_tab = &line[0..INDENT_LEVEL];
        assert_eq!(until_tab, TAB.repeat(INDENT_LEVEL));

        let until_comment_str = &line[(INDENT_LEVEL)..(INDENT_LEVEL + COMMENT_STR.len())];
        assert_eq!(until_comment_str, COMMENT_STR);

        let skip_whitespace = usize::from(!doc_line.is_empty());

        let rest_of_line = &line[(INDENT_LEVEL + COMMENT_STR.len() + skip_whitespace)..];

        assert_eq!(rest_of_line, doc_line);
    }
}

#[test]
fn documentation_keeps_the_number_of_lines() {
    let doc = "a\n\nb\n";
    let res = packet_generator::generators::utils::split_documentation(doc, "\t", "#", 1);
    assert_eq!(res.split('\n').count(), doc.split('\n').count());
    assert_eq!(res, "\t# a\n\t#\n\t# b\n\t#");
}

fn sample_registry() -> DefinitionRegistry {
    let source = Arc::new(SourceInfo::new("test.kdl", ""));
    let mut partial = DefinitionRegistry::new();

    let mut kind = IntEnum::new("packet-kind".into(), 0, "Kinds.".into(), 3);
    kind.add_variant(IntEnumVariant { index: 0, name: "first-one".into(), doc: "The first.".into(), value: None });
    kind.add_variant(IntEnumVariant { index: 1, name: "second".into(), doc: String::new(), value: Some(10) });
    partial.insert(Definition::IntEnum(kind));

    let mut mode = StringEnum::new("mode".into(), 1, String::new());
    mode.add_variant(StringEnumVariant { index: 0, name: "fast".into(), doc: String::new(), value: "fast".into() });
    partial.insert(Definition::StringEnum(mode));

    let mut header = Json::new("packet-header".into(), 2, "A header.".into(), source, Span::new(0, 0));
    header.add_field(JsonField {
        index: 0,
        name: "packetId".into(),
        key: "a1".into(),
        type_: DataType::I32 { encoding: Encoding::String },
        optional: false,
        doc: "The id.".into(),
        span: Span::new(0, 0),
    });
    header.add_field(JsonField {
        index: 1,
        name: "kind".into(),
        key: "k".into(),
        type_: DataType::Unknown { encoding: JsonEncoding::Json, name: "packet-kind".into() },
        optional: true,
        doc: String::new(),
        span: Span::new(0, 0),
    });
    header.add_field(JsonField {
        index: 2,
        name: "tags".into(),
        key: "t".into(),
        type_: DataType::StringArray {
            inner_type: Arc::new(DataType::String),
            separator: ArraySeparator::Pipe,
            size: ArraySize::Dynamic,
        },
        optional: false,
        doc: String::new(),
        span: Span::new(0, 0),
    });
    header.add_field(JsonField {
        index: 3,
        name: "flag".into(),
        key: "f".into(),
        type_: DataType::Bool { encoding: BoolEncoding::Int },
        optional: false,
        doc: String::new(),
        span: Span::new(0, 0),
    });
    partial.insert(Definition::Json(header));

    partial.finalize().unwrap()
}

#[test]
fn cxx_generator_writes_one_header() {
    let registry = sample_registry();
    assert!(is_generatable(&registry));

    let sources = CxxGenerator::new().generate(&registry, "packets").unwrap();
    assert_eq!(sources.len(), 1);
    assert_eq!(sources[0].filename, "packets.hpp");

    let expected = "#pragma once\n\n#include <pkgen_helpers.hpp>\n\n\n// This file is auto-generated from a KDL specification by `packet-generator`.\n// Please do not modify this, but instead change the original definitions.\n\n\
enum class PacketKind;\n\n\
///\nnamespace Mode {\n    using Type = std::string;\n\n    ///\n    constexpr const auto Fast = \"fast\";\n};\n\n\
struct PacketHeader;\n\n\
/// Kinds.\nenum class PacketKind {\n\n    /// The first.\n    FirstOne = 3,\n\n    ///\n    Second = 10\n};\n\n\
\n/// A header.\nstruct PacketHeader {\n\n    /// The id.\n    int32_t packet_id;\n\n    ///\n    std::optional<PacketKind> kind;\n\n    ///\n    pkg::string_list<std::string> tags;\n\n    ///\n    bool flag;\n};\n\n";
    assert_eq!(sources[0].content, expected);
}

#[test]
fn glaze_addon_describes_every_struct() {
    let registry = sample_registry();
    let content = GlazeGenerator.content(&registry).unwrap().unwrap();

    let expected = [
        "// Auto-generated Glaze definitions\n#if __has_include(<glaze/glaze.hpp>)\n#include <pkgen_glaze_helpers.hpp>\n\n",
        "template <>\nstruct glz::meta<PacketHeader> {\n    using T = PacketHeader;\n    static constexpr auto value = object(\n",
        "        \"a1\", glz::quoted_num<&T::packet_id>,\n",
        "        \"k\", &T::kind,\n",
        "        \"t\", pkg::glaze::array_string<T, &T::tags, '|'>,\n",
        "        \"f\", glz::bools_as_numbers<&T::flag>\n    );\n};",
        "\n\n#endif // __has_include(<glaze/glaze.hpp>)\n        ",
    ]
    .concat();
    assert_eq!(content, expected);
}

#[test]
fn cxx_generator_appends_addon_content() {
    let registry = sample_registry();
    let mut generator = CxxGenerator::new();
    generator.add_addon(GlazeGenerator);

    let sources = generator.generate(&registry, "out").unwrap();
    let glaze = GlazeGenerator.content(&registry).unwrap().unwrap();
    assert!(sources[0].content.ends_with(&format!("{glaze}\n")));
}

#[test]
fn cxx_generator_reports_cycles() {
    let source = Arc::new(SourceInfo::new("test.kdl", ""));
    let mut partial = DefinitionRegistry::new();
    let mut a = Json::new("A".into(), 0, String::new(), source.clone(), Span::new(0, 0));
    a.add_field(JsonField {
        index: 0,
        name: "b".into(),
        key: "b".into(),
        type_: DataType::Unknown { encoding: JsonEncoding::Json, name: "B".into() },
        optional: false,
        doc: String::new(),
        span: Span::new(0, 0),
    });
    let mut b = Json::new("B".into(), 1, String::new(), source, Span::new(0, 0));
    b.add_field(JsonField {
        index: 0,
        name: "a".into(),
        key: "a".into(),
        type_: DataType::Unknown { encoding: JsonEncoding::Json, name: "A".into() },
        optional: false,
        doc: String::new(),
        span: Span::new(0, 0),
    });
    partial.insert(Definition::Json(a));
    partial.insert(Definition::Json(b));
    let registry = partial.finalize().unwrap();

    assert!(matches!(CxxGenerator::new().generate(&registry, "x"), Err(GenerationError::CycleFound(_))));
}

#[test]
fn fixed_string_arrays_are_not_generatable() {
    let source = Arc::new(SourceInfo::new("test.kdl", ""));
    let mut partial = DefinitionRegistry::new();
    let mut a = Json::new("A".into(), 0, String::new(), source, Span::new(0, 0));
    a.add_field(JsonField {
        index: 0,
        name: "b".into(),
        key: "b".into(),
        type_: DataType::StringArray {
            inner_type: Arc::new(DataType::String),
            separator: ArraySeparator::Comma,
            size: ArraySize::Fixed(2),
        },
        optional: false,
        doc: String::new(),
        span: Span::new(0, 0),
    });
    partial.insert(Definition::Json(a));
    let registry = partial.finalize().unwrap();
    assert!(!is_generatable(&registry));
}

#[test]
fn addon_texts_come_in_order() {
    let registry = DefinitionRegistry::new().finalize().unwrap();
    let mut generator = CxxGenerator::new();
    generator.add_addon(TaggedAddon { tag: "a" });
    generator.add_addon(MockAddon {});
    generator.add_addon(TaggedAddon { tag: "b" });
    let out = generator.generate(&registry, "out").unwrap();
    assert_eq!(out.len(), 1);
    let text = &out[0].content;
    let at = |needle: &str| text.find(needle).unwrap();
    assert!(at("// pre a") < at("// pre b"));
    assert!(at("// pre b") < at("// con a"));
    assert!(at("// con a") < at("// con b"));
    assert!(at("// con b") < at("// post a"));
    assert!(at("// post a") < at("// post b"));
}

use packet_generator::generators::{is_generatable, CxxGenerator, Generator};
use packet_generator::intermediate::schema::{DataType, Definition, JsonEncoding};
use packet_generator::kdl_parser::errors::{ParsingError, Severity};
use packet_generator::kdl_parser::parser::{problems, raw_parse_kdl, ParserOpts, UnparsedKdl};
use packet_generator::kdl_parser::schema::EnumDefinition;
use packet_generator::parse_kdl;
use packet_generator::vfs::{InMemoryFS, VfsPath};

const DOCUMENT: &str = r#"
json "Header" {
    doc "A header."
    field "packetId" type="i32::str" {
        key "a1"
        doc "The id."
    }
    field "kind" type="Kind" {
        key "k"
        doc "The kind."
    }
}

int-enum "Kind" start=1 {
    doc "Kinds."
    variant "One" {
        doc "first"
    }
    variant "Two" value=5 {
        doc "second"
    }
}

str-enum "Mode" {
    doc "Modes."
    variant "Fast" {
        doc "fast"
    }
}
"#;

fn opts() -> ParserOpts<InMemoryFS> {
    ParserOpts::new(InMemoryFS::new())
}

#[test]
fn parses_definitions_into_a_registry() {
    let (registry, warnings) = parse_kdl(DOCUMENT, "main.kdl", &opts()).unwrap();
    assert!(!warnings.are_there_any());

    let (header, _) = registry.find("Header").expect("Header is defined");
    match header {
        Definition::Json(j) => {
            assert_eq!(j.doc, "A header.");
            assert_eq!(j.fields.len(), 2);
            let kind = j.fields.iter().find(|f| f.name == "kind").unwrap();
            assert_eq!(kind.key, "k");
            let (_, kind_idx) = registry.find("Kind").unwrap();
            match kind.type_ {
                DataType::Definition { definition, encoding: JsonEncoding::Json } => assert_eq!(definition, kind_idx),
                _ => panic!("the field refers to the Kind enum"),
            }
        },
        _ => panic!("Header is a JSON definition"),
    }

    match registry.find("Kind").unwrap().0 {
        Definition::IntEnum(e) => {
            assert_eq!(e.start, 1);
            assert_eq!(e.variants.len(), 2);
            assert_eq!(e.variants.iter().find(|v| v.name == "Two").unwrap().value, Some(5));
        },
        _ => panic!("Kind is an integer enum"),
    }

    match registry.find("Mode").unwrap().0 {
        Definition::StringEnum(e) => {
            assert_eq!(e.variants.len(), 1);
            assert_eq!(e.variants[0].value, "Fast");
        },
        _ => panic!("Mode is a string enum"),
    }

    assert!(is_generatable(&registry));
    let sources = CxxGenerator::new().generate(&registry, "main").unwrap();
    assert!(sources[0].content.contains("struct Header {"));
}

#[test]
fn invalid_kdl_is_reported() {
    let err = parse_kdl("json \"Foo\" {", "main.kdl", &opts()).unwrap_err();
    assert!(matches!(err, ParsingError::KdlError { .. }));
}

#[test]
fn an_empty_file_gives_a_warning() {
    let (registry, warnings) = parse_kdl("", "main.kdl", &opts()).unwrap();
    assert!(warnings.are_there_any());
    assert_eq!(warnings.iter()[0].message, "the file is empty");
    assert_eq!(warnings.iter()[0].severity, Severity::Warning);
    assert!(registry.all_definitions().is_empty());
}

#[test]
fn a_missing_definition_is_an_error() {
    let doc = r#"
json "Header" {
    doc "A header."
    field "kind" type="Nowhere" {
        key "k"
        doc "The kind."
    }
}
"#;
    let err = parse_kdl(doc, "main.kdl", &opts()).unwrap_err();
    match err {
        ParsingError::Diagnostics { diagnostics, .. } => {
            assert_eq!(diagnostics[0].message, "could not find definition `Nowhere`");
        },
        other => panic!("unexpected error {other:?}"),
    }
}

#[test]
fn a_bad_type_is_an_error() {
    let doc = r#"
json "Header" {
    doc "A header."
    field "id" type="i32" {
        key "k"
        doc "The id."
    }
}
"#;
    let err = parse_kdl(doc, "main.kdl", &opts()).unwrap_err();
    match err {
        ParsingError::Diagnostics { diagnostics, .. } => {
            assert_eq!(diagnostics[0].message, "integer-like type `i32` requires an encoding");
        },
        other => panic!("unexpected error {other:?}"),
    }
}

#[test]
fn imports_are_read_from_the_file_system() {
    let mut fs = InMemoryFS::new();
    fs.add_file(
        &VfsPath::new("defs/other.kdl"),
        "str-enum \"Mode\" {\n    doc \"Modes.\"\n    variant \"Fast\" {\n        doc \"fast\"\n    }\n}\n",
    )
    .unwrap();
    let main = "import \"other.kdl\"\nint-enum \"Kind\" start=0 {\n    doc \"Kinds.\"\n}\n";
    let (registry, _) = parse_kdl(main, "defs/main.kdl", &ParserOpts::new(fs)).unwrap();

    assert!(registry.find("Mode").is_some());
    assert!(registry.find("Kind").is_some());
}

#[test]
fn a_missing_import_is_an_error() {
    let main = "import \"other.kdl\"\n";
    let err = parse_kdl(main, "defs/main.kdl", &opts()).unwrap_err();
    assert!(matches!(err, ParsingError::GenericIoError { .. }));
}

#[test]
fn no_document_is_an_error() {
    let docs: Vec<UnparsedKdl> = Vec::new();
    assert!(matches!(raw_parse_kdl(&docs, &opts()), Err(ParsingError::NoDocumentProvided)));
}

#[test]
fn every_parsed_definition_is_found_by_name() {
    let (registry, _) = parse_kdl(DOCUMENT, "main.kdl", &opts()).unwrap();
    for name in ["Header", "Kind", "Mode"] {
        assert!(registry.find(name).is_some(), "{name} is defined in the document");
    }
    assert!(registry.find("Missing").is_none());
}

#[test]
fn problems_list_what_a_reading_reports() {
    let docs = vec![UnparsedKdl::new("", "main.kdl")];
    let res = raw_parse_kdl(&docs, &opts());
    let found = problems(&res);
    assert_eq!(found.len(), 1);
    assert_eq!(found[0].message, "the file is empty");
    assert_eq!(found[0].severity, Severity::Warning);

    let docs = vec![UnparsedKdl::new("weird \"x\"\n", "main.kdl")];
    let res = raw_parse_kdl(&docs, &opts());
    let found = problems(&res);
    assert_eq!(found.len(), 1);
    assert_eq!(found[0].message, "unrecognized node `weird`");
    assert_eq!(found[0].start, 0);
    assert!(found[0].end > found[0].start);

    let docs: Vec<UnparsedKdl> = Vec::new();
    assert!(problems(&raw_parse_kdl(&docs, &opts())).is_empty());
}

#[test]
fn json_definitions_are_found_by_offset() {
    let docs = vec![UnparsedKdl::new(DOCUMENT, "main.kdl")];
    let (doc, _) = raw_parse_kdl(&docs, &opts()).unwrap();
    let start = DOCUMENT.find("json").unwrap();
    assert!(doc.has_json_definition_at("main.kdl", start));
    assert!(!doc.has_json_definition_at("other.kdl", start));
    assert!(!doc.has_json_definition_at("main.kdl", DOCUMENT.len()));
}

#[test]
fn a_missing_definition_inside_an_array_is_an_error() {
    let doc = r#"
json "Header" {
    doc "A header."
    field "parts" type="[Nowhere]" {
        key "p"
        doc "The parts."
    }
}
"#;
    let err = parse_kdl(doc, "main.kdl", &opts()).unwrap_err();
    match err {
        ParsingError::Diagnostics { diagnostics, .. } => {
            assert_eq!(diagnostics.len(), 1);
            assert_eq!(diagnostics[0].message, "could not find definition `Nowhere`");
        },
        _ => panic!("expected a diagnostic"),
    }
}

#[test]
fn a_plain_document_is_read() {
    let doc = "json Foo { doc \"Is a foo!\"; field bar type=\"str\" { key \"bar\"; doc \"A bar inside a Foo\" } }";
    let (registry, _) = parse_kdl(doc, "foo.kdl", &opts()).unwrap();
    let (foo, _) = registry.find("Foo").unwrap();
    match foo {
        Definition::Json(j) => {
            assert_eq!(j.name, "Foo");
            assert_eq!(j.doc, "Is a foo!");
            assert_eq!(j.fields.len(), 1);
            assert_eq!(j.fields[0].name, "bar");
            assert_eq!(j.fields[0].key, "bar");
            assert!(matches!(j.fields[0].type_, DataType::String));
            assert!(!j.fields[0].optional);
            assert_eq!(j.fields[0].doc, "A bar inside a Foo");
        },
        _ => panic!("Foo is a JSON definition"),
    }
}

#[test]
fn an_unknown_node_only_warns() {
    let docs = vec![UnparsedKdl::new("foo", "a.kdl")];
    let (doc, warnings) = raw_parse_kdl(&docs, &opts()).unwrap();
    assert!(doc.json_definitions.is_empty());
    assert!(doc.enum_definitions.is_empty());
    assert_eq!(warnings.diagnostics.len(), 1);
    assert_eq!(warnings.diagnostics[0].message, "unrecognized node `foo`");
    assert_eq!(warnings.diagnostics[0].severity, Severity::Warning);
}

#[test]
fn imported_definitions_come_first() {
    let mut fs = InMemoryFS::new();
    fs.add_file(&VfsPath::new("dir/other.kdl"), "str-enum \"Mode\" {\n    doc \"Modes.\"\n    variant \"Fast\" {\n        doc \"fast\"\n    }\n}\n").unwrap();
    let main = "import \"other.kdl\"\nstr-enum \"Kind\" {\n    doc \"Kinds.\"\n    variant \"One\" {\n        doc \"one\"\n    }\n}\n";
    let docs = vec![UnparsedKdl::new(main, "dir/main.kdl")];
    let (doc, _) = raw_parse_kdl(&docs, &ParserOpts::new(fs)).unwrap();
    assert_eq!(doc.enum_definitions.len(), 2);
    assert_eq!(enum_name(&doc.enum_definitions[0]), "Mode");
    assert_eq!(enum_name(&doc.enum_definitions[1]), "Kind");
}

fn enum_name(e: &EnumDefinition) -> &str {
    match e {
        EnumDefinition::StringEnum(d) => d.name.as_str(),
        EnumDefinition::IntEnum(d) => d.name.as_str(),
    }
}

#[test]
fn later_documents_are_appended_in_turn() {
    let a = "str-enum \"A\" {\n    doc \"a\"\n    variant \"X\" {\n        doc \"x\"\n    }\n}\n";
    let b = "str-enum \"B\" {\n    doc \"b\"\n    variant \"Y\" {\n        doc \"y\"\n    }\n}\n";
    let docs = vec![UnparsedKdl::new(a, "a.kdl"), UnparsedKdl::new(b, "b.kdl"), UnparsedKdl::new(b, "./b.kdl")];
    let (doc, _) = raw_parse_kdl(&docs, &opts()).unwrap();
    assert_eq!(doc.enum_definitions.len(), 2);
    assert_eq!(enum_name(&doc.enum_definitions[0]), "A");
    assert_eq!(enum_name(&doc.enum_definitions[1]), "B");
}

#[test]
fn a_file_imported_twice_is_read_once() {
    let enum_c = "str-enum \"C\" {\n    doc \"c\"\n    variant \"Z\" {\n        doc \"z\"\n    }\n}\n";
    let mut fs = InMemoryFS::new();
    fs.add_file(&VfsPath::new("d/c.kdl"), enum_c).unwrap();
    fs.add_file(
        &VfsPath::new("d/b.kdl"),
        "import \"c.kdl\"\nstr-enum \"B\" {\n    doc \"b\"\n    variant \"Y\" {\n        doc \"y\"\n    }\n}\n",
    )
    .unwrap();
    let a = "import \"b.kdl\"\nimport \"c.kdl\"\n";
    let docs = vec![UnparsedKdl::new(a, "d/a.kdl")];
    let (doc, _) = raw_parse_kdl(&docs, &ParserOpts::new(fs)).unwrap();
    assert_eq!(doc.enum_definitions.len(), 2);
    assert_eq!(enum_name(&doc.enum_definitions[0]), "C");
    assert_eq!(enum_name(&doc.enum_definitions[1]), "B");
}

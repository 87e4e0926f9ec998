use std::sync::Arc;

use packet_generator::intermediate::registry::DefinitionRegistry;
use packet_generator::intermediate::schema::{
    ArraySize, DataType, Definition, IntEnum, Json, JsonEncoding, JsonField, StringEnum,
};
use packet_generator::kdl_parser::errors::{Severity, SourceInfo, Span};

fn field(name: &str, key: &str, type_: DataType) -> JsonField {
    JsonField {
        index: 0,
        name: name.into(),
        key: String::from(key),
        type_,
        optional: false,
        doc: String::from("some documentation"),
        span: Span::new(0, 0),
    }
}

fn build_circular() -> packet_generator::intermediate::registry::PartialDefinitionRegistry {
    let mut definitions = DefinitionRegistry::new();

    let source = Arc::new(SourceInfo {
        name: String::from("test.kdl"),
        source_code: String::from("json {{}}"),
    });

    {
        let mut s = Json::new(
            String::from("Foo"),
            0,
            String::from("some documentation"),
            source.clone(),
            Span::new(0, 0),
        );
        s.add_field(field("bar", "bar", DataType::String));

        definitions.insert(Definition::Json(s));
    };

    {
        let foo_struct = definitions.find_weak("Foo").expect("Foo was inserted above.");

        let mut s = Json::new(
            String::from("Bar"),
            1,
            String::from("some documentation"),
            source,
            Span::new(0, 0),
        );
        s.add_field(field(
            "has_foo",
            "bar",
            DataType::Definition { definition: foo_struct, encoding: JsonEncoding::Json },
        ));

        definitions.insert(Definition::Json(s));
    };

    definitions
}

#[test]
fn mod_registry_can_handle_circular_definitions() {
    let definitions = build_circular();
    let definitions = definitions.finalize().expect("should resolve cycles?");

    definitions.find("Bar").expect("Bar was inserted above.");
}

#[test]
fn registry_registry_can_handle_circular_definitions() {
    let definitions = build_circular();
    let definitions = definitions.finalize().expect("should resolve cycles?");

    definitions.find("Bar").expect("Bar was inserted above.");
}

#[test]
fn registry_finds_definitions_by_name_and_index() {
    let mut partial = DefinitionRegistry::new();
    let a = partial.insert(Definition::IntEnum(IntEnum::new("A".into(), 0, String::new(), 0)));
    let b = partial.insert(Definition::StringEnum(StringEnum::new("B".into(), 1, String::new())));
    assert_eq!((a, b), (0, 1));
    assert_eq!(partial.find_weak("B"), Some(1));
    assert_eq!(partial.find_weak("C"), None);

    let registry = partial.finalize().unwrap();
    let (d, idx) = registry.find("A").unwrap();
    assert_eq!(idx, 0);
    assert_eq!(d.name(), "A");
    assert_eq!(registry.get(1).name(), "B");
    assert_eq!(registry.all_definitions(), vec![0, 1]);
}

#[test]
fn registry_later_insertion_of_a_name_wins() {
    let mut partial = DefinitionRegistry::new();
    partial.insert(Definition::IntEnum(IntEnum::new("A".into(), 0, String::new(), 0)));
    partial.insert(Definition::IntEnum(IntEnum::new("A".into(), 1, String::new(), 5)));
    assert_eq!(partial.find_weak("A"), Some(1));
}

#[test]
fn registry_resolves_names_and_orders_dependencies() {
    let source = Arc::new(SourceInfo::new("test.kdl", ""));
    let mut partial = DefinitionRegistry::new();

    let mut user = Json::new("User".into(), 0, String::new(), source.clone(), Span::new(0, 0));
    user.add_field(field(
        "address",
        "addr",
        DataType::Unknown { encoding: JsonEncoding::Json, name: "Address".into() },
    ));
    partial.insert(Definition::Json(user));
    partial.insert(Definition::Json(Json::new("Address".into(), 1, String::new(), source, Span::new(0, 0))));

    let registry = partial.finalize().unwrap();
    match registry.get(0) {
        Definition::Json(j) => {
            assert!(matches!(j.fields[0].type_, DataType::Definition { definition: 1, encoding: JsonEncoding::Json }));
        },
        _ => panic!("User is a JSON definition"),
    }

    let order = registry.sorted_definitions().unwrap();
    let pos_user = order.iter().position(|&d| d == 0).unwrap();
    let pos_address = order.iter().position(|&d| d == 1).unwrap();
    assert!(pos_address < pos_user);
}

#[test]
fn registry_reports_a_missing_definition() {
    let source = Arc::new(SourceInfo::new("test.kdl", ""));
    let mut partial = DefinitionRegistry::new();

    let mut user = Json::new("User".into(), 0, String::new(), source, Span::new(0, 0));
    user.add_field(field(
        "address",
        "addr",
        DataType::Unknown { encoding: JsonEncoding::Json, name: "Address".into() },
    ));
    partial.insert(Definition::Json(user));

    let d = partial.finalize().err().expect("Address is not defined");
    assert_eq!(d.message, "could not find definition `Address`");
    assert_eq!(d.severity, Severity::Error);
    assert_eq!(d.related.len(), 1);
    assert_eq!(d.related[0].message, "the definition Address is used inside field `User::address`");
    assert_eq!(d.related[0].severity, Severity::Advice);
}

#[test]
fn registry_detects_cycles() {
    let source = Arc::new(SourceInfo::new("test.kdl", ""));
    let mut partial = DefinitionRegistry::new();

    let mut a = Json::new("A".into(), 0, String::new(), source.clone(), Span::new(0, 0));
    a.add_field(field("b", "b", DataType::Unknown { encoding: JsonEncoding::Json, name: "B".into() }));
    let mut b = Json::new("B".into(), 1, String::new(), source, Span::new(0, 0));
    b.add_field(field("a", "a", DataType::Unknown { encoding: JsonEncoding::Json, name: "A".into() }));
    partial.insert(Definition::Json(a));
    partial.insert(Definition::Json(b));

    let registry = partial.finalize().unwrap();
    let cycle = registry.sorted_definitions().unwrap_err();
    assert!(cycle < 2);
}

#[test]
fn adding_the_same_field_twice_keeps_one() {
    let source = Arc::new(SourceInfo::new("test.kdl", ""));
    let mut j = Json::new("J".into(), 0, String::new(), source, Span::new(0, 0));
    assert!(j.add_field(field("x", "x", DataType::String)));
    assert!(!j.add_field(field("x", "x", DataType::String)));
    assert_eq!(j.fields.len(), 1);
}

#[test]
fn registry_reports_a_missing_definition_inside_an_array() {
    let source = Arc::new(SourceInfo::new("test.kdl", ""));
    let mut partial = DefinitionRegistry::new();

    let mut user = Json::new("User".into(), 0, String::new(), source, Span::new(0, 0));
    user.add_field(field(
        "addresses",
        "addrs",
        DataType::Array {
            inner_type: Arc::new(DataType::Unknown { encoding: JsonEncoding::Json, name: "Address".into() }),
            size: ArraySize::Dynamic,
        },
    ));
    partial.insert(Definition::Json(user));

    let d = partial.finalize().err().expect("Address is not defined");
    assert_eq!(d.message, "could not find definition `Address`");
    assert_eq!(d.related[0].message, "the definition Address is used inside field `User::addresses`");
}

#[test]
fn registry_resolves_names_inside_maps() {
    let source = Arc::new(SourceInfo::new("test.kdl", ""));
    let mut partial = DefinitionRegistry::new();

    let mut user = Json::new("User".into(), 0, String::new(), source.clone(), Span::new(0, 0));
    user.add_field(field(
        "by_name",
        "n",
        DataType::Dictionary {
            key: Arc::new(DataType::String),
            value: Arc::new(DataType::Unknown { encoding: JsonEncoding::Json, name: "Address".into() }),
        },
    ));
    partial.insert(Definition::Json(user));
    partial.insert(Definition::Json(Json::new("Address".into(), 1, String::new(), source, Span::new(0, 0))));

    let registry = partial.finalize().unwrap();
    let (user, _) = registry.find("User").unwrap();
    assert_eq!(user.name(), "User");
    match user {
        Definition::Json(j) => match &j.fields[0].type_ {
            DataType::Dictionary { value, .. } => {
                assert!(matches!(**value, DataType::Definition { definition: 1, encoding: JsonEncoding::Json }));
            },
            _ => panic!("the field is a map"),
        },
        _ => panic!("User is a JSON definition"),
    }
    let order = registry.sorted_definitions().unwrap();
    let pos_user = order.iter().position(|&d| d == 0).unwrap();
    let pos_address = order.iter().position(|&d| d == 1).unwrap();
    assert!(pos_address < pos_user);
}

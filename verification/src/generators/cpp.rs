//! The C++ generator.

use stringcase::Caser;
use vstd::prelude::*;
use super::utils::{documentation, join_strings, join_with, texts};
use super::{content_text, expressible, generatable, json_generatable, opt_text, Addon, GeneratedSource, GenerationError, Generator, WithAddons};
use crate::intermediate::graph::{is_acyclic, is_topological_order};
use crate::intermediate::registry::{lookup, type_deps, DefinitionRegistry};
use crate::intermediate::schema::{
    ArraySize, BoolEncoding, DataType, Encoding, Definition, IntEnum, IntEnumVariant, Json, JsonEncoding, JsonField, StringEnum, StringEnumVariant,
};
use crate::kdl_parser::to_intermediate::deps_below;
use crate::text::{decimal, decimal_string, signed_decimal, signed_decimal_string};

verus! {

/// What `stringcase::Caser::to_pascal_case` makes of a text.
pub uninterp spec fn pascal_case(s: Seq<char>) -> Seq<char>;

/// What `stringcase::Caser::to_snake_case` makes of a text.
pub uninterp spec fn snake_case(s: Seq<char>) -> Seq<char>;

/// Converts to PascalCase with `stringcase`; the result is named
/// [`pascal_case`].
#[verifier::external_body]
fn to_pascal(s: &str) -> (r: String)
    ensures
        r@ == pascal_case(s@),
{
    s.to_pascal_case()
}

/// Converts to snake_case with `stringcase`; the result is named
/// [`snake_case`].
#[verifier::external_body]
fn to_snake(s: &str) -> (r: String)
    ensures
        r@ == snake_case(s@),
{
    s.to_snake_case()
}

/// The indentation unit of the generated code.
pub open spec fn tab() -> Seq<char> {
    "    "@
}

/// A doc field as a `///` comment.
pub open spec fn cxx_doc(doc: Seq<char>, indent_level: nat) -> Seq<char> {
    documentation(doc, tab(), "///"@, indent_level)
}

/// Formats `doc` as `///` comment lines indented by `indent_level` tabs.
pub fn split_documentation(doc: &str, indent_level: usize) -> (r: String)
    ensures
        r@ == cxx_doc(doc@, indent_level as nat),
{
    super::utils::split_documentation(doc, "    ", "///", indent_level)
}

/// The name of a C++ struct.
pub fn struct_format(string: &str) -> (r: String)
    ensures
        r@ == pascal_case(string@),
{
    to_pascal(string)
}

/// The name of a C++ enum.
pub fn enum_format(string: &str) -> (r: String)
    ensures
        r@ == pascal_case(string@),
{
    to_pascal(string)
}

/// The name of a C++ enum variant.
pub fn enum_variant_format(string: &str) -> (r: String)
    ensures
        r@ == pascal_case(string@),
{
    to_pascal(string)
}

/// The name of a C++ struct field.
pub fn struct_field_format(string: &str) -> (r: String)
    ensures
        r@ == snake_case(string@),
{
    to_snake(string)
}

/// How a definition is named where a type refers to it.
pub open spec fn definition_type_name(d: Definition) -> Seq<char> {
    match d {
        Definition::StringEnum(e) => pascal_case(e.name@) + "::Type"@,
        Definition::Json(j) => pascal_case(j.name@),
        Definition::IntEnum(e) => pascal_case(e.name@),
    }
}

/// The C++ type of a datatype; `Err(Some(name))` for a name bound to no
/// definition, `Err(None)` for a type that has no C++ form yet (a string
/// array of fixed size, a definition encoded as a string).
pub open spec fn cxx_type(t: DataType, defs: Seq<Definition>, names: Seq<(Seq<char>, usize)>) -> Result<Seq<char>, Option<Seq<char>>>
    decreases t,
{
    match t {
        DataType::I32 { .. } => Ok("int32_t"@),
        DataType::U32 { .. } => Ok("uint32_t"@),
        DataType::I64 { .. } => Ok("int64_t"@),
        DataType::U64 { .. } => Ok("uint64_t"@),
        DataType::F32 { .. } => Ok("pkg::float32"@),
        DataType::F64 => Ok("pkg::float64"@),
        DataType::Bool { .. } => Ok("bool"@),
        DataType::String => Ok("std::string"@),
        DataType::Datetime => Ok("pkg::chrono_time"@),
        DataType::DatetimeUnix => Ok("pkg::chrono_time"@),
        DataType::Dictionary { key, value } => match cxx_type(*key, defs, names) {
            Err(e) => Err(e),
            Ok(k) => match cxx_type(*value, defs, names) {
                Err(e) => Err(e),
                Ok(v) => Ok("std::unordered_map<"@ + k + ", "@ + v + ">"@),
            },
        },
        DataType::Array { inner_type, size } => match cxx_type(*inner_type, defs, names) {
            Err(e) => Err(e),
            Ok(i) => match size {
                ArraySize::Dynamic => Ok("std::vector<"@ + i + ">"@),
                ArraySize::Fixed(n) => if n == 1 {
                    Ok(i)
                } else {
                    Ok("std::array<"@ + i + ", "@ + decimal(n as nat) + ">"@)
                },
            },
        },
        DataType::StringArray { inner_type, size, .. } => match size {
            ArraySize::Dynamic => match cxx_type(*inner_type, defs, names) {
                Err(e) => Err(e),
                Ok(i) => Ok("pkg::string_list<"@ + i + ">"@),
            },
            ArraySize::Fixed(_) => Err(None),
        },
        DataType::Definition { definition, encoding } => match encoding {
            JsonEncoding::Json => Ok(definition_type_name(defs[definition as int])),
            JsonEncoding::String => Err(None),
        },
        DataType::Unknown { name, .. } => match lookup(names, name@) {
            Some(i) => Ok(definition_type_name(defs[i as int])),
            None => Err(Some(name@)),
        },
    }
}

/// Integer-like and other plain datatypes have a fixed C++ type that keeps
/// their width and signedness, whatever their JSON encoding: `i32` is
/// `int32_t`, `u32` is `uint32_t`, `i64` is `int64_t`, `u64` is
/// `uint64_t`, a string is `std::string` and a boolean is `bool`.
pub proof fn law_plain_cxx_types(e: Encoding, b: BoolEncoding, defs: Seq<Definition>, names: Seq<(Seq<char>, usize)>)
    ensures
        cxx_type(DataType::I32 { encoding: e }, defs, names) == Ok::<Seq<char>, Option<Seq<char>>>("int32_t"@),
        cxx_type(DataType::U32 { encoding: e }, defs, names) == Ok::<Seq<char>, Option<Seq<char>>>("uint32_t"@),
        cxx_type(DataType::I64 { encoding: e }, defs, names) == Ok::<Seq<char>, Option<Seq<char>>>("int64_t"@),
        cxx_type(DataType::U64 { encoding: e }, defs, names) == Ok::<Seq<char>, Option<Seq<char>>>("uint64_t"@),
        cxx_type(DataType::String, defs, names) == Ok::<Seq<char>, Option<Seq<char>>>("std::string"@),
        cxx_type(DataType::Bool { encoding: b }, defs, names) == Ok::<Seq<char>, Option<Seq<char>>>("bool"@),
        cxx_type(DataType::F32 { encoding: e }, defs, names) == Ok::<Seq<char>, Option<Seq<char>>>("pkg::float32"@),
        cxx_type(DataType::F64, defs, names) == Ok::<Seq<char>, Option<Seq<char>>>("pkg::float64"@),
        cxx_type(DataType::Datetime, defs, names) == Ok::<Seq<char>, Option<Seq<char>>>("pkg::chrono_time"@),
        cxx_type(DataType::DatetimeUnix, defs, names) == Ok::<Seq<char>, Option<Seq<char>>>("pkg::chrono_time"@),
{
}

/// An array of a dynamic size is a `std::vector` of its element's C++
/// type; one of a fixed size `n` other than one is a `std::array` of its
/// element and `n`; one of size one is its element itself. A string array
/// of a dynamic size is a `pkg::string_list` of its element.
pub proof fn law_array_cxx_types(d: DataType, defs: Seq<Definition>, names: Seq<(Seq<char>, usize)>)
    ensures
        d matches DataType::Array { inner_type, size: ArraySize::Dynamic } ==> (cxx_type(*inner_type, defs, names) is Ok ==> cxx_type(
            d,
            defs,
            names,
        ) == Ok::<Seq<char>, Option<Seq<char>>>("std::vector<"@ + cxx_type(*inner_type, defs, names)->Ok_0 + ">"@)),
        d matches DataType::Array { inner_type, size: ArraySize::Fixed(n) } ==> (n != 1 && cxx_type(*inner_type, defs, names) is Ok
            ==> cxx_type(d, defs, names) == Ok::<Seq<char>, Option<Seq<char>>>(
            "std::array<"@ + cxx_type(*inner_type, defs, names)->Ok_0 + ", "@ + decimal(n as nat) + ">"@,
        )),
        d matches DataType::Array { inner_type, size: ArraySize::Fixed(n) } ==> (n == 1 ==> cxx_type(d, defs, names) == cxx_type(
            *inner_type,
            defs,
            names,
        )),
        d matches DataType::StringArray { inner_type, size: ArraySize::Dynamic, .. } ==> (cxx_type(*inner_type, defs, names) is Ok
            ==> cxx_type(d, defs, names) == Ok::<Seq<char>, Option<Seq<char>>>("pkg::string_list<"@ + cxx_type(*inner_type, defs, names)->Ok_0 + ">"@)),
{
}

/// A dictionary is a `std::unordered_map` from the C++ type of its key to
/// the C++ type of its value, the key first: the map's text is
/// `std::unordered_map<`, then the key's type, `, `, the value's type and
/// `>`; so `%{str => i32::int}` is `std::unordered_map<std::string, int32_t>`.
pub proof fn law_dictionary_key_first(d: DataType, defs: Seq<Definition>, names: Seq<(Seq<char>, usize)>)
    requires
        d matches DataType::Dictionary { key, value } && cxx_type(*key, defs, names) is Ok && cxx_type(*value, defs, names) is Ok,
    ensures
        d matches DataType::Dictionary { key, value } && cxx_type(d, defs, names) == Ok::<Seq<char>, Option<Seq<char>>>(
            "std::unordered_map<"@ + cxx_type(*key, defs, names)->Ok_0 + ", "@ + cxx_type(*value, defs, names)->Ok_0 + ">"@,
        ),
        d matches DataType::Dictionary { key, value } && (*key == DataType::String && *value == (DataType::I32 { encoding: Encoding::Int })
            ==> cxx_type(d, defs, names) == Ok::<Seq<char>, Option<Seq<char>>>("std::unordered_map<std::string, int32_t>"@)),
{
    reveal_strlit("std::unordered_map<");
    reveal_strlit(", ");
    reveal_strlit(">");
    reveal_strlit("std::string");
    reveal_strlit("int32_t");
    reveal_strlit("std::unordered_map<std::string, int32_t>");
    assert("std::unordered_map<"@ + "std::string"@ + ", "@ + "int32_t"@ + ">"@ =~= "std::unordered_map<std::string, int32_t>"@);
}

fn definition_name(d: &Definition) -> (r: String)
    ensures
        r@ == definition_type_name(*d),
{
    match d {
        Definition::StringEnum(e) => {
            let mut r = enum_format(e.name.as_str());
            r.append("::Type");
            r
        },
        Definition::Json(j) => struct_format(j.name.as_str()),
        Definition::IntEnum(e) => enum_format(e.name.as_str()),
    }
}

/// A copy of a datatype.
pub fn clone_datatype(t: &DataType) -> (r: DataType)
    ensures
        r == *t,
    decreases t,
{
    match t {
        DataType::I32 { encoding } => DataType::I32 { encoding: *encoding },
        DataType::U32 { encoding } => DataType::U32 { encoding: *encoding },
        DataType::I64 { encoding } => DataType::I64 { encoding: *encoding },
        DataType::U64 { encoding } => DataType::U64 { encoding: *encoding },
        DataType::F32 { encoding } => DataType::F32 { encoding: *encoding },
        DataType::F64 => DataType::F64,
        DataType::Bool { encoding } => DataType::Bool { encoding: *encoding },
        DataType::String => DataType::String,
        DataType::Datetime => DataType::Datetime,
        DataType::DatetimeUnix => DataType::DatetimeUnix,
        DataType::Dictionary { key, value } => DataType::Dictionary {
            key: std::sync::Arc::new(clone_datatype(key)),
            value: std::sync::Arc::new(clone_datatype(value)),
        },
        DataType::StringArray { inner_type, separator, size } => DataType::StringArray {
            inner_type: std::sync::Arc::new(clone_datatype(inner_type)),
            separator: *separator,
            size: *size,
        },
        DataType::Array { inner_type, size } => DataType::Array {
            inner_type: std::sync::Arc::new(clone_datatype(inner_type)),
            size: *size,
        },
        DataType::Definition { encoding, definition } => DataType::Definition { encoding: *encoding, definition: *definition },
        DataType::Unknown { encoding, name } => DataType::Unknown { encoding: *encoding, name: name.clone() },
    }
}

/// `e` is the error for the outcome `Err(Some(name))` of `t`.
pub open spec fn not_found_is(e: GenerationError, name: Seq<char>) -> bool {
    e matches GenerationError::TypeNotFound { name: n, .. } && n@ == name
}

/// Converts a datatype to its C++ type.
pub fn convert_datatype(datatype: &DataType, registry: &DefinitionRegistry) -> (r: Result<String, GenerationError>)
    requires
        deps_below(*datatype, registry.definitions().len()),
        cxx_type(*datatype, registry.definitions(), registry.names()) != Err::<Seq<char>, Option<Seq<char>>>(None),
    ensures
        match cxx_type(*datatype, registry.definitions(), registry.names()) {
            Ok(s) => r matches Ok(t) && t@ == s,
            Err(Some(n)) => r matches Err(e) && not_found_is(e, n),
            Err(None) => false,
        },
    decreases datatype,
{
    match datatype {
        DataType::I32 { .. } => Ok("int32_t".to_owned()),
        DataType::U32 { .. } => Ok("uint32_t".to_owned()),
        DataType::I64 { .. } => Ok("int64_t".to_owned()),
        DataType::U64 { .. } => Ok("uint64_t".to_owned()),
        DataType::F32 { .. } => Ok("pkg::float32".to_owned()),
        DataType::F64 => Ok("pkg::float64".to_owned()),
        DataType::Bool { .. } => Ok("bool".to_owned()),
        DataType::String => Ok("std::string".to_owned()),
        DataType::Datetime => Ok("pkg::chrono_time".to_owned()),
        DataType::DatetimeUnix => Ok("pkg::chrono_time".to_owned()),
        DataType::Dictionary { key, value } => {
            proof {
                lemma_deps_parts(*datatype, registry.definitions().len());
            }
            let k = match convert_datatype(key, registry) {
                Err(e) => {
                    return Err(e);
                },
                Ok(k) => k,
            };
            let v = match convert_datatype(value, registry) {
                Err(e) => {
                    return Err(e);
                },
                Ok(v) => v,
            };
            let mut r = "std::unordered_map<".to_owned();
            r.append(k.as_str());
            r.append(", ");
            r.append(v.as_str());
            r.append(">");
            Ok(r)
        },
        DataType::Array { inner_type, size } => {
            proof {
                lemma_deps_parts(*datatype, registry.definitions().len());
            }
            let inner = match convert_datatype(inner_type, registry) {
                Err(e) => {
                    return Err(e);
                },
                Ok(i) => i,
            };
            match size {
                ArraySize::Dynamic => {
                    let mut r = "std::vector<".to_owned();
                    r.append(inner.as_str());
                    r.append(">");
                    Ok(r)
                },
                ArraySize::Fixed(n) => if *n == 1 {
                    Ok(inner)
                } else {
                    let mut r = "std::array<".to_owned();
                    r.append(inner.as_str());
                    r.append(", ");
                    let num = decimal_string(*n as u128);
                    r.append(num.as_str());
                    r.append(">");
                    Ok(r)
                },
            }
        },
        DataType::StringArray { inner_type, size, .. } => {
            proof {
                lemma_deps_parts(*datatype, registry.definitions().len());
            }
            let inner = match convert_datatype(inner_type, registry) {
                Err(e) => {
                    return Err(e);
                },
                Ok(i) => i,
            };
            let mut r = "pkg::string_list<".to_owned();
            r.append(inner.as_str());
            r.append(">");
            Ok(r)
        },
        DataType::Definition { definition, .. } => {
            assert(type_deps(*datatype) =~= seq![*definition]);
            assert(type_deps(*datatype)[0] == *definition);
            Ok(definition_name(registry.get(*definition)))
        },
        DataType::Unknown { name, .. } => match registry.find(name.as_str()) {
            Some((d, _)) => Ok(definition_name(d)),
            None => Err(GenerationError::TypeNotFound { name: name.clone(), queried_from: clone_datatype(datatype) }),
        },
    }
}

/// The definitions the parts of a composite type refer to are among those
/// the type refers to.
proof fn lemma_deps_parts(t: DataType, n: nat)
    requires
        deps_below(t, n),
    ensures
        t matches DataType::Dictionary { key, value } ==> deps_below(*key, n) && deps_below(*value, n),
        t matches DataType::Array { inner_type, .. } ==> deps_below(*inner_type, n),
        t matches DataType::StringArray { inner_type, .. } ==> deps_below(*inner_type, n),
{
    match t {
        DataType::Dictionary { key, value } => {
            assert(type_deps(t) == type_deps(*key) + type_deps(*value));
            assert forall|q: int| 0 <= q < type_deps(*key).len() implies #[trigger] type_deps(*key)[q] < n by {
                assert((type_deps(*key) + type_deps(*value))[q] == type_deps(*key)[q]);
            }
            assert forall|q: int| 0 <= q < type_deps(*value).len() implies #[trigger] type_deps(*value)[q] < n by {
                assert((type_deps(*key) + type_deps(*value))[type_deps(*key).len() + q] == type_deps(*value)[q]);
            }
        },
        DataType::Array { inner_type, .. } => {
            assert(type_deps(t) == type_deps(*inner_type));
        },
        DataType::StringArray { inner_type, .. } => {
            assert(type_deps(t) == type_deps(*inner_type));
        },
        _ => {},
    }
}


/// A field of a C++ struct, given the C++ type of its datatype.
pub open spec fn field_cxx(f: JsonField, ty: Seq<char>) -> Seq<char> {
    "\n"@ + tab() + cxx_doc(f.doc@, 0) + "\n"@ + tab() + (if f.optional {
        "std::optional<"@ + ty + ">"@
    } else {
        ty
    }) + " "@ + snake_case(f.name@) + ";"@
}

/// The fields as C++, in order, or the first failure.
pub open spec fn fields_cxx(fields: Seq<JsonField>, defs: Seq<Definition>, names: Seq<(Seq<char>, usize)>) -> Result<Seq<Seq<char>>, Option<Seq<char>>>
    decreases fields.len(),
{
    if fields.len() == 0 {
        Ok(Seq::empty())
    } else {
        match fields_cxx(fields.drop_last(), defs, names) {
            Err(e) => Err(e),
            Ok(v) => match cxx_type(fields.last().type_, defs, names) {
                Err(e) => Err(e),
                Ok(t) => Ok(v.push(field_cxx(fields.last(), t))),
            },
        }
    }
}

/// A JSON definition as a C++ struct.
pub open spec fn json_cxx(j: Json, defs: Seq<Definition>, names: Seq<(Seq<char>, usize)>) -> Result<Seq<char>, Option<Seq<char>>> {
    match fields_cxx(j.fields@, defs, names) {
        Err(e) => Err(e),
        Ok(v) => Ok(
            "\n"@ + cxx_doc(j.doc@, 0) + "\nstruct "@ + pascal_case(j.name@) + " {\n"@ + join_with(v, "\n"@) + "\n};"@,
        ),
    }
}

/// Every field type refers to definitions of the registry.
pub open spec fn fields_in_registry(fields: Seq<JsonField>, n: nat) -> bool {
    forall|k: int| 0 <= k < fields.len() ==> deps_below(#[trigger] fields[k].type_, n)
}

pub open spec fn outcome_is(r: Result<String, GenerationError>, o: Result<Seq<char>, Option<Seq<char>>>) -> bool {
    match o {
        Ok(s) => r matches Ok(t) && t@ == s,
        Err(Some(n)) => r matches Err(e) && not_found_is(e, n),
        Err(None) => false,
    }
}

proof fn lemma_fields_cxx_prefix(fields: Seq<JsonField>, defs: Seq<Definition>, names: Seq<(Seq<char>, usize)>, k: int)
    requires
        0 <= k <= fields.len(),
        fields_cxx(fields.take(k), defs, names) is Err,
    ensures
        fields_cxx(fields, defs, names) == fields_cxx(fields.take(k), defs, names),
    decreases fields.len() - k,
{
    if k < fields.len() {
        assert(fields.take(k + 1).drop_last() =~= fields.take(k));
        lemma_fields_cxx_prefix(fields, defs, names, k + 1);
    } else {
        assert(fields.take(k) =~= fields);
    }
}

/// A JSON definition as a C++ struct, its fields in set order.
pub fn generate_json_cxx(registry: &DefinitionRegistry, json: &Json) -> (r: Result<String, GenerationError>)
    requires
        fields_in_registry(json.fields@, registry.definitions().len()),
        json_cxx(*json, registry.definitions(), registry.names()) != Err::<Seq<char>, Option<Seq<char>>>(None),
    ensures
        outcome_is(r, json_cxx(*json, registry.definitions(), registry.names())),
{
    let ghost defs = registry.definitions();
    let ghost names = registry.names();
    let mut pieces: Vec<String> = Vec::new();
    let mut i: usize = 0;
    assert(json.fields@.take(0) =~= Seq::<JsonField>::empty());
    assert(texts(pieces@) =~= Seq::<Seq<char>>::empty());
    while i < json.fields.len()
        invariant
            i <= json.fields@.len(),
            defs == registry.definitions(),
            names == registry.names(),
            fields_in_registry(json.fields@, defs.len()),
            json_cxx(*json, defs, names) != Err::<Seq<char>, Option<Seq<char>>>(None),
            fields_cxx(json.fields@.take(i as int), defs, names) == Ok::<Seq<Seq<char>>, Option<Seq<char>>>(texts(pieces@)),
            pieces@.len() == i,
        decreases json.fields@.len() - i,
    {
        let f = &json.fields[i];
        let ghost t = json.fields@.take(i + 1);
        assert(t.drop_last() =~= json.fields@.take(i as int));
        assert(t.last() == json.fields@[i as int]);
        assert(deps_below(json.fields@[i as int].type_, defs.len()));
        proof {
            if cxx_type(f.type_, defs, names) is Err {
                lemma_fields_cxx_prefix(json.fields@, defs, names, i + 1);
            }
        }
        let ty = match convert_datatype(&f.type_, registry) {
            Err(e) => {
                proof {
                    lemma_fields_cxx_prefix(json.fields@, defs, names, i + 1);
                }
                return Err(e);
            },
            Ok(ty) => ty,
        };
        let datatype = if f.optional {
            let mut d = "std::optional<".to_owned();
            d.append(ty.as_str());
            d.append(">");
            d
        } else {
            ty
        };
        let name = struct_field_format(f.name.as_str());
        let doc = split_documentation(f.doc.as_str(), 0);
        let mut piece = "\n".to_owned();
        piece.append("    ");
        piece.append(doc.as_str());
        piece.append("\n");
        piece.append("    ");
        piece.append(datatype.as_str());
        piece.append(" ");
        piece.append(name.as_str());
        piece.append(";");
        let ghost before = pieces@;
        pieces.push(piece);
        assert(texts(pieces@) =~= texts(before).push(pieces@[i as int]@));
        i = i + 1;
    }
    assert(json.fields@.take(i as int) =~= json.fields@);
    let fields = join_strings(&pieces, "\n");
    let struct_name = struct_format(json.name.as_str());
    let struct_doc = split_documentation(json.doc.as_str(), 0);
    let mut content = "\n".to_owned();
    content.append(struct_doc.as_str());
    content.append("\nstruct ");
    content.append(struct_name.as_str());
    content.append(" {\n");
    content.append(fields.as_str());
    content.append("\n};");
    Ok(content)
}

/// The first variant of an integer enum: its value is given, or the
/// enum's start.
pub open spec fn first_int_variant_cxx(v: IntEnumVariant, start: i128) -> Seq<char> {
    "\n"@ + cxx_doc(v.doc@, 1) + "\n"@ + tab() + pascal_case(v.name@) + " = "@ + signed_decimal(
        match v.value {
            Some(x) => x as int,
            None => start as int,
        },
    ) + ","@
}

/// A later variant of an integer enum: its value only when given.
pub open spec fn int_variant_cxx(v: IntEnumVariant) -> Seq<char> {
    "\n"@ + cxx_doc(v.doc@, 1) + "\n"@ + tab() + pascal_case(v.name@) + match v.value {
        Some(x) => " = "@ + signed_decimal(x as int),
        None => Seq::empty(),
    }
}

/// An integer enum as a C++ `enum class`, its variants in set order (which
/// ascends by index).
pub open spec fn int_enum_cxx(e: IntEnum) -> Seq<char> {
    let first = if e.variants@.len() == 0 {
        Seq::empty()
    } else {
        first_int_variant_cxx(e.variants@[0], e.start)
    };
    let rest = if e.variants@.len() == 0 {
        Seq::empty()
    } else {
        join_with(e.variants@.skip(1).map_values(|v: IntEnumVariant| int_variant_cxx(v)), ",\n"@)
    };
    cxx_doc(e.doc@, 0) + "\nenum class "@ + pascal_case(e.name@) + " {\n"@ + first + "\n"@ + rest + "\n};"@
}

/// The first variant of an integer enum is assigned its own value when it
/// has one, whatever the enum's start: its line then reads as a later
/// variant's does, with a comma, and ends with ` = `, that value and `,`.
/// Without a value, it is assigned the enum's start.
pub proof fn law_first_variant_value(v: IntEnumVariant, start: i128, other_start: i128)
    ensures
        v.value matches Some(x) ==> first_int_variant_cxx(v, start) == first_int_variant_cxx(v, other_start),
        v.value matches Some(x) ==> first_int_variant_cxx(v, start) == int_variant_cxx(v) + ","@,
        v.value matches Some(x) ==> first_int_variant_cxx(v, start).subrange(
            first_int_variant_cxx(v, start).len() - (signed_decimal(x as int).len() + 4),
            first_int_variant_cxx(v, start).len() as int,
        ) == " = "@ + signed_decimal(x as int) + ","@,
        v.value is None ==> first_int_variant_cxx(v, start) == int_variant_cxx(v) + " = "@ + signed_decimal(start as int) + ","@,
{
    reveal_strlit(" = ");
    reveal_strlit(",");
    if let Some(x) = v.value {
        let head = "\n"@ + cxx_doc(v.doc@, 1) + "\n"@ + tab() + pascal_case(v.name@);
        let t = " = "@ + signed_decimal(x as int) + ","@;
        assert(first_int_variant_cxx(v, start) =~= head + t);
        assert(int_variant_cxx(v) + ","@ =~= head + t);
        assert((head + t).subrange(head.len() as int, (head + t).len() as int) =~= t);
    } else {
        assert(first_int_variant_cxx(v, start) =~= int_variant_cxx(v) + " = "@ + signed_decimal(start as int) + ","@);
    }
}

/// A later variant of an integer enum shows its value only when it has
/// one: its line then ends with ` = ` and that value; without one, it ends
/// with the variant's name.
pub proof fn law_later_variant_value(v: IntEnumVariant)
    ensures
        v.value matches Some(x) ==> int_variant_cxx(v).subrange(
            int_variant_cxx(v).len() - (signed_decimal(x as int).len() + 3),
            int_variant_cxx(v).len() as int,
        ) == " = "@ + signed_decimal(x as int),
        v.value is None ==> int_variant_cxx(v).subrange(
            int_variant_cxx(v).len() - pascal_case(v.name@).len(),
            int_variant_cxx(v).len() as int,
        ) == pascal_case(v.name@),
{
    reveal_strlit(" = ");
    let head = "\n"@ + cxx_doc(v.doc@, 1) + "\n"@ + tab();
    if let Some(x) = v.value {
        let t = " = "@ + signed_decimal(x as int);
        assert(int_variant_cxx(v) =~= (head + pascal_case(v.name@)) + t);
        assert(((head + pascal_case(v.name@)) + t).subrange((head + pascal_case(v.name@)).len() as int, int_variant_cxx(v).len() as int) =~= t);
    } else {
        assert(int_variant_cxx(v) =~= head + pascal_case(v.name@));
        assert((head + pascal_case(v.name@)).subrange(head.len() as int, int_variant_cxx(v).len() as int) =~= pascal_case(v.name@));
    }
}

fn int_variant_text(v: &IntEnumVariant, first: bool, start: i128) -> (r: String)
    ensures
        first ==> r@ == first_int_variant_cxx(*v, start),
        !first ==> r@ == int_variant_cxx(*v),
{
    let name = enum_variant_format(v.name.as_str());
    let doc = split_documentation(v.doc.as_str(), 1);
    let mut r = "\n".to_owned();
    r.append(doc.as_str());
    r.append("\n");
    r.append("    ");
    r.append(name.as_str());
    if first {
        let value = match v.value {
            Some(x) => x,
            None => start,
        };
        r.append(" = ");
        let num = signed_decimal_string(value);
        r.append(num.as_str());
        r.append(",");
    } else {
        match v.value {
            Some(x) => {
                r.append(" = ");
                let num = signed_decimal_string(x);
                r.append(num.as_str());
            },
            None => {},
        }
    }
    r
}

/// An integer enum as a C++ `enum class`.
pub fn generate_int_enum_cxx(_registry: &DefinitionRegistry, int_enum: &IntEnum) -> (r: Result<String, GenerationError>)
    ensures
        r matches Ok(s) && s@ == int_enum_cxx(*int_enum),
{
    let n = int_enum.variants.len();
    let first = if n == 0 {
        String::new()
    } else {
        int_variant_text(&int_enum.variants[0], true, int_enum.start)
    };
    let mut rest: Vec<String> = Vec::new();
    let mut i: usize = 1;
    let ghost tail = if n == 0 {
        Seq::<IntEnumVariant>::empty()
    } else {
        int_enum.variants@.skip(1)
    };
    let ghost g = |v: IntEnumVariant| int_variant_cxx(v);
    while i < n
        invariant
            1 <= i,
            i <= n || n == 0,
            n == int_enum.variants@.len(),
            n > 0 ==> tail == int_enum.variants@.skip(1),
            n > 0 ==> texts(rest@) == tail.take(i - 1).map_values(g),
            n > 0 ==> rest@.len() == i - 1,
            n == 0 ==> rest@.len() == 0,
            g == (|v: IntEnumVariant| int_variant_cxx(v)),
        decreases n - i,
    {
        let ghost before = rest@;
        rest.push(int_variant_text(&int_enum.variants[i], false, int_enum.start));
        proof {
            assert(tail[i - 1] == int_enum.variants@[i as int]);
            assert(tail.take(i as int).map_values(g) =~= tail.take(i - 1).map_values(g).push(g(tail[i - 1])));
            assert(texts(rest@) =~= texts(before).push(rest@[i - 1]@));
        }
        i = i + 1;
    }
    if n > 0 {
        assert(tail.take(n - 1) =~= tail);
    }
    let rest_text = join_strings(&rest, ",\n");
    let mut content = split_documentation(int_enum.doc.as_str(), 0);
    content.append("\nenum class ");
    let ename = enum_format(int_enum.name.as_str());
    content.append(ename.as_str());
    content.append(" {\n");
    content.append(first.as_str());
    content.append("\n");
    content.append(rest_text.as_str());
    content.append("\n};");
    proof {
        if n == 0 {
            assert(texts(rest@) =~= Seq::<Seq<char>>::empty());
        }
    }
    Ok(content)
}

/// A variant of a string enum as a C++ constant.
pub open spec fn str_variant_cxx(v: StringEnumVariant) -> Seq<char> {
    "\n"@ + cxx_doc(v.doc@, 1) + "\n"@ + tab() + "constexpr const auto "@ + pascal_case(v.name@) + " = \""@ + v.value@ + "\";"@
}

/// A string enum as a C++ namespace of constants, in set order.
pub open spec fn str_enum_cxx(e: StringEnum) -> Seq<char> {
    cxx_doc(e.doc@, 0) + "\nnamespace "@ + pascal_case(e.name@) + " {\n"@ + tab() + "using Type = std::string;\n"@ + join_with(
        e.variants@.map_values(|v: StringEnumVariant| str_variant_cxx(v)),
        "\n"@,
    ) + "\n};"@
}

/// A string enum as a C++ namespace of constants.
pub fn generate_str_enum_cxx(_registry: &DefinitionRegistry, str_enum: &StringEnum) -> (r: Result<String, GenerationError>)
    ensures
        r matches Ok(s) && s@ == str_enum_cxx(*str_enum),
{
    let mut pieces: Vec<String> = Vec::new();
    let ghost g = |v: StringEnumVariant| str_variant_cxx(v);
    let mut i: usize = 0;
    while i < str_enum.variants.len()
        invariant
            i <= str_enum.variants@.len(),
            texts(pieces@) == str_enum.variants@.take(i as int).map_values(g),
            g == (|v: StringEnumVariant| str_variant_cxx(v)),
        decreases str_enum.variants@.len() - i,
    {
        let v = &str_enum.variants[i];
        let name = enum_variant_format(v.name.as_str());
        let doc = split_documentation(v.doc.as_str(), 1);
        let mut p = "\n".to_owned();
        p.append(doc.as_str());
        p.append("\n");
        p.append("    ");
        p.append("constexpr const auto ");
        p.append(name.as_str());
        p.append(" = \"");
        p.append(v.value.as_str());
        p.append("\";");
        let ghost before = pieces@;
        pieces.push(p);
        proof {
            assert(str_enum.variants@.take(i + 1).map_values(g) =~= str_enum.variants@.take(i as int).map_values(g).push(g(*v)));
            assert(texts(pieces@) =~= texts(before).push(pieces@[i as int]@));
        }
        i = i + 1;
    }
    assert(str_enum.variants@.take(i as int) =~= str_enum.variants@);
    let variants = join_strings(&pieces, "\n");
    let mut content = split_documentation(str_enum.doc.as_str(), 0);
    content.append("\nnamespace ");
    let ename = enum_format(str_enum.name.as_str());
    content.append(ename.as_str());
    content.append(" {\n");
    content.append("    ");
    content.append("using Type = std::string;\n");
    content.append(variants.as_str());
    content.append("\n};");
    Ok(content)
}

/// A type with a form in C++ never reaches a form not written yet.
pub proof fn lemma_expressible_cxx(t: &DataType, defs: Seq<Definition>, names: Seq<(Seq<char>, usize)>)
    requires
        expressible(*t),
    ensures
        cxx_type(*t, defs, names) != Err::<Seq<char>, Option<Seq<char>>>(None),
    decreases t,
{
    match t {
        DataType::Dictionary { key, value } => {
            lemma_expressible_cxx(&**key, defs, names);
            lemma_expressible_cxx(&**value, defs, names);
        },
        DataType::Array { inner_type, .. } => {
            lemma_expressible_cxx(&**inner_type, defs, names);
        },
        DataType::StringArray { inner_type, .. } => {
            lemma_expressible_cxx(&**inner_type, defs, names);
        },
        _ => {},
    }
}

proof fn lemma_fields_expressible(fields: Seq<JsonField>, defs: Seq<Definition>, names: Seq<(Seq<char>, usize)>)
    requires
        forall|k: int| 0 <= k < fields.len() ==> expressible(#[trigger] fields[k].type_),
    ensures
        fields_cxx(fields, defs, names) != Err::<Seq<Seq<char>>, Option<Seq<char>>>(None),
    decreases fields.len(),
{
    if fields.len() > 0 {
        assert(expressible(fields[fields.len() - 1].type_));
        lemma_fields_expressible(fields.drop_last(), defs, names);
        lemma_expressible_cxx(&fields.last().type_, defs, names);
    }
}

/// A generatable JSON definition has a C++ form, or names a definition that
/// is not in the registry.
pub proof fn lemma_json_generatable(j: Json, defs: Seq<Definition>, names: Seq<(Seq<char>, usize)>)
    requires
        json_generatable(j, defs.len()),
    ensures
        fields_in_registry(j.fields@, defs.len()),
        json_cxx(j, defs, names) != Err::<Seq<char>, Option<Seq<char>>>(None),
{
    assert forall|k: int| 0 <= k < j.fields@.len() implies expressible(#[trigger] j.fields@[k].type_) by {
        assert(deps_below(j.fields@[k].type_, defs.len()));
    }
    lemma_fields_expressible(j.fields@, defs, names);
}

/// The notice at the top of every generated file.
pub open spec fn autogeneration_notice() -> Seq<char> {
    "\n// This file is auto-generated from a KDL specification by `packet-generator`.\n// Please do not modify this, but instead change the original definitions."@
}

/// The start of the generated header.
pub open spec fn cxx_header() -> Seq<char> {
    "#pragma once\n\n#include <pkgen_helpers.hpp>\n\n"@ + autogeneration_notice() + "\n\n"@
}

/// The texts addons put before or after the definitions, each followed by
/// an empty line.
pub open spec fn ambles_text(ambles: Seq<Option<String>>) -> Seq<char>
    decreases ambles.len(),
{
    if ambles.len() == 0 {
        Seq::empty()
    } else {
        ambles_text(ambles.drop_last()) + match ambles.last() {
            Some(t) => t@ + "\n\n"@,
            None => Seq::empty(),
        }
    }
}

/// The contents of the addons, each followed by a newline, or the first
/// failure among them.
pub open spec fn contents_text(contents: Seq<Option<Result<String, GenerationError>>>) -> Result<Seq<char>, GenerationError>
    decreases contents.len(),
{
    if contents.len() == 0 {
        Ok(Seq::empty())
    } else {
        match contents_text(contents.drop_last()) {
            Err(e) => Err(e),
            Ok(t) => match contents.last() {
                None => Ok(t),
                Some(Err(e)) => Err(e),
                Some(Ok(c)) => Ok(t + c@ + "\n"@),
            },
        }
    }
}

/// How a definition is declared ahead of the others: structs and enums by
/// name, string enums whole.
pub open spec fn forward_cxx(d: Definition) -> Seq<char> {
    match d {
        Definition::Json(j) => "struct "@ + pascal_case(j.name@) + ";"@,
        Definition::IntEnum(e) => "enum class "@ + pascal_case(e.name@) + ";"@,
        Definition::StringEnum(e) => str_enum_cxx(e),
    }
}

/// The declarations of all the definitions, in registry order.
pub open spec fn forward_text(defs: Seq<Definition>) -> Seq<char> {
    join_with(defs.map_values(|d: Definition| forward_cxx(d)), "\n\n"@)
}

/// The bodies of the structs and integer enums, in `order`, or the first
/// failure.
pub open spec fn bodies_cxx(order: Seq<usize>, defs: Seq<Definition>, names: Seq<(Seq<char>, usize)>) -> Result<Seq<Seq<char>>, Option<Seq<char>>>
    decreases order.len(),
{
    if order.len() == 0 {
        Ok(Seq::empty())
    } else {
        match bodies_cxx(order.drop_last(), defs, names) {
            Err(e) => Err(e),
            Ok(v) => match defs[order.last() as int] {
                Definition::Json(j) => match json_cxx(j, defs, names) {
                    Err(e) => Err(e),
                    Ok(s) => Ok(v.push(s)),
                },
                Definition::IntEnum(e) => Ok(v.push(int_enum_cxx(e))),
                Definition::StringEnum(_) => Ok(v),
            },
        }
    }
}

/// What generating the header gives, from the texts of the addons, the
/// order of the definitions (or a definition on a cycle) and the contents
/// of the addons.
pub open spec fn file_outcome(
    r: Result<Vec<GeneratedSource>, GenerationError>,
    initial_filename: Seq<char>,
    defs: Seq<Definition>,
    names: Seq<(Seq<char>, usize)>,
    preambles: Seq<Option<String>>,
    order: Result<Vec<usize>, usize>,
    contents: Seq<Option<Result<String, GenerationError>>>,
    postambles: Seq<Option<String>>,
) -> bool {
    match order {
        Err(n) => r == Err::<Vec<GeneratedSource>, GenerationError>(GenerationError::CycleFound(n)),
        Ok(o) => match bodies_cxx(o@, defs, names) {
            Err(Some(name)) => r matches Err(e) && not_found_is(e, name),
            Err(None) => false,
            Ok(bodies) => match contents_text(contents) {
                Err(e) => r == Err::<Vec<GeneratedSource>, GenerationError>(e),
                Ok(c) => r matches Ok(v) && v@.len() == 1 && v@[0].filename@ == initial_filename + ".hpp"@
                    && v@[0].content@ == cxx_header() + ambles_text(preambles) + forward_text(defs) + "\n\n"@
                    + join_with(bodies, "\n\n"@) + "\n\n"@ + c + ambles_text(postambles),
            },
        },
    }
}

fn ambles(texts_of: &Vec<Option<String>>) -> (r: String)
    ensures
        r@ == ambles_text(texts_of@),
{
    let mut r = String::new();
    let mut i: usize = 0;
    assert(texts_of@.take(0) =~= Seq::<Option<String>>::empty());
    while i < texts_of.len()
        invariant
            i <= texts_of@.len(),
            r@ == ambles_text(texts_of@.take(i as int)),
        decreases texts_of@.len() - i,
    {
        assert(texts_of@.take(i + 1).drop_last() =~= texts_of@.take(i as int));
        match &texts_of[i] {
            Some(t) => {
                r.append(t.as_str());
                r.append("\n\n");
            },
            None => {},
        }
        i = i + 1;
    }
    assert(texts_of@.take(i as int) =~= texts_of@);
    r
}

/// The declarations of all the definitions, in registry order.
pub fn forward_declarations(registry: &DefinitionRegistry) -> (r: String)
    ensures
        r@ == forward_text(registry.definitions()),
{
    let all = registry.all_definitions();
    let ghost defs = registry.definitions();
    let ghost g = |d: Definition| forward_cxx(d);
    let mut pieces: Vec<String> = Vec::new();
    let mut i: usize = 0;
    while i < all.len()
        invariant
            i <= all@.len(),
            all@.len() == defs.len(),
            defs == registry.definitions(),
            forall|t: int| 0 <= t < all@.len() ==> #[trigger] all@[t] == t,
            texts(pieces@) == defs.take(i as int).map_values(g),
            g == (|d: Definition| forward_cxx(d)),
        decreases all@.len() - i,
    {
        let d = registry.get(all[i]);
        let piece = match d {
            Definition::Json(j) => {
                let mut p = "struct ".to_owned();
                let name = struct_format(j.name.as_str());
                p.append(name.as_str());
                p.append(";");
                p
            },
            Definition::IntEnum(e) => {
                let mut p = "enum class ".to_owned();
                let name = enum_format(e.name.as_str());
                p.append(name.as_str());
                p.append(";");
                p
            },
            Definition::StringEnum(e) => match generate_str_enum_cxx(registry, e) {
                Ok(p) => p,
                Err(_) => String::new(),
            },
        };
        let ghost before = pieces@;
        pieces.push(piece);
        proof {
            assert(defs.take(i + 1).map_values(g) =~= defs.take(i as int).map_values(g).push(g(defs[i as int])));
            assert(texts(pieces@) =~= texts(before).push(pieces@[i as int]@));
        }
        i = i + 1;
    }
    assert(defs.take(i as int) =~= defs);
    join_strings(&pieces, "\n\n")
}

proof fn lemma_bodies_prefix(order: Seq<usize>, defs: Seq<Definition>, names: Seq<(Seq<char>, usize)>, k: int)
    requires
        0 <= k <= order.len(),
        bodies_cxx(order.take(k), defs, names) is Err,
    ensures
        bodies_cxx(order, defs, names) == bodies_cxx(order.take(k), defs, names),
    decreases order.len() - k,
{
    if k < order.len() {
        assert(order.take(k + 1).drop_last() =~= order.take(k));
        lemma_bodies_prefix(order, defs, names, k + 1);
    } else {
        assert(order.take(k) =~= order);
    }
}

/// The bodies of the structs and integer enums, in `order`.
pub fn definition_bodies(registry: &DefinitionRegistry, order: &Vec<usize>) -> (r: Result<Vec<String>, GenerationError>)
    requires
        generatable(registry),
        forall|i: int| 0 <= i < order@.len() ==> #[trigger] order@[i] < registry.definitions().len(),
    ensures
        match bodies_cxx(order@, registry.definitions(), registry.names()) {
            Ok(b) => r matches Ok(v) && texts(v@) == b,
            Err(Some(n)) => r matches Err(e) && not_found_is(e, n),
            Err(None) => false,
        },
{
    let ghost defs = registry.definitions();
    let ghost names = registry.names();
    let mut out: Vec<String> = Vec::new();
    let mut i: usize = 0;
    assert(order@.take(0) =~= Seq::<usize>::empty());
    assert(texts(out@) =~= Seq::<Seq<char>>::empty());
    while i < order.len()
        invariant
            i <= order@.len(),
            defs == registry.definitions(),
            names == registry.names(),
            generatable(registry),
            forall|t: int| 0 <= t < order@.len() ==> #[trigger] order@[t] < defs.len(),
            bodies_cxx(order@.take(i as int), defs, names) == Ok::<Seq<Seq<char>>, Option<Seq<char>>>(texts(out@)),
        decreases order@.len() - i,
    {
        let ghost t = order@.take(i + 1);
        assert(t.drop_last() =~= order@.take(i as int));
        assert(t.last() == order@[i as int]);
        let idx = order[i];
        assert(idx < defs.len());
        let d = registry.get(idx);
        assert(super::definition_generatable(defs[idx as int], defs.len()));
        match d {
            Definition::Json(j) => {
                proof {
                    lemma_json_generatable(*j, defs, names);
                }
                match generate_json_cxx(registry, j) {
                    Err(e) => {
                        proof {
                            lemma_bodies_prefix(order@, defs, names, i + 1);
                        }
                        return Err(e);
                    },
                    Ok(s) => {
                        let ghost before = out@;
                        out.push(s);
                        assert(texts(out@) =~= texts(before).push(out@[before.len() as int]@));
                    },
                }
            },
            Definition::IntEnum(e) => {
                let s = match generate_int_enum_cxx(registry, e) {
                    Ok(s) => s,
                    Err(_) => String::new(),
                };
                let ghost before = out@;
                out.push(s);
                assert(texts(out@) =~= texts(before).push(out@[before.len() as int]@));
            },
            Definition::StringEnum(_) => {},
        }
        i = i + 1;
    }
    assert(order@.take(i as int) =~= order@);
    Ok(out)
}

/// Puts the header together from what the addons gave: their preambles,
/// the order of the definitions (or a definition on a cycle), their
/// contents and their postambles.
pub fn assemble_cxx(
    registry: &DefinitionRegistry,
    initial_filename: &str,
    preambles: &Vec<Option<String>>,
    order: Result<Vec<usize>, usize>,
    contents: Vec<Option<Result<String, GenerationError>>>,
    postambles: &Vec<Option<String>>,
) -> (r: Result<Vec<GeneratedSource>, GenerationError>)
    requires
        generatable(registry),
        order matches Ok(o) ==> forall|i: int| 0 <= i < o@.len() ==> #[trigger] o@[i] < registry.definitions().len(),
    ensures
        file_outcome(r, initial_filename@, registry.definitions(), registry.names(), preambles@, order, contents@, postambles@),
{
    let ghost order0 = order;
    let mut content = "#pragma once\n\n#include <pkgen_helpers.hpp>\n\n".to_owned();
    content.append("\n// This file is auto-generated from a KDL specification by `packet-generator`.\n// Please do not modify this, but instead change the original definitions.");
    content.append("\n\n");
    let pre = ambles(preambles);
    content.append(pre.as_str());
    let forward = forward_declarations(registry);
    content.append(forward.as_str());
    content.append("\n\n");
    let sorted = match order {
        Err(n) => {
            return Err(GenerationError::CycleFound(n));
        },
        Ok(o) => o,
    };
    let bodies = match definition_bodies(registry, &sorted) {
        Err(e) => {
            return Err(e);
        },
        Ok(b) => b,
    };
    let bodies_text = join_strings(&bodies, "\n\n");
    content.append(bodies_text.as_str());
    content.append("\n\n");
    let ghost all = contents@;
    let mut rest = contents;
    let mut c = String::new();
    let mut k: usize = 0;
    let n = rest.len();
    assert(all.take(0) =~= Seq::<Option<Result<String, GenerationError>>>::empty());
    assert(all.skip(0) =~= all);
    while k < n
        invariant
            k <= n,
            n == all.len(),
            rest@ == all.skip(k as int),
            contents_text(all.take(k as int)) == Ok::<Seq<char>, GenerationError>(c@),
            all == contents@,
            order0 == order,
            order0 == Ok::<Vec<usize>, usize>(sorted),
            bodies_cxx(sorted@, registry.definitions(), registry.names()) == Ok::<Seq<Seq<char>>, Option<Seq<char>>>(texts(bodies@)),
            content@ == cxx_header() + ambles_text(preambles@) + forward_text(registry.definitions()) + "\n\n"@ + join_with(texts(bodies@), "\n\n"@) + "\n\n"@,
        decreases n - k,
    {
        assert(all.take(k + 1).drop_last() =~= all.take(k as int));
        assert(all.take(k + 1).last() == all[k as int]);
        assert(all.skip(k as int)[0] == all[k as int]);
        let item = rest.remove(0);
        assert(item == all[k as int]);
        assert(rest@ =~= all.skip(k + 1));
        match item {
            None => {},
            Some(Err(e)) => {
                assert(contents_text(all.take(k + 1)) == Err::<Seq<char>, GenerationError>(e));
                proof {
                    lemma_contents_prefix(all, k as int + 1);
                }
                assert(bodies_cxx(sorted@, registry.definitions(), registry.names()) is Ok);
                assert(order0 == Ok::<Vec<usize>, usize>(sorted));
                return Err(e);
            },
            Some(Ok(t)) => {
                c.append(t.as_str());
                c.append("\n");
            },
        }
        k = k + 1;
    }
    assert(all.take(n as int) =~= all);
    content.append(c.as_str());
    let post = ambles(postambles);
    content.append(post.as_str());
    let mut filename = initial_filename.to_owned();
    filename.append(".hpp");
    let mut out: Vec<GeneratedSource> = Vec::new();
    out.push(GeneratedSource { filename, content });
    Ok(out)
}

proof fn lemma_contents_prefix(contents: Seq<Option<Result<String, GenerationError>>>, k: int)
    requires
        0 <= k <= contents.len(),
        contents_text(contents.take(k)) is Err,
    ensures
        contents_text(contents) == contents_text(contents.take(k)),
    decreases contents.len() - k,
{
    if k < contents.len() {
        assert(contents.take(k + 1).drop_last() =~= contents.take(k));
        lemma_contents_prefix(contents, k + 1);
    } else {
        assert(contents.take(k) =~= contents);
    }
}

/// The C++ generator: one header holding every definition, then what its
/// addons add.
pub struct CxxGenerator {
    addons: Vec<Box<dyn Addon>>,
}

impl CxxGenerator {
    /// The number of addons added so far.
    pub closed spec fn addon_count_spec(&self) -> nat {
        self.addons@.len()
    }

    /// The addons added so far, in the order they were added.
    pub closed spec fn addons_spec(&self) -> Seq<Box<dyn Addon>> {
        self.addons@
    }

    /// A generator with no addon.
    pub fn new() -> (r: CxxGenerator)
        ensures
            r.addon_count_spec() == 0,
    {
        CxxGenerator { addons: Vec::new() }
    }

    /// The number of addons added so far.
    pub fn addon_count(&self) -> (r: usize)
        ensures
            r == self.addon_count_spec(),
    {
        self.addons.len()
    }
}

impl Default for CxxGenerator {
    fn default() -> (r: CxxGenerator)
        ensures
            r.addon_count_spec() == 0,
    {
        CxxGenerator::new()
    }
}

impl WithAddons for CxxGenerator {
    /// Appends the addon; its texts come after those of the addons added
    /// before it.
    fn add_addon<T: Addon + 'static>(&mut self, addon: T)
        ensures
            final(self).addon_count_spec() == old(self).addon_count_spec() + 1,
            final(self).addons_spec().drop_last() == old(self).addons_spec(),
    {
        let b: Box<dyn Addon> = Box::new(addon);
        let ghost before = self.addons@;
        self.addons.push(b);
        proof {
            assert(self.addons@ == before.push(b));
            vstd::seq::axiom_seq_push_len(before, b);
            assert forall|i: int| 0 <= i < before.len() implies #[trigger] self.addons@.drop_last()[i] == before[i] by {
                vstd::seq::axiom_seq_push_index_different(before, b, i);
            }
            assert(self.addons@.drop_last() =~= before);
        }
    }
}

impl Generator for CxxGenerator {
    /// One header, `<initial_filename>.hpp`: the notice, the addons'
    /// preambles, every definition declared ahead in registry order, the
    /// structs and integer enums in dependency order, the addons' contents
    /// and their postambles.
    fn generate(&self, registry: &DefinitionRegistry, initial_filename: &str) -> (r: Result<Vec<GeneratedSource>, GenerationError>)
        ensures
            exists|pre: Seq<Option<String>>, order: Result<Vec<usize>, usize>, con: Seq<Option<Result<String, GenerationError>>>, post: Seq<Option<String>>|
                #![trigger file_outcome(r, initial_filename@, registry.definitions(), registry.names(), pre, order, con, post)]
                pre.len() == self.addon_count_spec() && con.len() == self.addon_count_spec() && post.len() == self.addon_count_spec()
                && (forall|k: int| 0 <= k < self.addon_count_spec() ==> #[trigger] opt_text(pre[k]) == self.addons_spec()[k].preamble_of(*registry))
                && (forall|k: int| 0 <= k < self.addon_count_spec() ==> #[trigger] content_text(con[k]) == self.addons_spec()[k].content_of(*registry))
                && (forall|k: int| 0 <= k < self.addon_count_spec() ==> #[trigger] opt_text(post[k]) == self.addons_spec()[k].postamble_of(*registry))
                && match order {
                    Ok(o) => is_topological_order(o@, registry.edges(), registry.definitions().len()),
                    Err(n) => n < registry.definitions().len() && !is_acyclic(registry.edges(), registry.definitions().len()),
                } && file_outcome(r, initial_filename@, registry.definitions(), registry.names(), pre, order, con, post),
    {
        let n = self.addons.len();
        let mut pre: Vec<Option<String>> = Vec::new();
        let mut i: usize = 0;
        while i < n
            invariant
                i <= n,
                n == self.addons@.len(),
                pre@.len() == i,
                forall|k: int| 0 <= k < i ==> #[trigger] opt_text(pre@[k]) == self.addons@[k].preamble_of(*registry),
            decreases n - i,
        {
            pre.push(self.addons[i].preamble(registry));
            i = i + 1;
        }
        let order = registry.sorted_definitions();
        let mut con: Vec<Option<Result<String, GenerationError>>> = Vec::new();
        let mut i: usize = 0;
        while i < n
            invariant
                i <= n,
                n == self.addons@.len(),
                con@.len() == i,
                forall|k: int| 0 <= k < i ==> #[trigger] content_text(con@[k]) == self.addons@[k].content_of(*registry),
            decreases n - i,
        {
            con.push(self.addons[i].content(registry));
            i = i + 1;
        }
        let mut post: Vec<Option<String>> = Vec::new();
        let mut i: usize = 0;
        while i < n
            invariant
                i <= n,
                n == self.addons@.len(),
                post@.len() == i,
                forall|k: int| 0 <= k < i ==> #[trigger] opt_text(post@[k]) == self.addons@[k].postamble_of(*registry),
            decreases n - i,
        {
            post.push(self.addons[i].postamble(registry));
            i = i + 1;
        }
        let ghost go = order;
        let ghost gc = con@;
        let r = assemble_cxx(registry, initial_filename, &pre, order, con, &post);
        assert(file_outcome(r, initial_filename@, registry.definitions(), registry.names(), pre@, go, gc, post@));
        r
    }

    fn json_name(&self, definition: &Json) -> (r: String)
        ensures
            r@ == pascal_case(definition.name@),
    {
        struct_format(definition.name.as_str())
    }

    fn json_field_name(&self, definition: &JsonField) -> (r: String)
        ensures
            r@ == snake_case(definition.name@),
    {
        struct_field_format(definition.name.as_str())
    }

    fn int_enum_name(&self, definition: &IntEnum) -> (r: String)
        ensures
            r@ == pascal_case(definition.name@),
    {
        enum_format(definition.name.as_str())
    }

    fn int_enum_variant_name(&self, definition: &IntEnumVariant) -> (r: String)
        ensures
            r@ == pascal_case(definition.name@),
    {
        enum_variant_format(definition.name.as_str())
    }

    fn string_enum_name(&self, definition: &StringEnum) -> (r: String)
        ensures
            r@ == pascal_case(definition.name@),
    {
        enum_format(definition.name.as_str())
    }

    fn string_enum_variant_name(&self, definition: &StringEnumVariant) -> (r: String)
        ensures
            r@ == pascal_case(definition.name@),
    {
        enum_variant_format(definition.name.as_str())
    }
}

} // verus!

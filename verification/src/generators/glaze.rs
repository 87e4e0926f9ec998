//! The Glaze addon of the C++ generator: `glz::meta` specialisations that
//! tell the Glaze library how each struct reads and writes as JSON.

use vstd::prelude::*;
use super::cpp::{pascal_case, snake_case, struct_field_format, struct_format};
use super::utils::{join_strings, join_with, texts};
use super::{Addon, GenerationError};
use crate::intermediate::registry::DefinitionRegistry;
use crate::intermediate::schema::{ArraySeparator, ArraySize, BoolEncoding, DataType, Definition, Encoding, Json, JsonField};
use crate::text::push_char;

verus! {

/// The addon that adds Glaze metadata to the C++ header.
#[derive(Debug, Clone)]
pub struct GlazeGenerator;

/// The character Glaze splits a string array on.
pub open spec fn glz_separator(sep: ArraySeparator) -> char {
    match sep {
        ArraySeparator::Comma => ',',
        ArraySeparator::At => '@',
        ArraySeparator::Colon => ':',
        ArraySeparator::Pipe => '|',
    }
}

fn get_glz_array_separator(sep: ArraySeparator) -> (c: char)
    ensures
        c == glz_separator(sep),
{
    match sep {
        ArraySeparator::Comma => ',',
        ArraySeparator::At => '@',
        ArraySeparator::Colon => ':',
        ArraySeparator::Pipe => '|',
    }
}

/// How Glaze reads and writes a member named `n` (already in snake case)
/// of type `t`: numbers encoded as strings are quoted, floats and dates go
/// through the helpers, a one-element array is its element, a string array
/// is split on its separator, and anything else is the member itself.
pub open spec fn glz_mapper(n: Seq<char>, t: DataType) -> Seq<char> {
    match t {
        DataType::I32 { encoding: Encoding::String } => "glz::quoted_num<&T::"@ + n + ">"@,
        DataType::U32 { encoding: Encoding::String } => "glz::quoted_num<&T::"@ + n + ">"@,
        DataType::F32 { encoding: Encoding::String } => "glz::quoted_num<&T::"@ + n + ">"@,
        DataType::F32 { encoding: Encoding::Int } => "glz_write_f32(&T::"@ + n + ")"@,
        DataType::F64 => "glz_write_f64(&T::"@ + n + ")"@,
        DataType::Bool { encoding: BoolEncoding::String } => "pkg::glaze::bool_as_string<&T::"@ + n + ">()"@,
        DataType::Bool { encoding: BoolEncoding::Int } => "glz::bools_as_numbers<&T::"@ + n + ">"@,
        DataType::Datetime => "pkg::glaze::datetime<&T::"@ + n + ">()"@,
        DataType::DatetimeUnix => "pkg::glaze::datetime_unix<&T::"@ + n + ">()"@,
        DataType::Array { size: ArraySize::Fixed(1), .. } => "pkg::glaze::single_array<&T::"@ + n + ">()"@,
        DataType::StringArray { separator, .. } => "pkg::glaze::array_string<T, &T::"@ + n + ", '"@ + seq![glz_separator(separator)]
            + "'>"@,
        _ => "&T::"@ + n,
    }
}

fn wrapped(prefix: &str, n: &String, suffix: &str) -> (r: String)
    ensures
        r@ == prefix@ + n@ + suffix@,
{
    let mut r = prefix.to_owned();
    r.append(n.as_str());
    r.append(suffix);
    r
}

/// A date and time is read and written through the helper its kind names:
/// an ISO date through `pkg::glaze::datetime`, a Unix timestamp through
/// `pkg::glaze::datetime_unix`; the two never share a mapper.
pub proof fn law_glz_time_mappers(n: Seq<char>)
    ensures
        glz_mapper(n, DataType::Datetime) == "pkg::glaze::datetime<&T::"@ + n + ">()"@,
        glz_mapper(n, DataType::DatetimeUnix) == "pkg::glaze::datetime_unix<&T::"@ + n + ">()"@,
        glz_mapper(n, DataType::DatetimeUnix) != glz_mapper(n, DataType::Datetime),
{
    reveal_strlit("pkg::glaze::datetime<&T::");
    reveal_strlit("pkg::glaze::datetime_unix<&T::");
    reveal_strlit(">()");
    assert(glz_mapper(n, DataType::DatetimeUnix).len() == glz_mapper(n, DataType::Datetime).len() + 5);
}

/// How a number or a boolean is encoded decides its mapper: a number
/// encoded as a string is quoted (`glz::quoted_num`), one encoded as a
/// number is the member itself (a 32-bit float through `glz_write_f32`);
/// a boolean as a string, as a number and as a JSON boolean each have a
/// mapper of their own. No two encodings of a type share a mapper.
pub proof fn law_glz_encodings(n: Seq<char>)
    ensures
        glz_mapper(n, DataType::I32 { encoding: Encoding::String }) == "glz::quoted_num<&T::"@ + n + ">"@,
        glz_mapper(n, DataType::U32 { encoding: Encoding::String }) == "glz::quoted_num<&T::"@ + n + ">"@,
        glz_mapper(n, DataType::F32 { encoding: Encoding::String }) == "glz::quoted_num<&T::"@ + n + ">"@,
        glz_mapper(n, DataType::I32 { encoding: Encoding::Int }) == "&T::"@ + n,
        glz_mapper(n, DataType::U32 { encoding: Encoding::Int }) == "&T::"@ + n,
        glz_mapper(n, DataType::F32 { encoding: Encoding::Int }) == "glz_write_f32(&T::"@ + n + ")"@,
        glz_mapper(n, DataType::I32 { encoding: Encoding::String }) != glz_mapper(n, DataType::I32 { encoding: Encoding::Int }),
        glz_mapper(n, DataType::U32 { encoding: Encoding::String }) != glz_mapper(n, DataType::U32 { encoding: Encoding::Int }),
        glz_mapper(n, DataType::F32 { encoding: Encoding::String }) != glz_mapper(n, DataType::F32 { encoding: Encoding::Int }),
        glz_mapper(n, DataType::Bool { encoding: BoolEncoding::String }) == "pkg::glaze::bool_as_string<&T::"@ + n + ">()"@,
        glz_mapper(n, DataType::Bool { encoding: BoolEncoding::Int }) == "glz::bools_as_numbers<&T::"@ + n + ">"@,
        glz_mapper(n, DataType::Bool { encoding: BoolEncoding::Bool }) == "&T::"@ + n,
        glz_mapper(n, DataType::Bool { encoding: BoolEncoding::String }) != glz_mapper(n, DataType::Bool { encoding: BoolEncoding::Int }),
        glz_mapper(n, DataType::Bool { encoding: BoolEncoding::String }) != glz_mapper(n, DataType::Bool { encoding: BoolEncoding::Bool }),
        glz_mapper(n, DataType::Bool { encoding: BoolEncoding::Int }) != glz_mapper(n, DataType::Bool { encoding: BoolEncoding::Bool }),
{
    reveal_strlit("glz::quoted_num<&T::");
    reveal_strlit(">");
    reveal_strlit("&T::");
    reveal_strlit("glz_write_f32(&T::");
    reveal_strlit(")");
    reveal_strlit("pkg::glaze::bool_as_string<&T::");
    reveal_strlit("glz::bools_as_numbers<&T::");
    reveal_strlit(">()");
    assert(glz_mapper(n, DataType::I32 { encoding: Encoding::String }).len() == n.len() + 21);
    assert(glz_mapper(n, DataType::I32 { encoding: Encoding::Int }).len() == n.len() + 4);
    assert(glz_mapper(n, DataType::U32 { encoding: Encoding::String }).len() == n.len() + 21);
    assert(glz_mapper(n, DataType::U32 { encoding: Encoding::Int }).len() == n.len() + 4);
    assert(glz_mapper(n, DataType::F32 { encoding: Encoding::String }).len() == n.len() + 21);
    assert(glz_mapper(n, DataType::F32 { encoding: Encoding::Int }).len() == n.len() + 19);
    assert(glz_mapper(n, DataType::Bool { encoding: BoolEncoding::String }).len() == n.len() + 34);
    assert(glz_mapper(n, DataType::Bool { encoding: BoolEncoding::Int }).len() == n.len() + 27);
    assert(glz_mapper(n, DataType::Bool { encoding: BoolEncoding::Bool }).len() == n.len() + 4);
}

/// A string array is split on the character its separator names (`,`,
/// `@`, `:` or `|`) by `pkg::glaze::array_string`; an array of one element
/// reads as that element; a string, a 64-bit number, a dictionary, an
/// array of another size and a reference to a definition are the member
/// itself.
pub proof fn law_glz_other_mappers(n: Seq<char>, d: DataType)
    ensures
        d matches DataType::StringArray { separator, .. } ==> glz_mapper(n, d) == "pkg::glaze::array_string<T, &T::"@ + n + ", '"@
            + seq![
            match separator {
                ArraySeparator::Comma => ',',
                ArraySeparator::At => '@',
                ArraySeparator::Colon => ':',
                ArraySeparator::Pipe => '|',
            },
        ] + "'>"@,
        d matches DataType::Array { size: ArraySize::Fixed(k), .. } ==> (k == 1 ==> glz_mapper(n, d) == "pkg::glaze::single_array<&T::"@
            + n + ">()"@),
        d matches DataType::Array { size: ArraySize::Fixed(k), .. } ==> (k != 1 ==> glz_mapper(n, d) == "&T::"@ + n),
        d matches DataType::Array { size: ArraySize::Dynamic, .. } ==> glz_mapper(n, d) == "&T::"@ + n,
        d is String || d is I64 || d is U64 || d is Dictionary || d is Definition ==> glz_mapper(n, d) == "&T::"@ + n,
{
}

/// The Glaze mapper of a field named `name` of type `datatype`.
fn get_glz_mapper(name: &str, datatype: &DataType, _registry: &DefinitionRegistry) -> (r: Result<String, GenerationError>)
    ensures
        r matches Ok(s) && s@ == glz_mapper(snake_case(name@), *datatype),
{
    let n = struct_field_format(name);
    let s = match datatype {
        DataType::I32 { encoding: Encoding::String } => wrapped("glz::quoted_num<&T::", &n, ">"),
        DataType::U32 { encoding: Encoding::String } => wrapped("glz::quoted_num<&T::", &n, ">"),
        DataType::F32 { encoding: Encoding::String } => wrapped("glz::quoted_num<&T::", &n, ">"),
        DataType::F32 { encoding: Encoding::Int } => wrapped("glz_write_f32(&T::", &n, ")"),
        DataType::F64 => wrapped("glz_write_f64(&T::", &n, ")"),
        DataType::Bool { encoding: BoolEncoding::String } => wrapped("pkg::glaze::bool_as_string<&T::", &n, ">()"),
        DataType::Bool { encoding: BoolEncoding::Int } => wrapped("glz::bools_as_numbers<&T::", &n, ">"),
        DataType::Datetime => wrapped("pkg::glaze::datetime<&T::", &n, ">()"),
        DataType::DatetimeUnix => wrapped("pkg::glaze::datetime_unix<&T::", &n, ">()"),
        DataType::Array { size: ArraySize::Fixed(1), .. } => wrapped("pkg::glaze::single_array<&T::", &n, ">()"),
        DataType::StringArray { separator, .. } => {
            let mut r = wrapped("pkg::glaze::array_string<T, &T::", &n, ", '");
            let c = get_glz_array_separator(*separator);
            let ghost before = r@;
            push_char(&mut r, c);
            assert(r@ =~= before + seq![c]);
            r.append("'>");
            r
        },
        _ => {
            let mut r = "&T::".to_owned();
            r.append(n.as_str());
            r
        },
    };
    Ok(s)
}

/// One member of a `glz::meta` object: the JSON key and its mapper.
pub open spec fn glz_field(f: JsonField) -> Seq<char> {
    "        \""@ + f.key@ + "\", "@ + glz_mapper(snake_case(f.name@), f.type_)
}

/// The `glz::meta` specialisation of a JSON definition.
pub open spec fn glz_json(j: Json) -> Seq<char> {
    "template <>\nstruct glz::meta<"@ + pascal_case(j.name@) + "> {\n    using T = "@ + pascal_case(j.name@)
        + ";\n    static constexpr auto value = object(\n"@ + join_with(
        j.fields@.map_values(|f: JsonField| glz_field(f)),
        ",\n"@,
    ) + "\n    );\n};"@
}

fn generate_json_cxx(registry: &DefinitionRegistry, json: &Json) -> (r: Result<String, GenerationError>)
    ensures
        r matches Ok(s) && s@ == glz_json(*json),
{
    let struct_name = struct_format(json.name.as_str());
    let ghost g = |f: JsonField| glz_field(f);
    let mut pieces: Vec<String> = Vec::new();
    let mut i: usize = 0;
    while i < json.fields.len()
        invariant
            i <= json.fields@.len(),
            texts(pieces@) == json.fields@.take(i as int).map_values(g),
            g == (|f: JsonField| glz_field(f)),
        decreases json.fields@.len() - i,
    {
        let f = &json.fields[i];
        let mapper = match get_glz_mapper(f.name.as_str(), &f.type_, registry) {
            Ok(m) => m,
            Err(e) => {
                return Err(e);
            },
        };
        let mut p = "        \"".to_owned();
        p.append(f.key.as_str());
        p.append("\", ");
        p.append(mapper.as_str());
        let ghost before = pieces@;
        pieces.push(p);
        proof {
            assert(json.fields@.take(i + 1).map_values(g) =~= json.fields@.take(i as int).map_values(g).push(g(*f)));
            assert(texts(pieces@) =~= texts(before).push(pieces@[i as int]@));
        }
        i = i + 1;
    }
    assert(json.fields@.take(i as int) =~= json.fields@);
    let fields = join_strings(&pieces, ",\n");
    let mut content = "template <>\nstruct glz::meta<".to_owned();
    content.append(struct_name.as_str());
    content.append("> {\n    using T = ");
    content.append(struct_name.as_str());
    content.append(";\n    static constexpr auto value = object(\n");
    content.append(fields.as_str());
    content.append("\n    );\n};");
    Ok(content)
}

/// The `glz::meta` specialisations of the JSON definitions among `defs`,
/// in order.
pub open spec fn glz_jsons(defs: Seq<Definition>) -> Seq<Seq<char>>
    decreases defs.len(),
{
    if defs.len() == 0 {
        Seq::empty()
    } else {
        match defs.last() {
            Definition::Json(j) => glz_jsons(defs.drop_last()).push(glz_json(j)),
            _ => glz_jsons(defs.drop_last()),
        }
    }
}

/// What the addon adds to the header: the specialisations of every JSON
/// definition, in registry order, compiled only where Glaze is available.
pub open spec fn glz_content(defs: Seq<Definition>) -> Seq<char> {
    "// Auto-generated Glaze definitions\n#if __has_include(<glaze/glaze.hpp>)\n#include <pkgen_glaze_helpers.hpp>\n\n"@ + join_with(
        glz_jsons(defs),
        "\n\n"@,
    ) + "\n\n#endif // __has_include(<glaze/glaze.hpp>)\n        "@
}

impl Addon for GlazeGenerator {
    /// The specialisations of every JSON definition of the registry.
    open spec fn content_of(&self, registry: DefinitionRegistry) -> Option<Result<Seq<char>, GenerationError>> {
        Some(Ok(glz_content(registry.definitions())))
    }

    /// Nothing before the definitions.
    fn preamble(&self, registry: &DefinitionRegistry) -> (r: Option<String>) {
        None
    }

    /// Nothing at the very end.
    fn postamble(&self, registry: &DefinitionRegistry) -> (r: Option<String>) {
        None
    }

    fn content(&self, registry: &DefinitionRegistry) -> (r: Option<Result<String, GenerationError>>)
        ensures
            r matches Some(Ok(s)) && s@ == glz_content(registry.definitions()),
    {
        let all = registry.all_definitions();
        let ghost defs = registry.definitions();
        let mut pieces: Vec<String> = Vec::new();
        let mut i: usize = 0;
        assert(defs.take(0) =~= Seq::<Definition>::empty());
        assert(texts(pieces@) =~= Seq::<Seq<char>>::empty());
        while i < all.len()
            invariant
                i <= all@.len(),
                all@.len() == defs.len(),
                defs == registry.definitions(),
                forall|t: int| 0 <= t < all@.len() ==> #[trigger] all@[t] == t,
                texts(pieces@) == glz_jsons(defs.take(i as int)),
            decreases all@.len() - i,
        {
            let ghost t = defs.take(i + 1);
            assert(t.drop_last() =~= defs.take(i as int));
            assert(t.last() == defs[i as int]);
            match registry.get(all[i]) {
                Definition::Json(j) => {
                    match generate_json_cxx(registry, j) {
                        Ok(s) => {
                            let ghost before = pieces@;
                            pieces.push(s);
                            assert(texts(pieces@) =~= texts(before).push(pieces@[before.len() as int]@));
                        },
                        Err(e) => {
                            return Some(Err(e));
                        },
                    }
                },
                _ => {},
            }
            i = i + 1;
        }
        assert(defs.take(i as int) =~= defs);
        let inner = join_strings(&pieces, "\n\n");
        let mut content = "// Auto-generated Glaze definitions\n#if __has_include(<glaze/glaze.hpp>)\n#include <pkgen_glaze_helpers.hpp>\n\n".to_owned();
        content.append(inner.as_str());
        content.append("\n\n#endif // __has_include(<glaze/glaze.hpp>)\n        ");
        Some(Ok(content))
    }
}

} // verus!

//! Parsing of KDL packet descriptions into [`RawDocument`]s, and their
//! conversion into the intermediate representation.

pub mod document;
pub mod enum_parser;
pub mod errors;
pub mod extract;
pub mod json_parser;
pub mod parser;
pub mod schema;
pub mod to_intermediate;
pub mod type_parser;
pub mod type_syntax;

use vstd::prelude::*;
use crate::intermediate::registry::{DefinitionRegistry, PartialDefinitionRegistry};
use errors::Diagnostic;
use schema::RawDocument;
use to_intermediate::{
    add_enum_definitions, add_json_definitions, enum_converts, enum_name, enum_names, field_from, field_rel,
    json_converts, json_names, structs_refs,
};
use crate::intermediate::registry::lemma_all_counts;
use crate::intermediate::order::sourced;
use crate::intermediate::registry::is_missing_definition;
use crate::intermediate::registry::{
    all_resolved, first_missing, first_unresolved, lemma_first_unresolved_at, lookup, resolved_definition,
};
use crate::intermediate::schema::DataType;
use crate::kdl_parser::errors::Severity;
use schema::TypeModel;
use crate::intermediate::schema::{Definition, Json};

verus! {

/// A valid KDL document: the only kind that converts into the intermediate
/// representation, through [`document_to_definitions`].
pub struct Document(RawDocument);

impl Document {
    pub closed spec fn raw(&self) -> RawDocument {
        self.0
    }
}

/// Validates a document read from KDL; every document read is valid.
pub fn validate(document: RawDocument) -> (r: Result<Document, Diagnostic>)
    ensures
        r matches Ok(d) && d.raw() == document,
{
    Ok(Document(document))
}

/// `d` is the JSON definition `s` read from KDL, its field types converted
/// with the names bound in `names`, then its references by name resolved
/// with all the names of the registry.
pub open spec fn json_read_as(d: Definition, s: schema::JsonDefinition, names: Seq<(Seq<char>, usize)>, all_names: Seq<(Seq<char>, usize)>) -> bool {
    exists|j: Json| #[trigger] json_converts(j, s, names) && resolved_definition(all_names, Definition::Json(j), d)
}

/// The names a document binds: its enums, then its JSON definitions, each
/// bound to its place in the registry.
pub open spec fn document_names(doc: RawDocument) -> Seq<(Seq<char>, usize)> {
    enum_names(doc.enum_definitions@, 0) + json_names(doc.json_definitions@, doc.enum_definitions@.len())
}

/// The first name in the datatype `m`, depth first and left to right,
/// that `names` does not bind.
pub open spec fn model_missing(names: Seq<(Seq<char>, usize)>, m: TypeModel) -> Option<Seq<char>>
    decreases m,
{
    match m {
        TypeModel::Custom { name, .. } => if lookup(names, name) is Some {
            None
        } else {
            Some(name)
        },
        TypeModel::Array { inner, .. } => model_missing(names, *inner),
        TypeModel::StringArray { inner, .. } => model_missing(names, *inner),
        TypeModel::Dictionary { key, value } => match model_missing(names, *key) {
            Some(n) => Some(n),
            None => model_missing(names, *value),
        },
        _ => None,
    }
}

/// The field's type, or a type inside it, names a definition that the
/// document does not define.
pub open spec fn refers_to_undefined(doc: RawDocument, g: schema::JsonField) -> bool {
    model_missing(document_names(doc), g.type_.model()) is Some
}

/// A name bound in a prefix of the names stays bound in all of them.
proof fn lemma_lookup_extend(pre: Seq<(Seq<char>, usize)>, all: Seq<(Seq<char>, usize)>, name: Seq<char>)
    requires
        pre.len() <= all.len(),
        all.take(pre.len() as int) == pre,
        lookup(pre, name) is Some,
    ensures
        lookup(all, name) is Some,
    decreases all.len(),
{
    if all.len() > pre.len() {
        if all.last().0 != name {
            assert(all.drop_last().take(pre.len() as int) =~= pre);
            lemma_lookup_extend(pre, all.drop_last(), name);
        }
    } else {
        assert(all.take(pre.len() as int) =~= all);
    }
}

/// A type converted with the names bound so far misses, among all the
/// names, the same name as the datatype it was read from.
proof fn lemma_converts_missing(m: TypeModel, d: &DataType, pre: Seq<(Seq<char>, usize)>, all: Seq<(Seq<char>, usize)>)
    requires
        to_intermediate::converts(m, *d, pre),
        pre.len() <= all.len(),
        all.take(pre.len() as int) == pre,
    ensures
        first_missing(all, *d) == model_missing(all, m),
    decreases m,
{
    match (m, d) {
        (TypeModel::Custom { name, .. }, _) => {
            if lookup(pre, name) is Some {
                lemma_lookup_extend(pre, all, name);
            }
        },
        (TypeModel::Array { inner, .. }, DataType::Array { inner_type, .. }) => {
            lemma_converts_missing(*inner, &**inner_type, pre, all);
        },
        (TypeModel::StringArray { inner, .. }, DataType::StringArray { inner_type, .. }) => {
            lemma_converts_missing(*inner, &**inner_type, pre, all);
        },
        (TypeModel::Dictionary { key, value }, DataType::Dictionary { key: k2, value: v2 }) => {
            lemma_converts_missing(*key, &**k2, pre, all);
            lemma_converts_missing(*value, &**v2, pre, all);
        },
        _ => {},
    }
}

/// Some field of a JSON definition of the document refers to a name that
/// the document does not bind.
pub open spec fn has_undefined_reference(doc: RawDocument) -> bool {
    exists|k: int, f: int|
        0 <= k < doc.json_definitions@.len() && 0 <= f < doc.json_definitions@[k].fields@.len()
            && #[trigger] refers_to_undefined(doc, doc.json_definitions@[k].fields@[f])
}

/// `d` reports that the field `g` of `s` refers, by `name`, to a definition
/// that does not exist.
pub open spec fn reports_undefined(d: Diagnostic, s: schema::JsonDefinition, g: schema::JsonField, name: Seq<char>) -> bool {
    &&& d.message@ == "could not find definition `"@ + name + "`"@
    &&& d.severity == Severity::Error
    &&& d.source_info == s.source_info
    &&& d.span == g.span
}

/// `reg` is the registry made of `raw`: its enum definitions first, then
/// its JSON definitions, each in order, converted (each variant and field
/// as read, with its type converted) and with every reference by name
/// resolved.
pub open spec fn registry_reads(raw: RawDocument, reg: DefinitionRegistry) -> bool {
    let el = raw.enum_definitions@.len();
    &&& all_resolved(reg.definitions())
    &&& reg.definitions().len() == el + raw.json_definitions@.len()
    &&& forall|k: int| 0 <= k < el ==> #[trigger] reg.definitions()[k].spec_name() == enum_name(raw.enum_definitions@[k])
    &&& forall|k: int| 0 <= k < raw.json_definitions@.len() ==> #[trigger] reg.definitions()[el + k].spec_name()
        == raw.json_definitions@[k].name@
    &&& forall|k: int| 0 <= k < el ==> enum_converts(reg.definitions()[k], #[trigger] raw.enum_definitions@[k])
    &&& forall|k: int| 0 <= k < raw.json_definitions@.len() ==> #[trigger] json_read_as(
        reg.definitions()[el + k],
        raw.json_definitions@[k],
        reg.names().take(el + k),
        reg.names(),
    )
}

/// Converts a [`Document`] into a registry of definitions: the enums
/// first, then the JSON definitions, each in order, with every reference
/// by name resolved; fails, as [`PartialDefinitionRegistry::finalize`]
/// does, on a field whose type, or a type inside it, names no definition.
/// The references must fit the registry's `u32` edge indices, which
/// `requires` states.
pub fn document_to_definitions(document: Document) -> (r: Result<DefinitionRegistry, Diagnostic>)
    requires
        document.raw().enum_definitions@.len() + document.raw().json_definitions@.len() < u32::MAX,
        structs_refs(document.raw().json_definitions@) < u32::MAX,
    ensures
        !has_undefined_reference(document.raw()) ==> r is Ok,
        r matches Err(d) ==> exists|k: int, f: int|
            0 <= k < document.raw().json_definitions@.len() && 0 <= f < document.raw().json_definitions@[k].fields@.len()
                && #[trigger] refers_to_undefined(document.raw(), document.raw().json_definitions@[k].fields@[f])
                && reports_undefined(
                d,
                document.raw().json_definitions@[k],
                document.raw().json_definitions@[k].fields@[f],
                model_missing(document_names(document.raw()), document.raw().json_definitions@[k].fields@[f].type_.model())->0,
            ),
        r matches Ok(reg) ==> registry_reads(document.raw(), reg),
{
    let Document(raw) = document;
    let ghost e0 = raw.enum_definitions@;
    let ghost j0 = raw.json_definitions@;
    let RawDocument { filepath: _, json_definitions, http_definitions: _, enum_definitions } = raw;
    assert(enum_definitions@ == e0);
    assert(json_definitions@ == j0);
    let mut registry = PartialDefinitionRegistry::new();
    add_enum_definitions(&mut registry, enum_definitions);
    let ghost after_enums = registry.definitions();
    add_json_definitions(&mut registry, json_definitions);
    proof {
        assert forall|k: int| 0 <= k < e0.len() implies #[trigger] registry.definitions()[k].spec_name() == enum_name(e0[k]) by {
            assert(registry.definitions()[k] == after_enums[k]);
            assert(after_enums[0 + k].spec_name() == enum_name(e0[k]));
        }
    }
    let ghost before = registry.definitions();
    let ghost el = e0.len();
    proof {
        assert(Seq::<(Seq<char>, usize)>::empty() + enum_names(e0, 0) =~= enum_names(e0, 0));
    }
    proof {
        lemma_all_counts(registry.names(), registry.definitions());
    }
    match registry.finalize() {
        Ok(reg) => {
            proof {
                assert forall|k: int| 0 <= k < before.len() implies #[trigger] reg.definitions()[k].spec_name() == before[k].spec_name() by {
                    assert(resolved_definition(registry.names(), before[k], reg.definitions()[k]));
                }
                assert forall|k: int| 0 <= k < e0.len() implies enum_converts(reg.definitions()[k], #[trigger] e0[k]) by {
                    assert(resolved_definition(registry.names(), before[k], reg.definitions()[k]));
                    assert(before[k] == after_enums[k]);
                    assert(enum_converts(after_enums[0 + k], e0[k]));
                }
                assert forall|k: int| 0 <= k < j0.len() implies #[trigger] json_read_as(
                    reg.definitions()[el + k],
                    j0[k],
                    reg.names().take(el + k),
                    reg.names(),
                ) by {
                    let names_k = enum_names(e0, 0) + json_names(j0.take(k), el);
                    assert(json_names(j0, el).take(k) =~= json_names(j0.take(k), el));
                    assert(reg.names().take(el + k) =~= names_k);
                    assert(before[el + k] matches Definition::Json(jj) && json_converts(jj, j0[k], names_k));
                    assert(resolved_definition(registry.names(), before[el + k], reg.definitions()[el + k]));
                }
            }
            Ok(reg)
        },
        Err(d) => {
            proof {
                let names = registry.names();
                assert(names =~= document_names(document.raw()));
                lemma_first_unresolved_at(names, before);
                let (i, kk) = first_unresolved(names, before)->Some_0;
                if i < el {
                    assert(before[i] == after_enums[i]);
                    assert(enum_converts(after_enums[0 + i], e0[i]));
                    assert(false);
                }
                let k = i - el;
                let names_k = enum_names(e0, 0) + json_names(j0.take(k), el);
                assert(before[el + k] matches Definition::Json(jj) && json_converts(jj, j0[k], names_k));
                let jj = before[i]->Json_0;
                assert(is_missing_definition(d, jj, jj.fields@[kk], first_missing(names, jj.fields@[kk].type_)->0));
                assert(sourced(jj.fields@[kk], j0[k].fields@, field_rel(names_k)));
                let f = choose|f: int| 0 <= f < j0[k].fields@.len() && #[trigger] field_rel(names_k)(jj.fields@[kk], j0[k].fields@[f]);
                assert(field_from(jj.fields@[kk], j0[k].fields@[f], names_k));
                assert(json_names(j0, el).take(k) =~= json_names(j0.take(k), el));
                assert(names.take(names_k.len() as int) =~= names_k);
                lemma_converts_missing(j0[k].fields@[f].type_.model(), &jj.fields@[kk].type_, names_k, names);
                assert(refers_to_undefined(document.raw(), j0[k].fields@[f]));
                assert(reports_undefined(d, j0[k], j0[k].fields@[f], model_missing(names, j0[k].fields@[f].type_.model())->0));
            }
            Err(d)
        },
    }
}

} // verus!

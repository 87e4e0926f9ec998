//! Packet definition toolkit: parses KDL descriptions of network packets
//! into a registry of definitions, and generates C++ sources from it.

pub mod text;

pub mod kdl_parser;

pub mod intermediate;

pub mod vfs;

pub mod generators;

use vstd::prelude::*;
use intermediate::registry::DefinitionRegistry;
use intermediate::schema::Definition;
use kdl_parser::document::{kdl_parse, Node};
use kdl_parser::errors::SourceInfo;
use kdl_parser::json_parser::json_is;
use kdl_parser::parser::enum_is;
use kdl_parser::schema::RawDocument;
use std::sync::Arc;
use kdl_parser::errors::{ParsingError, ParsingWarnings};
use kdl_parser::parser::{
    has_error, ends_with_definitions_of, enum_outcomes, json_models, outcome_name, raw_parse_normalized, reads_document,
    ParserOpts, UnparsedKdl,
};
use kdl_parser::to_intermediate::structs_refs;
use kdl_parser::{has_undefined_reference, registry_reads};
use vfs::{VfsError, VfsPathBuf};
use kdl_parser::to_intermediate::enum_name;
use vfs::Vfs;

verus! {

/// Some definition is named `name`.
pub open spec fn defines(defs: Seq<Definition>, name: Seq<char>) -> bool {
    exists|i: int| 0 <= i < defs.len() && #[trigger] defs[i].spec_name() == name
}

/// What making a registry of what was read gives: an error while reading
/// is the error; too many definitions, or references between them, for
/// the registry's `u32` indices fail; otherwise the registry is made of
/// what was read as [`registry_reads`] says, which succeeds where no field
/// refers to a name that the document does not define, and fails only
/// with a diagnostic for such a field.
pub open spec fn registry_outcome(
    read: Result<(RawDocument, ParsingWarnings), ParsingError>,
    r: Result<(DefinitionRegistry, ParsingWarnings), ParsingError>,
) -> bool {
    match read {
        Err(e) => r == Err::<(DefinitionRegistry, ParsingWarnings), ParsingError>(e),
        Ok((raw, w)) => if raw.enum_definitions@.len() + raw.json_definitions@.len() >= u32::MAX || structs_refs(
            raw.json_definitions@,
        ) >= u32::MAX {
            r matches Err(ParsingError::GenericIoError { .. })
        } else {
            &&& !has_undefined_reference(raw) ==> r is Ok
            &&& r matches Ok((reg, w2)) ==> w2 == w && registry_reads(raw, reg)
            &&& r matches Err(e) ==> has_undefined_reference(raw) && (e matches ParsingError::Diagnostics { diagnostics, .. }
                && diagnostics@.len() == 1)
        },
    }
}

/// Parses a KDL document, and the documents it imports, into a registry of
/// definitions, with `first_path` what the file system gave as the
/// normalized path of the document: when that failed, parsing fails with
/// the file system's message; otherwise the document is read as
/// [`reads_document`] says, and a registry is made of what was read as
/// [`registry_outcome`] says.
pub fn parse_kdl_normalized<V: Vfs>(
    document: &str,
    filepath: &str,
    first_path: Result<VfsPathBuf, VfsError>,
    opts: &ParserOpts<V>,
) -> (r: Result<(DefinitionRegistry, ParsingWarnings), ParsingError>)
    ensures
        first_path matches Err(e) ==> (r matches Err(ParsingError::GenericIoError { reason }) && reason@ == e.message@),
        first_path is Ok ==> exists|d0: UnparsedKdl, read: Result<(RawDocument, ParsingWarnings), ParsingError>|
            d0.content@ == document@ && d0.path@ == filepath@ && #[trigger] reads_document(d0, read)
                && registry_outcome(read, r),
        !(r matches Err(ParsingError::NoDocumentProvided)),
        kdl_parse(document@) is Err ==> r matches Err(ParsingError::KdlError { .. }) || r matches Err(ParsingError::GenericIoError { .. }),
        kdl_parse(document@) matches Ok(t) ==> (has_error(t.nodes@) ==> r is Err),
        r matches Ok((reg, _)) ==> (kdl_parse(document@) matches Ok(t) ==> (forall|k: int|
            0 <= k < json_models(t.nodes@).len() ==> defines(reg.definitions(), #[trigger] json_models(t.nodes@)[k].name))
            && (forall|k: int|
            0 <= k < enum_outcomes(t.nodes@).len() ==> defines(reg.definitions(), outcome_name(#[trigger] enum_outcomes(t.nodes@)[k])))),
{
    let mut docs: Vec<UnparsedKdl> = Vec::new();
    docs.push(UnparsedKdl::new(document, filepath));
    let ghost doc0 = docs@[0];
    let ghost fp = first_path;
    let mut paths: Vec<Result<VfsPathBuf, VfsError>> = Vec::new();
    paths.push(first_path);
    assert(paths@[0] == fp);
    let read_result = raw_parse_normalized(docs.as_slice(), &paths, opts);
    let ghost read0 = read_result;
    let (raw, warnings) = match read_result {
        Err(e) => {
            proof {
                if fp is Ok {
                    assert(reads_document(doc0, read0));
                    assert(registry_outcome(read0, Err(e)));
                }
            }
            return Err(e);
        },
        Ok(r) => r,
    };
    let ghost read = raw;
    assert(reads_document(doc0, Ok((raw, warnings))));
    if raw.enum_definitions.len() >= u32::MAX as usize || raw.json_definitions.len() >= u32::MAX as usize - raw.enum_definitions.len() {
        let r = Err(ParsingError::GenericIoError { reason: "too many definitions for the registry".to_owned() });
        assert(registry_outcome(read0, r));
        return r;
    }
    if kdl_parser::to_intermediate::count_references(&raw.json_definitions) >= u32::MAX as u64 {
        let r = Err(ParsingError::GenericIoError { reason: "too many references between definitions for the registry".to_owned() });
        assert(registry_outcome(read0, r));
        return r;
    }
    let document = match kdl_parser::validate(raw) {
        Err(d) => {
            return Err(ParsingError::from_diagnostic(d));
        },
        Ok(d) => d,
    };
    match kdl_parser::document_to_definitions(document) {
        Err(d) => {
            let r = Err(ParsingError::from_diagnostic(d));
            assert(registry_outcome(read0, r));
            r
        },
        Ok(reg) => {
            proof {
                if let Ok(t) = kdl_parse(doc0.content@) {
                    if t.nodes@.len() > 0 {
                        let src = choose|src: Arc<SourceInfo>|
                            src.name@ == doc0.path@ && src.source_code@ == doc0.content@
                                && #[trigger] ends_with_definitions_of(read, t.nodes@, src);
                        lemma_registry_defines(t.nodes@, read, src, reg.definitions());
                    }
                }
            }
            let r = Ok((reg, warnings));
            assert(registry_outcome(read0, r));
            r
        },
    }
}

/// Parses a KDL document, and the documents it imports, into a registry of
/// definitions that source code can be generated from: text that is not
/// KDL is refused with the KDL parser's diagnostics, a document with a
/// problem in its definitions is refused, and every definition written in
/// the document is in the registry. The file system normalizes the
/// document's path first, and may fail to: see [`parse_kdl_normalized`]
/// for what is read from each outcome.
pub fn parse_kdl<V: Vfs>(document: &str, filepath: &str, opts: &ParserOpts<V>) -> (r: Result<(DefinitionRegistry, ParsingWarnings), ParsingError>)
    ensures
        !(r matches Err(ParsingError::NoDocumentProvided)),
        r matches Err(ParsingError::GenericIoError { .. }) || exists|d0: UnparsedKdl, read: Result<(RawDocument, ParsingWarnings), ParsingError>|
            d0.content@ == document@ && d0.path@ == filepath@ && #[trigger] reads_document(d0, read)
                && registry_outcome(read, r),
        kdl_parse(document@) is Err ==> r matches Err(ParsingError::KdlError { .. }) || r matches Err(ParsingError::GenericIoError { .. }),
        kdl_parse(document@) matches Ok(t) ==> (has_error(t.nodes@) ==> r is Err),
        r matches Ok((reg, _)) ==> (kdl_parse(document@) matches Ok(t) ==> (forall|k: int|
            0 <= k < json_models(t.nodes@).len() ==> defines(reg.definitions(), #[trigger] json_models(t.nodes@)[k].name))
            && (forall|k: int|
            0 <= k < enum_outcomes(t.nodes@).len() ==> defines(reg.definitions(), outcome_name(#[trigger] enum_outcomes(t.nodes@)[k])))),
{
    let first_path = V::normalize_path(filepath);
    parse_kdl_normalized(document, filepath, first_path, opts)
}

/// The definitions read from the nodes of a document are in a registry
/// built from what was read: the enum definitions first, then the JSON
/// definitions.
proof fn lemma_registry_defines(nodes: Seq<Node>, read: RawDocument, src: Arc<SourceInfo>, defs: Seq<Definition>)
    requires
        ends_with_definitions_of(read, nodes, src),
        defs.len() == read.enum_definitions@.len() + read.json_definitions@.len(),
        forall|k: int| 0 <= k < read.enum_definitions@.len() ==> #[trigger] defs[k].spec_name() == enum_name(read.enum_definitions@[k]),
        forall|k: int| 0 <= k < read.json_definitions@.len() ==> #[trigger] defs[read.enum_definitions@.len() + k].spec_name()
            == read.json_definitions@[k].name@,
    ensures
        forall|k: int| 0 <= k < json_models(nodes).len() ==> defines(defs, #[trigger] json_models(nodes)[k].name),
        forall|k: int| 0 <= k < enum_outcomes(nodes).len() ==> defines(defs, outcome_name(#[trigger] enum_outcomes(nodes)[k])),
{
    let el = read.enum_definitions@.len();
    let jl = read.json_definitions@.len();
    let jm = json_models(nodes);
    let eo = enum_outcomes(nodes);
    assert forall|k: int| 0 <= k < jm.len() implies defines(defs, #[trigger] jm[k].name) by {
        let j = jl - jm.len() + k;
        assert(json_is(read.json_definitions@[j], jm[k], src));
        assert(defs[el + j].spec_name() == read.json_definitions@[j].name@);
    }
    assert forall|k: int| 0 <= k < eo.len() implies defines(defs, outcome_name(#[trigger] eo[k])) by {
        let e = el - eo.len() + k;
        assert(enum_is(read.enum_definitions@[e], eo[k], src));
        assert(defs[e].spec_name() == enum_name(read.enum_definitions@[e]));
    }
}

} // verus!

//! Reading whole KDL documents: their definitions, and the documents they
//! import.

use std::sync::Arc;
use vstd::prelude::*;
use super::document::{kdl_parse, nth_argument, parse_kdl_text, KdlProblem, Node, NodeList, Value};
use super::enum_parser::{
    int_enum_is, parse_int_enum_definition, parse_string_enum_definition, spec_parse_int_enum,
    spec_parse_string_enum, string_enum_is, IntEnumModel, StringEnumModel,
};
use super::errors::{share_source, Diagnostic, ParsingError, ParsingWarnings, Severity, SourceInfo, Span};
use super::extract::{says, Report};
use super::json_parser::{json_is, parse_data_definition, spec_parse_data_definition, JsonModel, ParseFailure};
use super::schema::{EnumDefinition, JsonDefinition, RawDocument};
use super::type_parser::is_failure_diagnostic;
use crate::text::{push_char, str_equal};
use crate::vfs::{Vfs, VfsError, VfsPath, VfsPathBuf};

verus! {

/// A document not parsed yet: its text and path.
#[derive(Debug)]
pub struct UnparsedKdl {
    pub content: String,
    pub path: String,
}

impl UnparsedKdl {
    pub fn new(content: &str, path: &str) -> (r: UnparsedKdl)
        ensures
            r.content@ == content@,
            r.path@ == path@,
    {
        UnparsedKdl { content: content.to_owned(), path: path.to_owned() }
    }

    pub fn new_owned(content: String, path: String) -> (r: UnparsedKdl)
        ensures
            r.content == content,
            r.path == path,
    {
        UnparsedKdl { content, path }
    }
}

/// Options of the parser: the file system it reads imports from.
#[derive(Debug)]
pub struct ParserOpts<V: Vfs> {
    pub vfs: V,
}

impl<V: Vfs> ParserOpts<V> {
    pub fn new(vfs: V) -> (r: ParserOpts<V>)
        ensures
            r.vfs == vfs,
    {
        ParserOpts { vfs }
    }
}

/// What reading one top-level node gives.
pub enum NodeOutcome {
    Json(JsonModel),
    IntEnum(IntEnumModel),
    StringEnum(StringEnumModel),
    Failed(ParseFailure),
    Unrecognized,
    Ignored,
}

/// The top-level node `n`, the `index`-th of its document.
pub open spec fn node_outcome(n: Node, index: usize) -> NodeOutcome {
    if n.name@ == "json"@ {
        match spec_parse_data_definition(n, index) {
            Ok(m) => NodeOutcome::Json(m),
            Err(f) => NodeOutcome::Failed(f),
        }
    } else if n.name@ == "int-enum"@ {
        match spec_parse_int_enum(n, index) {
            Ok(m) => NodeOutcome::IntEnum(m),
            Err(r) => NodeOutcome::Failed(ParseFailure::Report(r)),
        }
    } else if n.name@ == "str-enum"@ {
        match spec_parse_string_enum(n, index) {
            Ok(m) => NodeOutcome::StringEnum(m),
            Err(r) => NodeOutcome::Failed(ParseFailure::Report(r)),
        }
    } else if n.name@ == "http"@ || n.name@ == "xml"@ || n.name@ == "plist"@ || n.name@ == "import"@ {
        NodeOutcome::Ignored
    } else {
        NodeOutcome::Unrecognized
    }
}

/// The JSON definitions read from the nodes, in order.
pub open spec fn json_models(nodes: Seq<Node>) -> Seq<JsonModel>
    decreases nodes.len(),
{
    if nodes.len() == 0 {
        Seq::empty()
    } else {
        json_models(nodes.drop_last()) + match node_outcome(nodes.last(), (nodes.len() - 1) as usize) {
            NodeOutcome::Json(m) => seq![m],
            _ => Seq::empty(),
        }
    }
}

/// The enum definitions read from the nodes, in order.
pub open spec fn enum_outcomes(nodes: Seq<Node>) -> Seq<NodeOutcome>
    decreases nodes.len(),
{
    if nodes.len() == 0 {
        Seq::empty()
    } else {
        enum_outcomes(nodes.drop_last()) + match node_outcome(nodes.last(), (nodes.len() - 1) as usize) {
            NodeOutcome::IntEnum(m) => seq![NodeOutcome::IntEnum(m)],
            NodeOutcome::StringEnum(m) => seq![NodeOutcome::StringEnum(m)],
            _ => Seq::empty(),
        }
    }
}

/// The nodes that give a diagnostic, with what they give, in order.
pub open spec fn diagnosed(nodes: Seq<Node>) -> Seq<(Node, NodeOutcome)>
    decreases nodes.len(),
{
    if nodes.len() == 0 {
        Seq::empty()
    } else {
        diagnosed(nodes.drop_last()) + match node_outcome(nodes.last(), (nodes.len() - 1) as usize) {
            NodeOutcome::Failed(f) => seq![(nodes.last(), NodeOutcome::Failed(f))],
            NodeOutcome::Unrecognized => seq![(nodes.last(), NodeOutcome::Unrecognized)],
            _ => Seq::empty(),
        }
    }
}

/// How serious the diagnostic a node gives is: a type that cannot be read
/// is an error, an unrecognized node a warning, and a definition that
/// cannot be read is as serious as its report says.
pub open spec fn outcome_severity(o: NodeOutcome) -> Severity {
    match o {
        NodeOutcome::Failed(ParseFailure::Report(r)) => r.severity,
        NodeOutcome::Failed(ParseFailure::Type { .. }) => Severity::Error,
        _ => Severity::Warning,
    }
}

/// Some node gives an error, not only a warning or an advice.
pub open spec fn has_error(nodes: Seq<Node>) -> bool {
    exists|k: int| 0 <= k < diagnosed(nodes).len() && outcome_severity(#[trigger] diagnosed(nodes)[k].1) == Severity::Error
}

/// The name of the enum definition a node gives.
pub open spec fn outcome_name(o: NodeOutcome) -> Seq<char> {
    match o {
        NodeOutcome::IntEnum(m) => m.name,
        NodeOutcome::StringEnum(m) => m.name,
        NodeOutcome::Json(m) => m.name,
        _ => Seq::empty(),
    }
}

pub open spec fn enum_is(e: EnumDefinition, o: NodeOutcome, src: Arc<SourceInfo>) -> bool {
    match (e, o) {
        (EnumDefinition::IntEnum(d), NodeOutcome::IntEnum(m)) => int_enum_is(d, m, src),
        (EnumDefinition::StringEnum(d), NodeOutcome::StringEnum(m)) => string_enum_is(d, m, src),
        _ => false,
    }
}

/// `d` is the diagnostic that node `n` gives.
pub open spec fn diagnostic_is(d: Diagnostic, n: Node, o: NodeOutcome, src: Arc<SourceInfo>) -> bool {
    match o {
        NodeOutcome::Failed(ParseFailure::Report(r)) => says(d, r, src),
        NodeOutcome::Failed(ParseFailure::Type { text, failure, at }) => is_failure_diagnostic(d, text, failure, src, at),
        NodeOutcome::Unrecognized => says(
            d,
            Report { message: "unrecognized node `"@ + n.name@ + "`"@, severity: Severity::Warning, span: n.span, help: None },
            src,
        ),
        _ => false,
    }
}

/// The diagnostic of a node is as serious as [`outcome_severity`] says.
proof fn lemma_diagnostic_severity(d: Diagnostic, n: Node, o: NodeOutcome, src: Arc<SourceInfo>)
    requires
        diagnostic_is(d, n, o, src),
    ensures
        d.severity == outcome_severity(o),
{
}

fn take_single(e: ParsingError) -> (d: Diagnostic)
    requires
        e matches ParsingError::Diagnostics { diagnostics, .. } && diagnostics@.len() == 1,
    ensures
        e matches ParsingError::Diagnostics { diagnostics, .. } && d == diagnostics@[0],
{
    match e {
        ParsingError::Diagnostics { mut diagnostics, .. } => diagnostics.remove(0),
        _ => Diagnostic {
            message: String::new(),
            severity: Severity::Error,
            source_info: Arc::new(SourceInfo { name: String::new(), source_code: String::new() }),
            span: Span { offset: 0, len: 0 },
            help: None,
            label: None,
            related: Vec::new(),
        },
    }
}

/// Reads the top-level nodes of a document: `json`, `int-enum` and
/// `str-enum` definitions are added to `raw_document`; `http`, `xml`,
/// `plist` and `import` nodes are skipped; a definition that cannot be read
/// and an unknown node each give one diagnostic, returned in order.
pub fn parse_all_definitions(raw_document: &mut RawDocument, definitions: &[Node], source_info: &Arc<SourceInfo>) -> (r: Result<Vec<Diagnostic>, ParsingError>)
    ensures
        final(raw_document).filepath == old(raw_document).filepath,
        final(raw_document).http_definitions == old(raw_document).http_definitions,
        r matches Ok(diags) && {
            &&& final(raw_document).json_definitions@.len() == old(raw_document).json_definitions@.len() + json_models(definitions@).len()
            &&& forall|k: int| 0 <= k < old(raw_document).json_definitions@.len() ==> #[trigger] final(raw_document).json_definitions@[k] == old(raw_document).json_definitions@[k]
            &&& forall|k: int| 0 <= k < json_models(definitions@).len() ==> json_is(
                #[trigger] final(raw_document).json_definitions@[old(raw_document).json_definitions@.len() + k],
                json_models(definitions@)[k],
                *source_info,
            )
            &&& final(raw_document).enum_definitions@.len() == old(raw_document).enum_definitions@.len() + enum_outcomes(definitions@).len()
            &&& forall|k: int| 0 <= k < old(raw_document).enum_definitions@.len() ==> #[trigger] final(raw_document).enum_definitions@[k] == old(raw_document).enum_definitions@[k]
            &&& forall|k: int| 0 <= k < enum_outcomes(definitions@).len() ==> enum_is(
                #[trigger] final(raw_document).enum_definitions@[old(raw_document).enum_definitions@.len() + k],
                enum_outcomes(definitions@)[k],
                *source_info,
            )
            &&& diags@.len() == diagnosed(definitions@).len()
            &&& forall|k: int| 0 <= k < diags@.len() ==> diagnostic_is(#[trigger] diags@[k], diagnosed(definitions@)[k].0, diagnosed(definitions@)[k].1, *source_info)
        },
{
    let ghost j0 = raw_document.json_definitions@;
    let ghost e0 = raw_document.enum_definitions@;
    let mut all: Vec<Diagnostic> = Vec::new();
    let mut i: usize = 0;
    assert(definitions@.take(0) =~= Seq::<Node>::empty());
    while i < definitions.len()
        invariant
            i <= definitions@.len(),
            raw_document.filepath == old(raw_document).filepath,
            raw_document.http_definitions == old(raw_document).http_definitions,
            j0 == old(raw_document).json_definitions@,
            e0 == old(raw_document).enum_definitions@,
            raw_document.json_definitions@.len() == j0.len() + json_models(definitions@.take(i as int)).len(),
            forall|k: int| 0 <= k < j0.len() ==> #[trigger] raw_document.json_definitions@[k] == j0[k],
            forall|k: int| 0 <= k < json_models(definitions@.take(i as int)).len() ==> json_is(
                #[trigger] raw_document.json_definitions@[j0.len() + k],
                json_models(definitions@.take(i as int))[k],
                *source_info,
            ),
            raw_document.enum_definitions@.len() == e0.len() + enum_outcomes(definitions@.take(i as int)).len(),
            forall|k: int| 0 <= k < e0.len() ==> #[trigger] raw_document.enum_definitions@[k] == e0[k],
            forall|k: int| 0 <= k < enum_outcomes(definitions@.take(i as int)).len() ==> enum_is(
                #[trigger] raw_document.enum_definitions@[e0.len() + k],
                enum_outcomes(definitions@.take(i as int))[k],
                *source_info,
            ),
            all@.len() == diagnosed(definitions@.take(i as int)).len(),
            forall|k: int| 0 <= k < all@.len() ==> diagnostic_is(
                #[trigger] all@[k],
                diagnosed(definitions@.take(i as int))[k].0,
                diagnosed(definitions@.take(i as int))[k].1,
                *source_info,
            ),
        decreases definitions@.len() - i,
    {
        let ghost t = definitions@.take(i + 1);
        assert(t.drop_last() =~= definitions@.take(i as int));
        assert(t.last() == definitions@[i as int]);
        let ghost jm = json_models(definitions@.take(i as int));
        let ghost eo = enum_outcomes(definitions@.take(i as int));
        let ghost dg = diagnosed(definitions@.take(i as int));
        let ghost outcome = node_outcome(definitions@[i as int], i);
        let def = &definitions[i];
        let name = def.name.as_str();
        if str_equal(name, "json") {
            match parse_data_definition(def, source_info, i) {
                Ok(d) => {
                    raw_document.json_definitions.push(d);
                },
                Err(e) => {
                    let d = take_single(e);
                    all.push(d);
                },
            }
        } else if str_equal(name, "int-enum") {
            match parse_int_enum_definition(def, source_info, i) {
                Ok(d) => {
                    raw_document.enum_definitions.push(EnumDefinition::IntEnum(d));
                },
                Err(e) => {
                    let d = take_single(e);
                    all.push(d);
                },
            }
        } else if str_equal(name, "str-enum") {
            match parse_string_enum_definition(def, source_info, i) {
                Ok(d) => {
                    raw_document.enum_definitions.push(EnumDefinition::StringEnum(d));
                },
                Err(e) => {
                    let d = take_single(e);
                    all.push(d);
                },
            }
        } else if str_equal(name, "http") || str_equal(name, "xml") || str_equal(name, "plist") || str_equal(name, "import") {
        } else {
            let mut m = "unrecognized node `".to_owned();
            m.append(name);
            m.append("`");
            all.push(Diagnostic {
                message: m,
                severity: Severity::Warning,
                source_info: share_source(source_info),
                span: def.span,
                help: None,
                label: None,
                related: Vec::new(),
            });
        }
        proof {
            let jm2 = json_models(definitions@.take(i + 1));
            let eo2 = enum_outcomes(definitions@.take(i + 1));
            let dg2 = diagnosed(definitions@.take(i + 1));
            assert forall|k: int| 0 <= k < jm2.len() implies json_is(
                #[trigger] raw_document.json_definitions@[j0.len() + k],
                jm2[k],
                *source_info,
            ) by {
                if k < jm.len() {
                    assert(jm2[k] == jm[k]);
                }
            }
            assert forall|k: int| 0 <= k < eo2.len() implies enum_is(
                #[trigger] raw_document.enum_definitions@[e0.len() + k],
                eo2[k],
                *source_info,
            ) by {
                if k < eo.len() {
                    assert(eo2[k] == eo[k]);
                }
            }
            assert forall|k: int| 0 <= k < all@.len() implies diagnostic_is(
                #[trigger] all@[k],
                dg2[k].0,
                dg2[k].1,
                *source_info,
            ) by {
                if k < dg.len() {
                    assert(dg2[k] == dg[k]);
                }
            }
        }
        i = i + 1;
    }
    assert(definitions@.take(i as int) =~= definitions@);
    Ok(all)
}


/// `p` adjoined to `dir`, as `std::path::Path::join` does on Unix: an
/// absolute `p` replaces `dir`; otherwise `p` comes after `dir`, with a `/`
/// between them unless `dir` is empty or already ends with one.
pub open spec fn joined_path(dir: Seq<char>, p: Seq<char>) -> Seq<char> {
    if p.len() > 0 && p[0] == '/' {
        p
    } else if dir.len() > 0 && dir.last() != '/' {
        dir + seq!['/'] + p
    } else {
        dir + p
    }
}

/// What `std::path::Path::parent` gives for a path.
pub uninterp spec fn parent_path(p: Seq<char>) -> Option<Seq<char>>;

/// `dir` joined with `p`, as [`joined_path`] says.
fn join_path(dir: &str, p: &str) -> (r: String)
    ensures
        r@ == joined_path(dir@, p@),
{
    let plen = p.unicode_len();
    if plen > 0 && p.get_char(0) == '/' {
        return p.to_owned();
    }
    let dlen = dir.unicode_len();
    let mut out = dir.to_owned();
    if dlen > 0 && dir.get_char(dlen - 1) != '/' {
        push_char(&mut out, '/');
    }
    out.append(p);
    out
}

/// The directory of a path (`Path::parent`), if it has one.
#[verifier::external_body]
fn path_parent(p: &str) -> (r: Option<String>)
    ensures
        match (r, parent_path(p@)) {
            (Some(a), Some(b)) => a@ == b,
            (None, None) => true,
            _ => false,
        },
{
    std::path::Path::new(p).parent().map(|d| d.to_string_lossy().into_owned())
}

fn contains_text(v: &Vec<String>, s: &str) -> (r: bool)
    ensures
        r == exists|k: int| 0 <= k < v@.len() && #[trigger] v@[k]@ == s@,
{
    let mut k: usize = 0;
    while k < v.len()
        invariant
            k <= v@.len(),
            forall|t: int| 0 <= t < k ==> #[trigger] v@[t]@ != s@,
        decreases v@.len() - k,
    {
        if str_equal(v[k].as_str(), s) {
            return true;
        }
        k = k + 1;
    }
    false
}

fn io_error(e: VfsError) -> (r: ParsingError)
    ensures
        r matches ParsingError::GenericIoError { reason } && reason@ == e.message@,
{
    ParsingError::GenericIoError { reason: e.message }
}

/// The warning for an import that leads back to a document already read.
pub open spec fn is_cycle_warning(d: Diagnostic, node: Node, src: Arc<SourceInfo>) -> bool {
    &&& d.severity == Severity::Warning
    &&& d.source_info == src
    &&& d.span == node.span
    &&& d.label matches Some(l) && l@ == "this file imports the current one"@
    &&& d.related@.len() == 1
    &&& d.related@[0].message@ == "break the cycle between `import`s"@
    &&& d.related@[0].severity == Severity::Advice
}

fn cycle_warning(node: &Node, cyclic: &str, src: &Arc<SourceInfo>) -> (d: Diagnostic)
    ensures
        is_cycle_warning(d, *node, *src),
        d.message@ == "cycle detected when reading \""@ + cyclic@ + "\""@,
{
    let mut m = "cycle detected when reading \"".to_owned();
    m.append(cyclic);
    m.append("\"");
    let mut h = cyclic.to_owned();
    h.append(" imports\n-> ");
    h.append(src.name.as_str());
    h.append(", which imports\n--> ");
    h.append(cyclic);
    h.append(" and so on...\nThe parser will parse \"");
    h.append(cyclic);
    h.append("\" once, however keep in mind that this cycle implies that the definitions _may_ have cycles between datatypes.");
    let mut related: Vec<Diagnostic> = Vec::new();
    related.push(Diagnostic {
        message: "break the cycle between `import`s".to_owned(),
        severity: Severity::Advice,
        source_info: share_source(src),
        span: node.span,
        help: None,
        label: None,
        related: Vec::new(),
    });
    Diagnostic {
        message: m,
        severity: Severity::Warning,
        source_info: share_source(src),
        span: node.span,
        help: Some(h),
        label: Some("this file imports the current one".to_owned()),
        related,
    }
}

/// The string argument of an import node.
pub open spec fn import_argument(n: Node) -> Option<Seq<char>> {
    match nth_argument(n.entries@, 0) {
        Some(i) => match n.entries@[i].value {
            Value::String(s) => Some(s@),
            _ => None,
        },
        None => None,
    }
}

/// The import node `n` names `path`, relative to `dir`.
pub open spec fn import_leads_to(n: Node, dir: Seq<char>, path: Seq<char>) -> bool {
    match import_argument(n) {
        Some(a) => path == joined_path(dir, a),
        None => false,
    }
}

/// `s` is one of the texts of `v`.
pub open spec fn holds_text(v: Seq<String>, s: Seq<char>) -> bool {
    exists|t: int| 0 <= t < v.len() && #[trigger] v[t]@ == s
}

/// `p` is the path of one of the import nodes, relative to `dir`, and its
/// normalized form was not read yet.
pub open spec fn is_unvisited_import(nodes: Seq<Node>, dir: Seq<char>, visited: Seq<String>, p: (String, String)) -> bool {
    exists|j: int|
        0 <= j < nodes.len() && nodes[j].name@ == "import"@ && #[trigger] import_leads_to(nodes[j], dir, p.0@)
            && !holds_text(visited, p.1@)
}

/// `d` is the cycle warning of one of the import nodes.
pub open spec fn is_import_cycle_warning(nodes: Seq<Node>, d: Diagnostic, src: Arc<SourceInfo>) -> bool {
    exists|j: int| 0 <= j < nodes.len() && nodes[j].name@ == "import"@ && #[trigger] is_cycle_warning(d, nodes[j], src)
}

/// The import node `n` was dealt with: its argument is a path, and either
/// that path, joined to `dir`, is among `v`, or one of the warnings from
/// index `w0` on says the import leads back to a document already read.
pub open spec fn import_handled(
    n: Node,
    dir: Seq<char>,
    v: Seq<(String, String)>,
    ws: Seq<Diagnostic>,
    w0: int,
    src: Arc<SourceInfo>,
) -> bool {
    match import_argument(n) {
        Some(a) => (exists|k: int| 0 <= k < v.len() && #[trigger] v[k].0@ == joined_path(dir, a)) || (exists|w: int|
            w0 <= w < ws.len() && #[trigger] is_cycle_warning(ws[w], n, src)),
        None => false,
    }
}

proof fn lemma_import_handled_grows(
    n: Node,
    dir: Seq<char>,
    v: Seq<(String, String)>,
    v2: Seq<(String, String)>,
    ws: Seq<Diagnostic>,
    ws2: Seq<Diagnostic>,
    w0: int,
    src: Arc<SourceInfo>,
)
    requires
        0 <= w0,
        import_handled(n, dir, v, ws, w0, src),
        v.len() <= v2.len(),
        forall|k: int| 0 <= k < v.len() ==> #[trigger] v2[k] == v[k],
        ws.len() <= ws2.len(),
        forall|k: int| 0 <= k < ws.len() ==> #[trigger] ws2[k] == ws[k],
    ensures
        import_handled(n, dir, v2, ws2, w0, src),
{
    let a = import_argument(n)->0;
    if exists|k: int| 0 <= k < v.len() && #[trigger] v[k].0@ == joined_path(dir, a) {
        let k = choose|k: int| 0 <= k < v.len() && #[trigger] v[k].0@ == joined_path(dir, a);
        assert(v2[k].0@ == joined_path(dir, a));
    } else {
        let w = choose|w: int| w0 <= w < ws.len() && #[trigger] is_cycle_warning(ws[w], n, src);
        assert(ws2[w] == ws[w]);
        assert(is_cycle_warning(ws2[w], n, src));
    }
}

/// The imports among `nodes` that lead to documents not read yet: each as
/// its path joined to `current_directory` and that path normalized by `V`;
/// an import that leads to a document already read gives a warning
/// instead.
pub fn extract_unvisited_filepaths<V: Vfs>(
    nodes: &[Node],
    callee_source_info: &Arc<SourceInfo>,
    visited_documents: &Vec<String>,
    current_directory: &str,
    warnings: &mut Vec<Diagnostic>,
) -> (r: Result<Vec<(String, String)>, ParsingError>)
    ensures
        final(warnings)@.len() >= old(warnings)@.len(),
        forall|k: int| 0 <= k < old(warnings)@.len() ==> #[trigger] final(warnings)@[k] == old(warnings)@[k],
        forall|k: int| old(warnings)@.len() <= k < final(warnings)@.len() ==> is_import_cycle_warning(
            nodes@,
            #[trigger] final(warnings)@[k],
            *callee_source_info,
        ),
        !(r matches Err(ParsingError::NoDocumentProvided)),
        imports_nothing(nodes@) ==> (r matches Ok(v) && v@.len() == 0 && final(warnings)@ == old(warnings)@),
        r matches Ok(v) ==> forall|k: int| 0 <= k < v@.len() ==> is_unvisited_import(
            nodes@,
            current_directory@,
            visited_documents@,
            #[trigger] v@[k],
        ),
        r matches Ok(v) ==> forall|j: int|
            0 <= j < nodes@.len() && nodes@[j].name@ == "import"@ ==> #[trigger] import_handled(
                nodes@[j],
                current_directory@,
                v@,
                final(warnings)@,
                old(warnings)@.len() as int,
                *callee_source_info,
            ),
{
    let mut out: Vec<(String, String)> = Vec::new();
    let ghost w0 = warnings@;
    let mut i: usize = 0;
    while i < nodes.len()
        invariant
            i <= nodes@.len(),
            warnings@.len() >= w0.len(),
            w0 == old(warnings)@,
            forall|k: int| 0 <= k < w0.len() ==> #[trigger] warnings@[k] == w0[k],
            forall|k: int| w0.len() <= k < warnings@.len() ==> is_import_cycle_warning(
                nodes@,
                #[trigger] warnings@[k],
                *callee_source_info,
            ),
            imports_nothing(nodes@) ==> out@.len() == 0 && warnings@ == w0,
            forall|k: int| 0 <= k < out@.len() ==> is_unvisited_import(
                nodes@,
                current_directory@,
                visited_documents@,
                #[trigger] out@[k],
            ),
            forall|j: int|
                0 <= j < i && nodes@[j].name@ == "import"@ ==> #[trigger] import_handled(
                    nodes@[j],
                    current_directory@,
                    out@,
                    warnings@,
                    w0.len() as int,
                    *callee_source_info,
                ),
        decreases nodes@.len() - i,
    {
        let node = &nodes[i];
        let ghost out_before = out@;
        let ghost warn_before = warnings@;
        if str_equal(node.name.as_str(), "import") {
            proof {
                reveal_strlit("import");
                assert(nodes@[i as int].name@ == "import"@);
            }
            let c = super::json_parser::context(callee_source_info, "document definition".to_owned(), Some(String::new()), Some(String::new()));
            let arg = match node.extract_argument_string(0, &c) {
                Err(e) => {
                    return Err(e);
                },
                Ok(a) => a,
            };
            assert(import_argument(nodes@[i as int]) == Some(arg@));
            let path = join_path(current_directory, arg.as_str());
            let normalized = match V::normalize_path(path.as_str()) {
                Err(e) => {
                    return Err(io_error(e));
                },
                Ok(p) => p,
            };
            let ghost out0 = out@;
            let ghost warn0 = warnings@;
            if contains_text(visited_documents, normalized.0.as_str()) {
                let w = cycle_warning(node, path.as_str(), callee_source_info);
                warnings.push(w);
                assert(is_cycle_warning(warnings@[warnings@.len() - 1], nodes@[i as int], *callee_source_info));
                assert(import_handled(nodes@[i as int], current_directory@, out@, warnings@, w0.len() as int, *callee_source_info));
                proof {
                    assert forall|k: int| w0.len() <= k < warnings@.len() implies is_import_cycle_warning(
                        nodes@,
                        #[trigger] warnings@[k],
                        *callee_source_info,
                    ) by {
                        if k < warn0.len() {
                            assert(warnings@[k] == warn0[k]);
                        } else {
                            assert(is_cycle_warning(warnings@[k], nodes@[i as int], *callee_source_info));
                        }
                    }
                }
            } else {
                let VfsPathBuf(canonical) = normalized;
                out.push((path, canonical));
                assert(out@[out@.len() - 1].0@ == joined_path(current_directory@, arg@));
                assert(import_handled(nodes@[i as int], current_directory@, out@, warnings@, w0.len() as int, *callee_source_info));
                proof {
                    assert forall|k: int| 0 <= k < out@.len() implies is_unvisited_import(
                        nodes@,
                        current_directory@,
                        visited_documents@,
                        #[trigger] out@[k],
                    ) by {
                        if k < out0.len() {
                            assert(out@[k] == out0[k]);
                        } else {
                            assert(import_leads_to(nodes@[i as int], current_directory@, out@[k].0@));
                        }
                    }
                }
            }
        }
        proof {
            assert forall|j: int|
                0 <= j < i + 1 && nodes@[j].name@ == "import"@ implies #[trigger] import_handled(
                    nodes@[j],
                    current_directory@,
                    out@,
                    warnings@,
                    w0.len() as int,
                    *callee_source_info,
                ) by {
                if j < i {
                    lemma_import_handled_grows(
                        nodes@[j],
                        current_directory@,
                        out_before,
                        out@,
                        warn_before,
                        warnings@,
                        w0.len() as int,
                        *callee_source_info,
                    );
                }
            }
        }
        i = i + 1;
    }
    Ok(out)
}

/// The diagnostics of the KDL parser, as diagnostics of the document.
fn kdl_problems(problems: Vec<KdlProblem>, src: &Arc<SourceInfo>) -> (r: ParsingError)
    ensures
        r matches ParsingError::KdlError { source_info, diagnostics } && source_info == *src
            && diagnostics@.len() == problems@.len(),
{
    let mut out: Vec<Diagnostic> = Vec::new();
    let mut k: usize = 0;
    while k < problems.len()
        invariant
            k <= problems@.len(),
            out@.len() == k,
        decreases problems@.len() - k,
    {
        let p = &problems[k];
        let message = match &p.message {
            Some(m) => m.clone(),
            None => "Unexpected error".to_owned(),
        };
        let help = match &p.help {
            Some(h) => Some(h.clone()),
            None => None,
        };
        let label = match &p.label {
            Some(l) => Some(l.clone()),
            None => None,
        };
        out.push(Diagnostic { message, severity: p.severity, source_info: share_source(src), span: p.span, help, label, related: Vec::new() });
        k = k + 1;
    }
    ParsingError::KdlError { source_info: share_source(src), diagnostics: out }
}

/// The result for a document without nodes: nothing read, one warning.
pub open spec fn is_empty_file_result(r: Result<(RawDocument, ParsingWarnings), ParsingError>) -> bool {
    match r {
        Ok((doc, w)) => doc.json_definitions@.len() == 0 && doc.enum_definitions@.len() == 0 && w.diagnostics@.len() == 1
            && w.diagnostics@[0].message@ == "the file is empty"@ && w.diagnostics@[0].severity == Severity::Warning,
        Err(_) => false,
    }
}

/// No node of the document imports another.
pub open spec fn imports_nothing(nodes: Seq<Node>) -> bool {
    forall|j: int| 0 <= j < nodes.len() ==> #[trigger] nodes[j].name@ != "import"@
}

/// `doc` ends with the definitions read from `nodes`, with `src` as their
/// source: its last JSON definitions are those of the nodes, in order, and
/// so are its last enum definitions.
pub open spec fn ends_with_definitions_of(doc: RawDocument, nodes: Seq<Node>, src: Arc<SourceInfo>) -> bool {
    &&& doc.json_definitions@.len() >= json_models(nodes).len()
    &&& doc.enum_definitions@.len() >= enum_outcomes(nodes).len()
    &&& forall|k: int| 0 <= k < json_models(nodes).len() ==> json_is(
        #[trigger] doc.json_definitions@[doc.json_definitions@.len() - json_models(nodes).len() + k],
        json_models(nodes)[k],
        src,
    )
    &&& forall|k: int| 0 <= k < enum_outcomes(nodes).len() ==> enum_is(
        #[trigger] doc.enum_definitions@[doc.enum_definitions@.len() - enum_outcomes(nodes).len() + k],
        enum_outcomes(nodes)[k],
        src,
    )
}

/// What reading a document gives, whatever the documents it imports hold:
/// text that is not KDL is refused with the KDL parser's diagnostics; a
/// document without nodes gives nothing and a warning; otherwise a document
/// where a node gives an error is refused, one where nodes give at most
/// warnings and that imports nothing is read, with those warnings, and the
/// definitions read from its nodes come last, after those of its imports,
/// and alone when it imports nothing.
pub open spec fn reads_document(document: UnparsedKdl, r: Result<(RawDocument, ParsingWarnings), ParsingError>) -> bool {
    &&& r matches Ok((doc, _)) ==> doc.filepath matches Some(p) && p@ == document.path@
    &&& !(r matches Err(ParsingError::NoDocumentProvided))
    &&& match kdl_parse(document.content@) {
        Err(_) => r matches Err(ParsingError::KdlError { .. }),
        Ok(tree) => if tree.nodes@.len() == 0 {
            is_empty_file_result(r)
        } else {
            &&& has_error(tree.nodes@) ==> r is Err
            &&& !has_error(tree.nodes@) && imports_nothing(tree.nodes@) ==> r is Ok
            &&& r matches Ok((doc, w)) ==> exists|src: Arc<SourceInfo>|
                src.name@ == document.path@ && src.source_code@ == document.content@
                    && #[trigger] ends_with_definitions_of(doc, tree.nodes@, src)
                    && (imports_nothing(tree.nodes@) ==> w.diagnostics@.len() == diagnosed(tree.nodes@).len()
                    && forall|k: int| 0 <= k < diagnosed(tree.nodes@).len() ==> diagnostic_is(
                    #[trigger] w.diagnostics@[k],
                    diagnosed(tree.nodes@)[k].0,
                    diagnosed(tree.nodes@)[k].1,
                    src,
                ))
            &&& r matches Ok((doc, _)) ==> (imports_nothing(tree.nodes@) ==> doc.json_definitions@.len() == json_models(
                tree.nodes@,
            ).len() && doc.enum_definitions@.len() == enum_outcomes(tree.nodes@).len())
        },
    }
}

/// The directory a document's imports are relative to: that of its path.
pub open spec fn import_dir(path: Seq<char>) -> Seq<char> {
    match parent_path(path) {
        Some(d) => d,
        None => Seq::empty(),
    }
}

/// `path` is where one of the import nodes leads, relative to `dir`.
pub open spec fn is_import_of(nodes: Seq<Node>, dir: Seq<char>, path: Seq<char>) -> bool {
    exists|j: int| 0 <= j < nodes.len() && nodes[j].name@ == "import"@ && #[trigger] import_leads_to(nodes[j], dir, path)
}

/// The JSON definitions the imported documents read, in order.
pub open spec fn flat_json(pieces: Seq<(UnparsedKdl, RawDocument, ParsingWarnings)>) -> Seq<JsonDefinition>
    decreases pieces.len(),
{
    if pieces.len() == 0 {
        Seq::empty()
    } else {
        flat_json(pieces.drop_last()) + pieces.last().1.json_definitions@
    }
}

/// The enum definitions the imported documents read, in order.
pub open spec fn flat_enums(pieces: Seq<(UnparsedKdl, RawDocument, ParsingWarnings)>) -> Seq<EnumDefinition>
    decreases pieces.len(),
{
    if pieces.len() == 0 {
        Seq::empty()
    } else {
        flat_enums(pieces.drop_last()) + pieces.last().1.enum_definitions@
    }
}

/// `doc`, read from `document`, holds first what the documents in `pieces`
/// read, in order, then the definitions of `document`'s own nodes: each
/// piece is a document at a path an import of `document` leads to, read
/// as [`reads_document`] says.
pub open spec fn imports_come_first(
    document: UnparsedKdl,
    pieces: Seq<(UnparsedKdl, RawDocument, ParsingWarnings)>,
    doc: RawDocument,
) -> bool {
    &&& kdl_parse(document.content@) matches Ok(t) && {
        &&& forall|k: int| 0 <= k < pieces.len() ==> is_import_of(t.nodes@, import_dir(document.path@), #[trigger] pieces[k].0.path@)
        &&& doc.json_definitions@.len() == flat_json(pieces).len() + json_models(t.nodes@).len()
        &&& doc.enum_definitions@.len() == flat_enums(pieces).len() + enum_outcomes(t.nodes@).len()
    }
    &&& forall|k: int| 0 <= k < pieces.len() ==> reads_document(#[trigger] pieces[k].0, Ok((pieces[k].1, pieces[k].2)))
    &&& doc.json_definitions@.take(flat_json(pieces).len() as int) == flat_json(pieces)
    &&& doc.enum_definitions@.take(flat_enums(pieces).len() as int) == flat_enums(pieces)
}

/// No two texts of `v` are the same.
pub open spec fn distinct_texts(v: Seq<String>) -> bool {
    forall|i: int, j: int| 0 <= i < j < v.len() ==> #[trigger] v[i]@ != #[trigger] v[j]@
}

/// `after` is `before` with texts appended.
pub open spec fn keeps_prefix(before: Seq<String>, after: Seq<String>) -> bool {
    &&& before.len() <= after.len()
    &&& forall|k: int| 0 <= k < before.len() ==> #[trigger] after[k] == before[k]
}

/// The imported documents that were read, `count` of them, were each read
/// under its own normalized path, `canon[t]` for the `t`-th: one that was
/// not marked read in `before` and is marked read in `after`, and no two of
/// them are the same. So no document is read twice.
pub open spec fn read_once_each(count: nat, canon: Seq<Seq<char>>, before: Seq<String>, after: Seq<String>) -> bool {
    &&& canon.len() == count
    &&& forall|t: int| 0 <= t < canon.len() ==> !holds_text(before, #[trigger] canon[t]) && holds_text(after, canon[t])
    &&& forall|i: int, j: int| 0 <= i < j < canon.len() ==> #[trigger] canon[i] != #[trigger] canon[j]
}

/// A text of `before` is still a text of `after`.
proof fn lemma_holds_kept(before: Seq<String>, after: Seq<String>, s: Seq<char>)
    requires
        keeps_prefix(before, after),
        holds_text(before, s),
    ensures
        holds_text(after, s),
{
    let t = choose|t: int| 0 <= t < before.len() && #[trigger] before[t]@ == s;
    assert(after[t] == before[t]);
}

/// What [`imports_come_first`] says, with each imported document read
/// once, as [`read_once_each`] says, between `before` and `after`.
pub open spec fn imports_read_once(
    document: UnparsedKdl,
    pieces: Seq<(UnparsedKdl, RawDocument, ParsingWarnings)>,
    canon: Seq<Seq<char>>,
    doc: RawDocument,
    before: Seq<String>,
    after: Seq<String>,
) -> bool {
    imports_come_first(document, pieces, doc) && read_once_each(pieces.len(), canon, before, after)
}

/// Reads a document that an import leads to, at `path`, whose text the
/// file system gave as `content` after normalizing its path to
/// `canonical`: a failure of the file system fails with its message;
/// otherwise `canonical` is marked read, and, unless imports nest too
/// deeply, the text is read as [`reads_document`] says.
fn read_import<V: Vfs>(
    path: &String,
    canonical: &String,
    content: Result<String, VfsError>,
    visited: &mut Vec<String>,
    opts: &ParserOpts<V>,
    depth: usize,
) -> (r: Result<(RawDocument, ParsingWarnings), ParsingError>)
    ensures
        content matches Err(e) ==> (r matches Err(ParsingError::GenericIoError { reason }) && reason@ == e.message@),
        content is Ok && depth == 0 ==> r matches Err(ParsingError::GenericIoError { .. }),
        depth > 0 ==> (content matches Ok(c) ==> reads_document((UnparsedKdl { content: c, path: *path }), r)),
        keeps_prefix(old(visited)@, final(visited)@),
        distinct_texts(old(visited)@) ==> distinct_texts(final(visited)@),
        content is Ok ==> holds_text(final(visited)@, canonical@),
    decreases depth, 0int,
{
    let text = match content {
        Err(e) => {
            return Err(io_error(e));
        },
        Ok(c) => c,
    };
    let ghost v0 = visited@;
    if !contains_text(visited, canonical.as_str()) {
        visited.push(canonical.clone());
        proof {
            assert(visited@[v0.len() as int]@ == canonical@);
            assert forall|i: int, j: int| 0 <= i < j < visited@.len() && distinct_texts(v0) implies #[trigger] visited@[i]@
                != #[trigger] visited@[j]@ by {
                if j == v0.len() {
                    assert(visited@[i] == v0[i]);
                } else {
                    assert(visited@[i] == v0[i] && visited@[j] == v0[j]);
                }
            }
        }
    }
    assert(holds_text(visited@, canonical@));
    if depth == 0 {
        return Err(ParsingError::GenericIoError { reason: "imports nest too deeply".to_owned() });
    }
    let other = UnparsedKdl { content: text, path: path.clone() };
    let ghost v1 = visited@;
    let r = parse_single_document(&other, visited, opts, depth - 1);
    proof {
        lemma_holds_kept(v1, visited@, canonical@);
    }
    r
}

/// Reads one document and, first, the documents it imports that were not
/// read yet (adding their normalized paths to `visited`), each as
/// [`read_import`] says of what the file system gives for it. An import
/// whose normalized path is in `visited` by the time its turn comes, read
/// through an earlier import, is left out, so each imported document is
/// read once ([`read_once_each`]); `visited` only grows, and stays free of
/// repeats. `depth` bounds
/// how deep imports nest; each nested document is a new one, so the bound
/// is never reached while there are fewer than `depth` documents.
#[verifier::spinoff_prover]
#[verifier::rlimit(60)]
pub fn parse_single_document<V: Vfs>(
    document: &UnparsedKdl,
    visited: &mut Vec<String>,
    opts: &ParserOpts<V>,
    depth: usize,
) -> (r: Result<(RawDocument, ParsingWarnings), ParsingError>)
    ensures
        reads_document(*document, r),
        imports_something(*document) || final(visited)@ == old(visited)@,
        r matches Ok((doc, _)) ==> exists|pieces: Seq<(UnparsedKdl, RawDocument, ParsingWarnings)>, canon: Seq<Seq<char>>|
            #[trigger] imports_read_once(*document, pieces, canon, doc, old(visited)@, final(visited)@),
        keeps_prefix(old(visited)@, final(visited)@),
        distinct_texts(old(visited)@) ==> distinct_texts(final(visited)@),
    decreases depth, 1int,
{
    let tree = match parse_kdl_text(document.content.as_str()) {
        Err(problems) => {
            let src = Arc::new(SourceInfo::new(document.path.as_str(), document.content.as_str()));
            return Err(kdl_problems(problems, &src));
        },
        Ok(t) => t,
    };
    let ghost tree0 = tree;
    let source_info = Arc::new(SourceInfo::new(document.path.as_str(), document.content.as_str()));
    let mut erroring: Vec<Diagnostic> = Vec::new();
    let mut non_erroring: Vec<Diagnostic> = Vec::new();
    let mut raw_document = RawDocument {
        filepath: Some(document.path.clone()),
        json_definitions: Vec::new(),
        http_definitions: Vec::new(),
        enum_definitions: Vec::new(),
    };
    if tree.nodes.len() == 0 {
        non_erroring.push(Diagnostic {
            message: "the file is empty".to_owned(),
            severity: Severity::Warning,
            source_info: share_source(&source_info),
            span: tree.span,
            help: Some("add some definitions".to_owned()),
            label: None,
            related: Vec::new(),
        });
        proof {
            let e = Seq::<(UnparsedKdl, RawDocument, ParsingWarnings)>::empty();
            assert(raw_document.json_definitions@.take(0) =~= flat_json(e));
            assert(raw_document.enum_definitions@.take(0) =~= flat_enums(e));
            assert(imports_come_first(*document, e, raw_document));
            assert(read_once_each(e.len(), Seq::<Seq<char>>::empty(), old(visited)@, visited@));
            assert(imports_read_once(*document, e, Seq::<Seq<char>>::empty(), raw_document, old(visited)@, visited@));
        }
        return Ok((raw_document, ParsingWarnings { source_info, diagnostics: non_erroring }));
    }
    let current_directory = match path_parent(document.path.as_str()) {
        Some(d) => d,
        None => String::new(),
    };
    let ghost visited_before = visited@;
    let unvisited = match extract_unvisited_filepaths::<V>(
        tree.nodes.as_slice(),
        &source_info,
        visited,
        current_directory.as_str(),
        &mut non_erroring,
    ) {
        Err(e) => {
            return Err(e);
        },
        Ok(u) => u,
    };
    let ghost mut pieces: Seq<(UnparsedKdl, RawDocument, ParsingWarnings)> = Seq::empty();
    let ghost mut canon: Seq<Seq<char>> = Seq::empty();
    assert(visited_before == old(visited)@);
    assert(raw_document.json_definitions@ =~= flat_json(pieces));
    assert(raw_document.enum_definitions@ =~= flat_enums(pieces));
    let mut k: usize = 0;
    while k < unvisited.len()
        invariant
            raw_document.filepath matches Some(p) && p@ == document.path@,
            kdl_parse(document.content@) == Ok::<NodeList, Vec<KdlProblem>>(tree0),
            tree0.nodes@.len() > 0,
            erroring@.len() == 0,
            unvisited@.len() == 0 ==> raw_document.json_definitions@.len() == 0 && raw_document.enum_definitions@.len() == 0,
            imports_nothing(tree0.nodes@) ==> unvisited@.len() == 0,
            imports_nothing(tree0.nodes@) ==> non_erroring@.len() == 0,
            imports_nothing(tree0.nodes@) ==> visited@ == visited_before,
            pieces.len() <= k,
            raw_document.json_definitions@ == flat_json(pieces),
            raw_document.enum_definitions@ == flat_enums(pieces),
            forall|t: int| 0 <= t < pieces.len() ==> reads_document(#[trigger] pieces[t].0, Ok((pieces[t].1, pieces[t].2)))
                && is_import_of(tree0.nodes@, current_directory@, pieces[t].0.path@),
            forall|t: int| 0 <= t < unvisited@.len() ==> is_unvisited_import(tree0.nodes@, current_directory@, visited_before, #[trigger] unvisited@[t]),
            current_directory@ == import_dir(document.path@),
            visited_before == old(visited)@,
            keeps_prefix(visited_before, visited@),
            distinct_texts(visited_before) ==> distinct_texts(visited@),
            read_once_each(pieces.len(), canon, visited_before, visited@),
        decreases unvisited@.len() - k,
    {
        let (path, canonical) = (&unvisited[k].0, &unvisited[k].1);
        if !contains_text(visited, canonical.as_str()) {
        let ghost v_pre = visited@;
        let content = match V::normalize_path(path.as_str()) {
            Err(e) => Err(e),
            Ok(p) => opts.vfs.read_file_to_string(&p.as_path()),
        };
        let ghost gc = content;
        let (other_root, other_warnings) = match read_import(path, canonical, content, visited, opts, depth) {
            Err(e) => {
                return Err(e);
            },
            Ok(r) => r,
        };
        let ghost piece = (UnparsedKdl { content: gc->Ok_0, path: *path }, other_root, other_warnings);
        proof {
            assert(reads_document(piece.0, Ok((piece.1, piece.2))));
            assert(is_unvisited_import(tree0.nodes@, current_directory@, visited_before, unvisited@[k as int]));
            assert(is_import_of(tree0.nodes@, current_directory@, piece.0.path@));
            assert((pieces.push(piece)).drop_last() =~= pieces);
        }
        let ghost before_doc = raw_document;
        raw_document.extend(other_root);
        let ParsingWarnings { source_info: _, diagnostics: mut more } = other_warnings;
        non_erroring.append(&mut more);
        proof {
            let old_pieces = pieces;
            pieces = pieces.push(piece);
            assert forall|t: int| 0 <= t < pieces.len() implies reads_document(#[trigger] pieces[t].0, Ok((pieces[t].1, pieces[t].2)))
                && is_import_of(tree0.nodes@, current_directory@, pieces[t].0.path@) by {
                if t < old_pieces.len() {
                    assert(pieces[t] == old_pieces[t]);
                }
            }
            let old_canon = canon;
            canon = canon.push(canonical@);
            assert forall|k2: int| 0 <= k2 < visited_before.len() implies #[trigger] visited@[k2] == visited_before[k2] by {
                assert(v_pre[k2] == visited_before[k2]);
            }
            if holds_text(visited_before, canonical@) {
                lemma_holds_kept(visited_before, v_pre, canonical@);
            }
            assert forall|t: int| 0 <= t < canon.len() implies !holds_text(visited_before, #[trigger] canon[t]) && holds_text(
                visited@,
                canon[t],
            ) by {
                if t < old_canon.len() {
                    assert(canon[t] == old_canon[t]);
                    lemma_holds_kept(v_pre, visited@, old_canon[t]);
                }
            }
            assert forall|i: int, j: int| 0 <= i < j < canon.len() implies #[trigger] canon[i] != #[trigger] canon[j] by {
                if j == old_canon.len() {
                    assert(canon[i] == old_canon[i]);
                    assert(holds_text(v_pre, old_canon[i]));
                } else {
                    assert(canon[i] == old_canon[i] && canon[j] == old_canon[j]);
                }
            }
        }
        }
        k = k + 1;
    }
    proof {
        if imports_nothing(tree.nodes@) && unvisited@.len() > 0 {
            let j = choose|j: int| 0 <= j < tree.nodes@.len() && tree.nodes@[j].name@ == "import"@
                && #[trigger] import_leads_to(tree.nodes@[j], current_directory@, unvisited@[0].0@)
                && !holds_text(visited_before, unvisited@[0].1@);
            assert(tree.nodes@[j].name@ != "import"@);
        }
    }
    let ghost before = raw_document;
    let mut diags = match parse_all_definitions(&mut raw_document, tree.nodes.as_slice(), &source_info) {
        Err(e) => {
            return Err(e);
        },
        Ok(d) => d,
    };
    let ghost all = diags@;
    let ghost nonerr0 = non_erroring@;
    let ghost dg = diagnosed(tree.nodes@);
    proof {
        assert forall|t: int| 0 <= t < all.len() implies (#[trigger] all[t]).severity == outcome_severity(dg[t].1) by {
            assert(diagnostic_is(all[t], dg[t].0, dg[t].1, source_info));
            lemma_diagnostic_severity(all[t], dg[t].0, dg[t].1, source_info);
        }
    }
    let mut rest = diags;
    let n = rest.len();
    let mut k: usize = 0;
    assert(all.skip(0) =~= all);
    assert(all.take(0) =~= Seq::<Diagnostic>::empty());
    assert(nonerr0 + all.take(0) =~= nonerr0);
    while k < n
        invariant
            k <= n,
            n == all.len(),
            rest@ == all.skip(k as int),
            erroring@.len() > 0 <==> exists|t: int| 0 <= t < k && (#[trigger] all[t]).severity == Severity::Error,
            erroring@.len() == 0 ==> non_erroring@ == nonerr0 + all.take(k as int),
        decreases n - k,
    {
        assert(all.skip(k as int)[0] == all[k as int]);
        let d = rest.remove(0);
        assert(rest@ =~= all.skip(k + 1));
        assert(all.take(k + 1) =~= all.take(k as int).push(d));
        match d.severity {
            Severity::Error => {
                erroring.push(d);
            },
            _ => {
                non_erroring.push(d);
            },
        }
        k = k + 1;
    }
    proof {
        assert(all.take(n as int) =~= all);
        if has_error(tree.nodes@) {
            let t = choose|t: int| 0 <= t < dg.len() && outcome_severity(#[trigger] dg[t].1) == Severity::Error;
            assert(all[t].severity == Severity::Error);
        }
        if erroring@.len() > 0 {
            let t = choose|t: int| 0 <= t < n && (#[trigger] all[t]).severity == Severity::Error;
            assert(outcome_severity(dg[t].1) == Severity::Error);
        }
    }
    if erroring.len() == 0 {
        assert(ends_with_definitions_of(raw_document, tree.nodes@, source_info));
        proof {
            if imports_nothing(tree.nodes@) {
                assert(non_erroring@ =~= all);
                assert(forall|t: int| 0 <= t < dg.len() ==> diagnostic_is(#[trigger] non_erroring@[t], dg[t].0, dg[t].1, source_info));
            }
            let fj = flat_json(pieces);
            let fe = flat_enums(pieces);
            assert forall|t: int| 0 <= t < fj.len() implies raw_document.json_definitions@[t] == fj[t] by {
                assert(before.json_definitions@[t] == fj[t]);
            }
            assert forall|t: int| 0 <= t < fe.len() implies raw_document.enum_definitions@[t] == fe[t] by {
                assert(before.enum_definitions@[t] == fe[t]);
            }
            assert(raw_document.json_definitions@.take(fj.len() as int) =~= fj);
            assert(raw_document.enum_definitions@.take(fe.len() as int) =~= fe);
            assert(imports_come_first(*document, pieces, raw_document));
            assert(imports_read_once(*document, pieces, canon, raw_document, old(visited)@, visited@));
        }
        Ok((raw_document, ParsingWarnings { source_info, diagnostics: non_erroring }))
    } else {
        Err(ParsingError::Diagnostics { source_info, diagnostics: erroring })
    }
}

/// `r` begins with the reading of `document`: some result `r0` that
/// [`reads_document`] allows for it is such that `r` is `r0` where `r0` is
/// an error, and that the definitions `r0` read come first in `r`.
pub open spec fn begins_with_reading(document: UnparsedKdl, r: Result<(RawDocument, ParsingWarnings), ParsingError>) -> bool {
    exists|r0: Result<(RawDocument, ParsingWarnings), ParsingError>|
        #[trigger] reads_document(document, r0) && (r0 matches Err(e) ==> r == Err::<(RawDocument, ParsingWarnings), ParsingError>(e))
            && (r0 matches Ok((d0, _)) ==> (r matches Ok((d, _)) ==> d.json_definitions@.take(
            d0.json_definitions@.len() as int,
        ) == d0.json_definitions@ && d.enum_definitions@.take(d0.enum_definitions@.len() as int)
            == d0.enum_definitions@))
}

/// The document imports another.
pub open spec fn imports_something(document: UnparsedKdl) -> bool {
    kdl_parse(document.content@) matches Ok(t) && !imports_nothing(t.nodes@)
}

/// The file system gave `p` as the normalized path of a document.
pub open spec fn normalized_as(path: Result<VfsPathBuf, VfsError>, p: Seq<char>) -> bool {
    path matches Ok(q) && q.0@ == p
}

/// A document before the `k`-th may have made `p` read already: `p` is
/// the normalized path of one of them, or one of them imports others,
/// whose normalized paths are marked read when they are.
pub open spec fn may_be_read(docs: Seq<UnparsedKdl>, paths: Seq<Result<VfsPathBuf, VfsError>>, k: int, p: Seq<char>) -> bool {
    ||| exists|j: int| 0 <= j < k && #[trigger] normalized_as(paths[j], p)
    ||| exists|j: int| 0 <= j < k && #[trigger] imports_something(docs[j])
}

/// Reading the documents from the `k`-th on, in turn, after definitions
/// `json` and `enums` and warnings `warns` were read, with `paths` what the
/// file system gave as their normalized paths, and `steps` what each
/// reading gave (`None` for a document not read): a path the file system
/// could not normalize fails with its message; a document may be left out
/// only when an earlier one may have made its path read (never the
/// first); each document read is read as [`reads_document`] says, its
/// error is the error, and what it reads is appended.
pub open spec fn reads_in_turn(
    docs: Seq<UnparsedKdl>,
    paths: Seq<Result<VfsPathBuf, VfsError>>,
    steps: Seq<Option<Result<(RawDocument, ParsingWarnings), ParsingError>>>,
    k: int,
    json: Seq<JsonDefinition>,
    enums: Seq<EnumDefinition>,
    warns: Seq<Diagnostic>,
    r: Result<(RawDocument, ParsingWarnings), ParsingError>,
) -> bool
    decreases docs.len() - k,
{
    if k >= docs.len() || k < 0 {
        r matches Ok((d, w)) && d.json_definitions@ == json && d.enum_definitions@ == enums && w.diagnostics@ == warns
    } else {
        match paths[k] {
            Err(e) => r matches Err(ParsingError::GenericIoError { reason }) && reason@ == e.message@,
            Ok(p) => match steps[k] {
                None => k > 0 && may_be_read(docs, paths, k, p.0@) && reads_in_turn(docs, paths, steps, k + 1, json, enums, warns, r),
                Some(rk) => reads_document(docs[k], rk) && match rk {
                    Err(e) => r == Err::<(RawDocument, ParsingWarnings), ParsingError>(e),
                    Ok((d, w)) => reads_in_turn(
                        docs,
                        paths,
                        steps,
                        k + 1,
                        json + d.json_definitions@,
                        enums + d.enum_definitions@,
                        warns + w.diagnostics@,
                        r,
                    ),
                },
            },
        }
    }
}

/// Only the readings from the `k`-th on matter.
proof fn lemma_reads_frame(
    docs: Seq<UnparsedKdl>,
    paths: Seq<Result<VfsPathBuf, VfsError>>,
    s1: Seq<Option<Result<(RawDocument, ParsingWarnings), ParsingError>>>,
    s2: Seq<Option<Result<(RawDocument, ParsingWarnings), ParsingError>>>,
    k: int,
    json: Seq<JsonDefinition>,
    enums: Seq<EnumDefinition>,
    warns: Seq<Diagnostic>,
    r: Result<(RawDocument, ParsingWarnings), ParsingError>,
)
    requires
        reads_in_turn(docs, paths, s1, k, json, enums, warns, r),
        forall|j: int| k <= j < docs.len() ==> s1[j] == s2[j],
    ensures
        reads_in_turn(docs, paths, s2, k, json, enums, warns, r),
    decreases docs.len() - k,
{
    if 0 <= k < docs.len() {
        match paths[k] {
            Ok(p) => match s1[k] {
                None => {
                    lemma_reads_frame(docs, paths, s1, s2, k + 1, json, enums, warns, r);
                },
                Some(rk) => match rk {
                    Ok((d, w)) => {
                        lemma_reads_frame(
                            docs,
                            paths,
                            s1,
                            s2,
                            k + 1,
                            json + d.json_definitions@,
                            enums + d.enum_definitions@,
                            warns + w.diagnostics@,
                            r,
                        );
                    },
                    Err(_) => {},
                },
            },
            Err(_) => {},
        }
    }
}

/// Leaving out the `k`-th document.
proof fn lemma_step_skip(
    docs: Seq<UnparsedKdl>,
    paths: Seq<Result<VfsPathBuf, VfsError>>,
    steps: Seq<Option<Result<(RawDocument, ParsingWarnings), ParsingError>>>,
    k: int,
    json: Seq<JsonDefinition>,
    enums: Seq<EnumDefinition>,
    warns: Seq<Diagnostic>,
    r: Result<(RawDocument, ParsingWarnings), ParsingError>,
)
    requires
        0 < k < docs.len(),
        steps.len() == docs.len(),
        paths[k] matches Ok(q) && may_be_read(docs, paths, k, q.0@),
        reads_in_turn(docs, paths, steps, k + 1, json, enums, warns, r),
    ensures
        reads_in_turn(docs, paths, steps.update(k, None), k, json, enums, warns, r),
{
    lemma_reads_frame(docs, paths, steps, steps.update(k, None), k + 1, json, enums, warns, r);
}

/// Reading the `k`-th document, which gives `rk`.
proof fn lemma_step_read(
    docs: Seq<UnparsedKdl>,
    paths: Seq<Result<VfsPathBuf, VfsError>>,
    steps: Seq<Option<Result<(RawDocument, ParsingWarnings), ParsingError>>>,
    k: int,
    json: Seq<JsonDefinition>,
    enums: Seq<EnumDefinition>,
    warns: Seq<Diagnostic>,
    rk: Result<(RawDocument, ParsingWarnings), ParsingError>,
    r: Result<(RawDocument, ParsingWarnings), ParsingError>,
)
    requires
        0 <= k < docs.len(),
        steps.len() == docs.len(),
        paths[k] is Ok,
        reads_document(docs[k], rk),
        match rk {
            Err(e) => r == Err::<(RawDocument, ParsingWarnings), ParsingError>(e),
            Ok((d, w)) => reads_in_turn(
                docs,
                paths,
                steps,
                k + 1,
                json + d.json_definitions@,
                enums + d.enum_definitions@,
                warns + w.diagnostics@,
                r,
            ),
        },
    ensures
        reads_in_turn(docs, paths, steps.update(k, Some(rk)), k, json, enums, warns, r),
{
    if let Ok((d, w)) = rk {
        lemma_reads_frame(
            docs,
            paths,
            steps,
            steps.update(k, Some(rk)),
            k + 1,
            json + d.json_definitions@,
            enums + d.enum_definitions@,
            warns + w.diagnostics@,
            r,
        );
    }
}

/// A document that is read whatever it imports: not KDL is excluded; it
/// has no node, or its nodes give no error and it imports nothing.
pub open spec fn reads_ok(document: UnparsedKdl) -> bool {
    kdl_parse(document.content@) matches Ok(t) && (t.nodes@.len() == 0 || (!has_error(t.nodes@) && imports_nothing(
        t.nodes@,
    )))
}

/// Where every path was normalized and every document is read, reading
/// in turn succeeds.
proof fn lemma_reads_all_ok(
    docs: Seq<UnparsedKdl>,
    paths: Seq<Result<VfsPathBuf, VfsError>>,
    steps: Seq<Option<Result<(RawDocument, ParsingWarnings), ParsingError>>>,
    k: int,
    json: Seq<JsonDefinition>,
    enums: Seq<EnumDefinition>,
    warns: Seq<Diagnostic>,
    r: Result<(RawDocument, ParsingWarnings), ParsingError>,
)
    requires
        0 <= k,
        reads_in_turn(docs, paths, steps, k, json, enums, warns, r),
        forall|j: int| 0 <= j < docs.len() ==> #[trigger] paths[j] is Ok && reads_ok(docs[j]),
    ensures
        r is Ok,
    decreases docs.len() - k,
{
    if k < docs.len() {
        assert(paths[k] is Ok && reads_ok(docs[k]));
        match steps[k] {
            None => {
                lemma_reads_all_ok(docs, paths, steps, k + 1, json, enums, warns, r);
            },
            Some(rk) => {
                assert(rk is Ok);
                match rk {
                    Ok((d, w)) => {
                        lemma_reads_all_ok(
                            docs,
                            paths,
                            steps,
                            k + 1,
                            json + d.json_definitions@,
                            enums + d.enum_definitions@,
                            warns + w.diagnostics@,
                            r,
                        );
                    },
                    Err(_) => {},
                }
            },
        }
    }
}

/// Reads the documents from the `k`-th on, with `paths` what the file
/// system gave as their normalized paths, appending what each reads to
/// `document` and `warnings`; a document whose normalized path was read
/// already is left out.
#[verifier::spinoff_prover]
#[verifier::rlimit(100)]
fn read_from<V: Vfs>(
    docs: &[UnparsedKdl],
    paths: &Vec<Result<VfsPathBuf, VfsError>>,
    k: usize,
    document: RawDocument,
    warnings: ParsingWarnings,
    visited: &mut Vec<String>,
    opts: &ParserOpts<V>,
) -> (r: Result<(RawDocument, ParsingWarnings), ParsingError>)
    requires
        1 <= k <= docs@.len(),
        paths@.len() == docs@.len(),
        forall|i: int| 0 <= i < old(visited)@.len() ==> may_be_read(docs@, paths@, k as int, #[trigger] old(visited)@[i]@),
    ensures
        exists|steps: Seq<Option<Result<(RawDocument, ParsingWarnings), ParsingError>>>|
            steps.len() == docs@.len() && #[trigger] reads_in_turn(
                docs@,
                paths@,
                steps,
                k as int,
                document.json_definitions@,
                document.enum_definitions@,
                warnings.diagnostics@,
                r,
            ),
        k == docs@.len() ==> r == Ok::<(RawDocument, ParsingWarnings), ParsingError>((document, warnings)),
        r matches Ok((d, _)) ==> d.json_definitions@.len() >= document.json_definitions@.len()
            && d.enum_definitions@.len() >= document.enum_definitions@.len()
            && d.json_definitions@.take(document.json_definitions@.len() as int) == document.json_definitions@
            && d.enum_definitions@.take(document.enum_definitions@.len() as int) == document.enum_definitions@,
        !(r matches Err(ParsingError::NoDocumentProvided)),
    decreases docs@.len() - k,
{
    let ghost n = docs@.len();
    let ghost none_steps = Seq::<Option<Result<(RawDocument, ParsingWarnings), ParsingError>>>::new(n, |j: int| None);
    if k == docs.len() {
        let r = Ok((document, warnings));
        assert(reads_in_turn(docs@, paths@, none_steps, k as int, document.json_definitions@, document.enum_definitions@, warnings.diagnostics@, r));
        assert(document.json_definitions@.take(document.json_definitions@.len() as int) =~= document.json_definitions@);
        assert(document.enum_definitions@.take(document.enum_definitions@.len() as int) =~= document.enum_definitions@);
        return r;
    }
    match &paths[k] {
        Err(e) => {
            let r = Err(ParsingError::GenericIoError { reason: e.message.clone() });
            assert(reads_in_turn(docs@, paths@, none_steps, k as int, document.json_definitions@, document.enum_definitions@, warnings.diagnostics@, r));
            r
        },
        Ok(p) => {
            if contains_text(visited, p.0.as_str()) {
                proof {
                    let i = choose|i: int| 0 <= i < visited@.len() && #[trigger] visited@[i]@ == p.0@;
                    assert(may_be_read(docs@, paths@, k as int, visited@[i]@));
                    assert forall|i2: int| 0 <= i2 < visited@.len() implies may_be_read(docs@, paths@, k + 1, #[trigger] visited@[i2]@) by {
                        assert(may_be_read(docs@, paths@, k as int, visited@[i2]@));
                    }
                }
                let ghost jd = document.json_definitions@;
                let ghost ed = document.enum_definitions@;
                let ghost wd = warnings.diagnostics@;
                let r = read_from(docs, paths, k + 1, document, warnings, visited, opts);
                proof {
                    let steps = choose|steps: Seq<Option<Result<(RawDocument, ParsingWarnings), ParsingError>>>|
                        steps.len() == n && #[trigger] reads_in_turn(docs@, paths@, steps, k + 1, jd, ed, wd, r);
                    lemma_step_skip(docs@, paths@, steps, k as int, jd, ed, wd, r);
                    if let Ok((d, _)) = &r {
                        assert(d.json_definitions@.take(jd.len() as int) =~= jd);
                        assert(d.enum_definitions@.take(ed.len() as int) =~= ed);
                    }
                }
                r
            } else {
                let ghost old_visited = visited@;
                visited.push(p.0.clone());
                proof {
                    assert forall|i: int| 0 <= i < visited@.len() implies may_be_read(docs@, paths@, k + 1, #[trigger] visited@[i]@) by {
                        if i < old_visited.len() {
                            assert(visited@[i] == old_visited[i]);
                        } else {
                            assert(normalized_as(paths@[k as int], visited@[i]@));
                        }
                    }
                }
                let ghost v1 = visited@;
                let rk = parse_single_document(&docs[k], visited, opts, usize::MAX);
                let ghost grk = rk;
                match rk {
                    Err(e) => {
                        let ghost ge = e;
                        let r = Err(e);
                        proof {
                            lemma_step_read(docs@, paths@, none_steps, k as int, document.json_definitions@, document.enum_definitions@, warnings.diagnostics@, grk, r);
                        }
                        r
                    },
                    Ok((d, w)) => {
                        proof {
                            assert forall|i: int| 0 <= i < visited@.len() implies may_be_read(docs@, paths@, k + 1, #[trigger] visited@[i]@) by {
                                if !imports_something(docs@[k as int]) {
                                    assert(visited@ == v1);
                                } else {
                                    assert(imports_something(docs@[k as int]));
                                }
                            }
                        }
                        let ghost jd = document.json_definitions@;
                        let ghost ed = document.enum_definitions@;
                        let ghost wd = warnings.diagnostics@;
                        let ghost dd = d;
                        let ghost ww = w;
                        let mut document = document;
                        let mut warnings = warnings;
                        document.extend(d);
                        let ParsingWarnings { source_info: _, diagnostics: mut more } = w;
                        warnings.diagnostics.append(&mut more);
                        let r = read_from(docs, paths, k + 1, document, warnings, visited, opts);
                        proof {
                            let steps = choose|steps: Seq<Option<Result<(RawDocument, ParsingWarnings), ParsingError>>>|
                                steps.len() == n && #[trigger] reads_in_turn(
                                    docs@,
                                    paths@,
                                    steps,
                                    k + 1,
                                    jd + dd.json_definitions@,
                                    ed + dd.enum_definitions@,
                                    wd + ww.diagnostics@,
                                    r,
                                );
                            assert(grk == Ok::<(RawDocument, ParsingWarnings), ParsingError>((dd, ww)));
                            lemma_step_read(docs@, paths@, steps, k as int, jd, ed, wd, grk, r);
                            if let Ok((d2, _)) = &r {
                                let mj = (jd + dd.json_definitions@).len() as int;
                                let me = (ed + dd.enum_definitions@).len() as int;
                                assert(d2.json_definitions@.take(mj) == jd + dd.json_definitions@);
                                assert(d2.enum_definitions@.take(me) == ed + dd.enum_definitions@);
                                assert forall|t: int| 0 <= t < jd.len() implies d2.json_definitions@[t] == jd[t] by {
                                    assert(d2.json_definitions@.take(mj)[t] == (jd + dd.json_definitions@)[t]);
                                }
                                assert forall|t: int| 0 <= t < ed.len() implies d2.enum_definitions@[t] == ed[t] by {
                                    assert(d2.enum_definitions@.take(me)[t] == (ed + dd.enum_definitions@)[t]);
                                }
                                assert(d2.json_definitions@.take(jd.len() as int) =~= jd);
                                assert(d2.enum_definitions@.take(ed.len() as int) =~= ed);
                            }
                        }
                        r
                    },
                }
            }
        },
    }
}

/// Reads the given documents in turn, with `paths` what the file system
/// gave as their normalized paths: each is read as [`reads_in_turn`] says,
/// the first whatever its path, each other one unless an earlier document
/// made its normalized path read already. Each document, listed or
/// imported, is read at most once: an import whose normalized path was
/// read already is left out, as [`parse_single_document`] says.
pub fn raw_parse_normalized<V: Vfs>(
    kdl_documents: &[UnparsedKdl],
    paths: &Vec<Result<VfsPathBuf, VfsError>>,
    opts: &ParserOpts<V>,
) -> (r: Result<(RawDocument, ParsingWarnings), ParsingError>)
    requires
        kdl_documents@.len() > 0,
        paths@.len() == kdl_documents@.len(),
    ensures
        exists|steps: Seq<Option<Result<(RawDocument, ParsingWarnings), ParsingError>>>|
            steps.len() == kdl_documents@.len() && #[trigger] reads_in_turn(
                kdl_documents@,
                paths@,
                steps,
                0,
                Seq::empty(),
                Seq::empty(),
                Seq::empty(),
                r,
            ),
        (forall|j: int| 0 <= j < kdl_documents@.len() ==> #[trigger] paths@[j] is Ok && reads_ok(kdl_documents@[j])) ==> r is Ok,
        paths@[0] matches Err(e) ==> (r matches Err(ParsingError::GenericIoError { reason }) && reason@ == e.message@),
        paths@[0] is Ok ==> begins_with_reading(kdl_documents@[0], r),
        paths@[0] is Ok && kdl_documents@.len() == 1 ==> reads_document(kdl_documents@[0], r),
        !(r matches Err(ParsingError::NoDocumentProvided)),
{
    let ghost n = kdl_documents@.len();
    let ghost none_steps = Seq::<Option<Result<(RawDocument, ParsingWarnings), ParsingError>>>::new(n, |j: int| None);
    let first = &kdl_documents[0];
    let mut visited: Vec<String> = Vec::new();
    let p0 = match &paths[0] {
        Err(e) => {
            let r = Err(ParsingError::GenericIoError { reason: e.message.clone() });
            assert(reads_in_turn(kdl_documents@, paths@, none_steps, 0, Seq::empty(), Seq::empty(), Seq::empty(), r));
            return r;
        },
        Ok(p) => p,
    };
    visited.push(p0.0.clone());
    let ghost v1 = visited@;
    let r0 = parse_single_document(first, &mut visited, opts, usize::MAX);
    let ghost g0 = r0;
    match r0 {
        Err(e) => {
            let r = Err(e);
            proof {
                let s2 = none_steps.update(0, Some(g0));
                assert(reads_in_turn(kdl_documents@, paths@, s2, 0, Seq::empty(), Seq::empty(), Seq::empty(), r));
                if forall|j: int| 0 <= j < n ==> #[trigger] paths@[j] is Ok && reads_ok(kdl_documents@[j]) {
                    lemma_reads_all_ok(kdl_documents@, paths@, s2, 0, Seq::empty(), Seq::empty(), Seq::empty(), r);
                }
                assert(reads_document(kdl_documents@[0], g0));
            }
            r
        },
        Ok((document, warnings)) => {
            proof {
                assert forall|i: int| 0 <= i < visited@.len() implies may_be_read(kdl_documents@, paths@, 1, #[trigger] visited@[i]@) by {
                    if !imports_something(kdl_documents@[0]) {
                        assert(visited@ == v1);
                        assert(normalized_as(paths@[0], visited@[i]@));
                    } else {
                        assert(imports_something(kdl_documents@[0]));
                    }
                }
            }
            let ghost dd = document;
            let ghost ww = warnings;
            let r = read_from(kdl_documents, paths, 1, document, warnings, &mut visited, opts);
            proof {
                let steps = choose|steps: Seq<Option<Result<(RawDocument, ParsingWarnings), ParsingError>>>|
                    steps.len() == n && #[trigger] reads_in_turn(
                        kdl_documents@,
                        paths@,
                        steps,
                        1,
                        dd.json_definitions@,
                        dd.enum_definitions@,
                        ww.diagnostics@,
                        r,
                    );
                let s2 = steps.update(0, Some(g0));
                lemma_reads_frame(kdl_documents@, paths@, steps, s2, 1, dd.json_definitions@, dd.enum_definitions@, ww.diagnostics@, r);
                assert(Seq::<JsonDefinition>::empty() + dd.json_definitions@ =~= dd.json_definitions@);
                assert(Seq::<EnumDefinition>::empty() + dd.enum_definitions@ =~= dd.enum_definitions@);
                assert(Seq::<Diagnostic>::empty() + ww.diagnostics@ =~= ww.diagnostics@);
                assert(reads_in_turn(kdl_documents@, paths@, s2, 0, Seq::empty(), Seq::empty(), Seq::empty(), r));
                if forall|j: int| 0 <= j < n ==> #[trigger] paths@[j] is Ok && reads_ok(kdl_documents@[j]) {
                    lemma_reads_all_ok(kdl_documents@, paths@, s2, 0, Seq::empty(), Seq::empty(), Seq::empty(), r);
                }
                assert(reads_document(kdl_documents@[0], g0));
            }
            r
        },
    }
}

/// Reads the given documents in turn; fails when no document is given.
/// The file system normalizes each document's path (each is asked, before
/// any is read), and may fail to; what follows from what it gives is what
/// [`raw_parse_normalized`] says.
pub fn raw_parse_kdl<V: Vfs>(kdl_documents: &[UnparsedKdl], opts: &ParserOpts<V>) -> (r: Result<(RawDocument, ParsingWarnings), ParsingError>)
    ensures
        kdl_documents@.len() == 0 <==> r matches Err(ParsingError::NoDocumentProvided),
        kdl_documents@.len() > 0 ==> exists|paths: Seq<Result<VfsPathBuf, VfsError>>, steps: Seq<Option<Result<(RawDocument, ParsingWarnings), ParsingError>>>|
            paths.len() == kdl_documents@.len() && steps.len() == kdl_documents@.len() && #[trigger] reads_in_turn(
                kdl_documents@,
                paths,
                steps,
                0,
                Seq::empty(),
                Seq::empty(),
                Seq::empty(),
                r,
            ),
        kdl_documents@.len() > 0 ==> r matches Err(ParsingError::GenericIoError { .. }) || begins_with_reading(
            kdl_documents@[0],
            r,
        ),
        kdl_documents@.len() == 1 ==> reads_document(kdl_documents@[0], r) || r matches Err(ParsingError::GenericIoError { .. }),
{
    if kdl_documents.len() == 0 {
        return Err(ParsingError::NoDocumentProvided);
    }
    let mut paths: Vec<Result<VfsPathBuf, VfsError>> = Vec::new();
    let mut i: usize = 0;
    while i < kdl_documents.len()
        invariant
            i <= kdl_documents@.len(),
            paths@.len() == i,
        decreases kdl_documents@.len() - i,
    {
        paths.push(V::normalize_path(kdl_documents[i].path.as_str()));
        i = i + 1;
    }
    raw_parse_normalized(kdl_documents, &paths, opts)
}

/// A problem to show in an editor: the byte range it is about, how serious
/// it is and what it says.
#[derive(Debug)]
pub struct Problem {
    pub start: usize,
    pub end: usize,
    pub severity: Severity,
    pub message: String,
}

/// The diagnostics a reading reports: its warnings when the document was
/// read; the KDL parser's diagnostics, or the problems in the definitions,
/// when it was refused; none for other failures.
pub open spec fn reported(result: Result<(RawDocument, ParsingWarnings), ParsingError>) -> Seq<Diagnostic> {
    match result {
        Ok((_, w)) => w.diagnostics@,
        Err(ParsingError::KdlError { diagnostics, .. }) => diagnostics@,
        Err(ParsingError::Diagnostics { diagnostics, .. }) => diagnostics@,
        Err(_) => Seq::empty(),
    }
}

/// `p` shows the diagnostic `d`; its end saturates at `usize::MAX`.
pub open spec fn shows(p: Problem, d: Diagnostic) -> bool {
    &&& p.start == d.span.offset
    &&& p.end == if d.span.offset + d.span.len <= usize::MAX {
        (d.span.offset + d.span.len) as usize
    } else {
        usize::MAX
    }
    &&& p.severity == d.severity
    &&& p.message@ == d.message@
}

/// The problems to show for a reading, one per diagnostic it reports, in
/// order.
pub fn problems(result: &Result<(RawDocument, ParsingWarnings), ParsingError>) -> (r: Vec<Problem>)
    ensures
        r@.len() == reported(*result).len(),
        forall|k: int| 0 <= k < r@.len() ==> shows(#[trigger] r@[k], reported(*result)[k]),
{
    let diagnostics: &Vec<Diagnostic> = match result {
        Ok((_, w)) => &w.diagnostics,
        Err(ParsingError::KdlError { diagnostics, .. }) => diagnostics,
        Err(ParsingError::Diagnostics { diagnostics, .. }) => diagnostics,
        Err(_) => {
            return Vec::new();
        },
    };
    let mut out: Vec<Problem> = Vec::new();
    let mut k: usize = 0;
    while k < diagnostics.len()
        invariant
            k <= diagnostics@.len(),
            diagnostics@ == reported(*result),
            out@.len() == k,
            forall|t: int| 0 <= t < k ==> shows(#[trigger] out@[t], diagnostics@[t]),
        decreases diagnostics@.len() - k,
    {
        let d = &diagnostics[k];
        out.push(Problem {
            start: d.span.offset,
            end: d.span.offset.saturating_add(d.span.len),
            severity: d.severity,
            message: d.message.clone(),
        });
        k = k + 1;
    }
    out
}

} // verus!

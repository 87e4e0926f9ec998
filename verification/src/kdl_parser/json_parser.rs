//! Reading `json` definitions and their fields.

use std::sync::Arc;
use vstd::prelude::*;
use super::document::{first_node, last_property, Node, NodeList, Value};
use super::errors::{ParsingError, Severity, SourceInfo, Span};
use super::extract::{
    agrees, opt_text, report, reports, spec_argument_bool, spec_argument_string, spec_child_node,
    spec_children, ContextModel, ErrorContext, Report,
};
use super::schema::{int_encoding_of, DataType, IntLikeEncoding, JsonDefinition, JsonField, TypeModel};
use super::type_parser::{generic_parse, is_failure_diagnostic, spec_full_datatype, Failure};
use crate::kdl_parser::errors::share_source;

verus! {

/// Why reading a definition failed: a diagnostic, or a datatype that does
/// not parse.
pub enum ParseFailure {
    Report(Report),
    Type { text: Seq<char>, failure: Failure, at: int },
}

/// `e` is the error for `f`.
pub open spec fn fails_with(e: ParsingError, f: ParseFailure, src: Arc<SourceInfo>) -> bool {
    match f {
        ParseFailure::Report(r) => reports(e, r, src),
        ParseFailure::Type { text, failure, at } => e matches ParsingError::Diagnostics {
            source_info,
            diagnostics,
        } && source_info == src && diagnostics@.len() == 1 && is_failure_diagnostic(
            diagnostics@[0],
            text,
            failure,
            src,
            at,
        ),
    }
}

/// What a field definition reads as.
pub struct FieldModel {
    pub index: usize,
    pub span: Span,
    pub name: Seq<char>,
    pub type_: TypeModel,
    pub key: Seq<char>,
    pub doc: Seq<char>,
    pub optional: bool,
}

pub open spec fn field_is(f: JsonField, m: FieldModel, src: Arc<SourceInfo>) -> bool {
    &&& f.index == m.index
    &&& f.source_info == src
    &&& f.span == m.span
    &&& f.name@ == m.name
    &&& f.type_.model() == m.type_
    &&& f.key@ == m.key
    &&& f.doc@ == m.doc
    &&& !f.escape
    &&& f.optional == m.optional
}

pub open spec fn ctx(context: Seq<char>, not_found: Option<Seq<char>>, wrong: Option<Seq<char>>) -> ContextModel {
    ContextModel { context, not_found_help: not_found, wrong_type_help: wrong }
}

/// "field definition `Data::field`".
pub open spec fn field_context(d: Seq<char>, f: Seq<char>) -> Seq<char> {
    "field definition `"@ + d + "::"@ + f + "`"@
}

pub open spec fn type_help() -> Seq<char> {
    "specify `type=\"...\"`."@
}

/// The `encoding` property of a field: none when absent or not a string.
pub open spec fn spec_field_encoding(node: Node) -> Result<Option<IntLikeEncoding>, Report> {
    match last_property(node.entries@, "encoding"@) {
        Some(i) => match node.entries@[i].value {
            Value::String(s) => match int_encoding_of(s@) {
                Ok(e) => Ok(Some(e)),
                Err(m) => Err(Report { message: m, severity: Severity::Warning, span: node.span, help: None }),
            },
            _ => Ok(None),
        },
        None => Ok(None),
    }
}

/// The key of a field: the string argument of its `key` child, or, for a
/// field whose type is another definition, `transparent=#true` for the
/// key of that definition (an empty key).
pub open spec fn spec_field_key(kn: Node, t: TypeModel, d: Seq<char>, f: Seq<char>) -> Result<Seq<char>, Report> {
    match spec_argument_string(kn, 0, ctx(field_context(d, f), None, None)) {
        Ok(k) => Ok(k),
        Err(_) => match super::extract::spec_property_bool(kn, "transparent"@, ctx(field_context(d, f), None, None)) {
            Err(r) => Err(r),
            Ok(v) => match t {
                TypeModel::Custom { name, .. } => if v {
                    Ok(Seq::empty())
                } else {
                    Err(
                        Report {
                            message: "field `key` in JSON definition `"@ + d + "::"@ + f
                                + "` is ambigous; either specify a string for the key or `transparent=#true` to use the underlying key defined in `"@
                                + name + "::hash`."@,
                            severity: Severity::Error,
                            span: kn.span,
                            help: Some(
                                "the child `key` needs to be either a string or it must have the property `transparent=#true`, otherwise there is no way to know which key this field should use."@,
                            ),
                        },
                    )
                },
                _ => Err(
                    Report {
                        message: "in field definition `"@ + d + "::"@ + f
                            + "`, key `transparent` cannot be used for primitive types since they lack any underlying pre-defined key."@,
                        severity: Severity::Error,
                        span: kn.span,
                        help: Some("provide an actual string for the key, for example: `key \"foobar\"`"@),
                    },
                ),
            },
        },
    }
}

/// The children part of a field, once its name and type are known.
pub open spec fn spec_field_rest(node: Node, d: Seq<char>, f: Seq<char>, t: TypeModel, index: usize) -> Result<FieldModel, Report> {
    match spec_children(node, ctx("field definition"@, Some("specify children `key`, `doc`"@), None)) {
        Err(r) => Err(r),
        Ok(ch) => {
            let optional = match first_node(ch.nodes@, "optional"@) {
                None => Ok(false),
                Some(oi) => spec_argument_bool(ch.nodes@[oi], 0, ctx(field_context(d, f), None, None)),
            };
            match optional {
                Err(r) => Err(r),
                Ok(opt) => match spec_child_node(
                    ch,
                    "key"@,
                    ctx(field_context(d, f), Some("specify child `key \"foobar\"` or `key transparent=#true`"@), None),
                ) {
                    Err(r) => Err(r),
                    Ok(kn) => match spec_field_key(kn, t, d, f) {
                        Err(r) => Err(r),
                        Ok(k) => match spec_child_node(
                            ch,
                            "doc"@,
                            ctx(field_context(d, f), Some("specify child `doc \"Example\"`"@), None),
                        ) {
                            Err(r) => Err(r),
                            Ok(dn) => match spec_argument_string(dn, 0, ctx(field_context(d, f), None, None)) {
                                Err(r) => Err(r),
                                Ok(doc) => Ok(
                                    FieldModel { index, span: node.span, name: f, type_: t, key: k, doc, optional: opt },
                                ),
                            },
                        },
                    },
                },
            }
        },
    }
}

/// A `field` node of the JSON definition `d`.
pub open spec fn spec_parse_field(node: Node, d: Seq<char>, index: usize) -> Result<FieldModel, ParseFailure> {
    match spec_argument_string(node, 0, ctx("field definition in JSON "@ + d, Some("add a name to the field"@), None)) {
        Err(r) => Err(ParseFailure::Report(r)),
        Ok(f) => match spec_field_encoding(node) {
            Err(r) => Err(ParseFailure::Report(r)),
            Ok(_) => match last_property(node.entries@, "type"@) {
                None => Err(
                    ParseFailure::Report(
                        Report {
                            message: "property `type` not provided for JSON field definition `"@ + d + "::"@ + f + "`"@,
                            severity: Severity::Error,
                            span: node.span,
                            help: Some(type_help()),
                        },
                    ),
                ),
                Some(ti) => match node.entries@[ti].value {
                    Value::String(ts) => match spec_full_datatype(ts@) {
                        Err(fl) => Err(ParseFailure::Type { text: ts@, failure: fl, at: node.entries@[ti].span.offset as int }),
                        Ok(t) => match spec_field_rest(node, d, f, t, index) {
                            Err(r) => Err(ParseFailure::Report(r)),
                            Ok(m) => Ok(m),
                        },
                    },
                    _ => Err(
                        ParseFailure::Report(
                            Report {
                                message: "property `type`, of JSON field definition `"@ + d + "::"@ + f + "`, is not a string"@,
                                severity: Severity::Error,
                                span: node.entries@[ti].span,
                                help: Some(type_help()),
                            },
                        ),
                    ),
                },
            },
        },
    }
}

pub(crate) fn context(source_info: &Arc<SourceInfo>, text: String, not_found: Option<String>, wrong: Option<String>) -> (c: ErrorContext)
    ensures
        c.source_info == *source_info,
        c.model() == ctx(text@, opt_text(not_found), opt_text(wrong)),
{
    ErrorContext { source_info: share_source(source_info), context: text, not_found_help: not_found, wrong_type_help: wrong }
}

fn field_context_of(d: &str, f: &str) -> (r: String)
    ensures
        r@ == field_context(d@, f@),
{
    let mut r = "field definition `".to_owned();
    r.append(d);
    r.append("::");
    r.append(f);
    r.append("`");
    r
}

fn field_encoding(node: &Node, src: &Arc<SourceInfo>) -> (r: Result<Option<IntLikeEncoding>, ParsingError>)
    ensures
        agrees(r, spec_field_encoding(*node), *src, |a: Option<IntLikeEncoding>, b: Option<IntLikeEncoding>| a == b),
{
    match node.property("encoding") {
        Some(e) => match &e.value {
            Value::String(s) => match IntLikeEncoding::from_str(s.as_str()) {
                Ok(enc) => Ok(Some(enc)),
                Err(m) => Err(report(m, Severity::Warning, node.span, None, src)),
            },
            _ => Ok(None),
        },
        None => Ok(None),
    }
}

fn field_key(kn: &Node, t: &DataType, d: &str, f: &str, src: &Arc<SourceInfo>) -> (r: Result<String, ParsingError>)
    ensures
        agrees(r, spec_field_key(*kn, t.model(), d@, f@), *src, |a: String, b: Seq<char>| a@ == b),
{
    let c = context(src, field_context_of(d, f), None, None);
    match kn.extract_argument_string(0, &c) {
        Ok(k) => Ok(k.clone()),
        Err(_) => match kn.extract_property_bool("transparent", &c) {
            Err(e) => Err(e),
            Ok(v) => match t {
                DataType::Custom { name, .. } => if v {
                    Ok(String::new())
                } else {
                    let mut m = "field `key` in JSON definition `".to_owned();
                    m.append(d);
                    m.append("::");
                    m.append(f);
                    m.append("` is ambigous; either specify a string for the key or `transparent=#true` to use the underlying key defined in `");
                    m.append(name.as_str());
                    m.append("::hash`.");
                    Err(report(
                        m,
                        Severity::Error,
                        kn.span,
                        Some("the child `key` needs to be either a string or it must have the property `transparent=#true`, otherwise there is no way to know which key this field should use.".to_owned()),
                        src,
                    ))
                },
                _ => {
                    let mut m = "in field definition `".to_owned();
                    m.append(d);
                    m.append("::");
                    m.append(f);
                    m.append("`, key `transparent` cannot be used for primitive types since they lack any underlying pre-defined key.");
                    Err(report(
                        m,
                        Severity::Error,
                        kn.span,
                        Some("provide an actual string for the key, for example: `key \"foobar\"`".to_owned()),
                        src,
                    ))
                },
            },
        },
    }
}

fn field_rest(node: &Node, d: &str, f: &str, t: DataType, index: usize, src: &Arc<SourceInfo>) -> (r: Result<JsonField, ParsingError>)
    ensures
        agrees(r, spec_field_rest(*node, d@, f@, t.model(), index), *src, |a: JsonField, b: FieldModel| field_is(a, b, *src)),
{
    let ch = match node.extract_children(&context(src, "field definition".to_owned(), Some("specify children `key`, `doc`".to_owned()), None)) {
        Err(e) => {
            return Err(e);
        },
        Ok(ch) => ch,
    };
    let optional = match ch.get("optional") {
        None => false,
        Some(o) => match o.extract_argument_bool(0, &context(src, field_context_of(d, f), None, None)) {
            Err(e) => {
                return Err(e);
            },
            Ok(v) => v,
        },
    };
    let kn = match ch.extract_child_node(
        "key",
        &context(src, field_context_of(d, f), Some("specify child `key \"foobar\"` or `key transparent=#true`".to_owned()), None),
    ) {
        Err(e) => {
            return Err(e);
        },
        Ok(kn) => kn,
    };
    let key = match field_key(kn, &t, d, f, src) {
        Err(e) => {
            return Err(e);
        },
        Ok(k) => k,
    };
    let dn = match ch.extract_child_node("doc", &context(src, field_context_of(d, f), Some("specify child `doc \"Example\"`".to_owned()), None)) {
        Err(e) => {
            return Err(e);
        },
        Ok(dn) => dn,
    };
    let doc = match dn.extract_argument_string(0, &context(src, field_context_of(d, f), None, None)) {
        Err(e) => {
            return Err(e);
        },
        Ok(doc) => doc.clone(),
    };
    Ok(JsonField {
        index,
        source_info: share_source(src),
        span: node.span,
        name: f.to_owned(),
        type_: t,
        key,
        doc,
        escape: false,
        optional,
    })
}

/// Reads a `field` node of the JSON definition `data_name`: its name, its
/// `type` (a datatype), whether it is `optional`, its `key` and its `doc`.
pub fn parse_field(
    node: &Node,
    source_code: &Arc<SourceInfo>,
    data_name: &str,
    maybe_default_encoding: Option<IntLikeEncoding>,
    index: usize,
) -> (r: Result<JsonField, ParsingError>)
    ensures
        match (r, spec_parse_field(*node, data_name@, index)) {
            (Ok(a), Ok(b)) => field_is(a, b, *source_code),
            (Err(e), Err(f)) => fails_with(e, f, *source_code),
            _ => false,
        },
{
    let mut c0 = "field definition in JSON ".to_owned();
    c0.append(data_name);
    let f = match node.extract_argument_string(0, &context(source_code, c0, Some("add a name to the field".to_owned()), None)) {
        Err(e) => {
            return Err(e);
        },
        Ok(f) => f,
    };
    let maybe_encoding = match field_encoding(node, source_code) {
        Err(e) => {
            return Err(e);
        },
        Ok(Some(e)) => Some(e),
        Ok(None) => maybe_default_encoding,
    };
    let te = match node.property("type") {
        None => {
            let mut m = "property `type` not provided for JSON field definition `".to_owned();
            m.append(data_name);
            m.append("::");
            m.append(f.as_str());
            m.append("`");
            return Err(report(m, Severity::Error, node.span, Some("specify `type=\"...\"`.".to_owned()), source_code));
        },
        Some(te) => te,
    };
    let ts = match &te.value {
        Value::String(ts) => ts,
        _ => {
            let mut m = "property `type`, of JSON field definition `".to_owned();
            m.append(data_name);
            m.append("::");
            m.append(f.as_str());
            m.append("`, is not a string");
            return Err(report(m, Severity::Error, te.span, Some("specify `type=\"...\"`.".to_owned()), source_code));
        },
    };
    let t = match generic_parse(ts.as_str(), maybe_encoding, source_code, te.span) {
        Err(e) => {
            return Err(e);
        },
        Ok(t) => t,
    };
    match field_rest(node, data_name, f.as_str(), t, index, source_code) {
        Ok(jf) => Ok(jf),
        Err(e) => Err(e),
    }
}


/// The `field` nodes among `nodes`, read in order and numbered from zero;
/// the first failure stops the reading.
pub open spec fn spec_fields(nodes: Seq<Node>, d: Seq<char>) -> Result<Seq<FieldModel>, ParseFailure>
    decreases nodes.len(),
{
    if nodes.len() == 0 {
        Ok(Seq::empty())
    } else {
        match spec_fields(nodes.drop_last(), d) {
            Err(e) => Err(e),
            Ok(v) => if nodes.last().name@ == "field"@ {
                match spec_parse_field(nodes.last(), d, v.len() as usize) {
                    Err(e) => Err(e),
                    Ok(m) => Ok(v.push(m)),
                }
            } else {
                Ok(v)
            },
        }
    }
}

/// What a JSON definition reads as.
pub struct JsonModel {
    pub index: usize,
    pub span: Span,
    pub name: Seq<char>,
    pub doc: Seq<char>,
    pub hash: Option<Seq<char>>,
    pub fields: Seq<FieldModel>,
}

pub open spec fn json_is(j: JsonDefinition, m: JsonModel, src: Arc<SourceInfo>) -> bool {
    &&& j.index == m.index
    &&& j.source_info == src
    &&& j.span == m.span
    &&& j.name@ == m.name
    &&& j.doc@ == m.doc
    &&& opt_text(j.hash) == m.hash
    &&& j.fields@.len() == m.fields.len()
    &&& forall|k: int| 0 <= k < m.fields.len() ==> field_is(#[trigger] j.fields@[k], m.fields[k], src)
}

/// The `default-encoding` property of a JSON definition.
pub open spec fn spec_default_encoding(def: Node) -> Result<Option<IntLikeEncoding>, Report> {
    match last_property(def.entries@, "default-encoding"@) {
        None => Ok(None),
        Some(i) => match def.entries@[i].value {
            Value::String(s) => match int_encoding_of(s@) {
                Ok(e) => Ok(Some(e)),
                Err(m) => Err(Report { message: m, severity: Severity::Warning, span: def.span, help: None }),
            },
            _ => Err(
                Report {
                    message: "property `default-encoding` in JSON definition `Foo` is not a string"@,
                    severity: Severity::Error,
                    span: def.span,
                    help: Some("provide one of `str` or `int`"@),
                },
            ),
        },
    }
}

pub open spec fn json_context(name: Seq<char>) -> Seq<char> {
    "JSON definition `"@ + name + "`"@
}

/// A `json` node: its name, `default-encoding`, `hash`, `doc` and fields.
pub open spec fn spec_parse_data_definition(def: Node, index: usize) -> Result<JsonModel, ParseFailure> {
    match spec_argument_string(def, 0, ctx("definition"@, Some("add a name to the definition"@), Some("give it a name as a string"@))) {
        Err(r) => Err(ParseFailure::Report(r)),
        Ok(name) => match spec_default_encoding(def) {
            Err(r) => Err(ParseFailure::Report(r)),
            Ok(_) => match def.children {
                None => Err(
                    ParseFailure::Report(
                        Report {
                            message: "JSON definition has no children"@,
                            severity: Severity::Error,
                            span: def.span,
                            help: Some("specify children `hash`, `doc` and some `field`s"@),
                        },
                    ),
                ),
                Some(ch) => {
                    let hash = match first_node(ch.nodes@, "hash"@) {
                        None => Ok(None),
                        Some(hi) => match spec_argument_string(ch.nodes@[hi], 0, ctx("JSON definition `{name}`"@, None, None)) {
                            Ok(h) => Ok(Some(h)),
                            Err(r) => Err(r),
                        },
                    };
                    let dctx = ctx(json_context(name), Some("specify child `doc \"Example\"`"@), None);
                    match hash {
                        Err(r) => Err(ParseFailure::Report(r)),
                        Ok(h) => match spec_child_node(ch, "doc"@, dctx) {
                            Err(r) => Err(ParseFailure::Report(r)),
                            Ok(dn) => match spec_argument_string(dn, 0, dctx) {
                                Err(r) => Err(ParseFailure::Report(r)),
                                Ok(doc) => match spec_fields(ch.nodes@, name) {
                                    Err(e) => Err(e),
                                    Ok(fields) => Ok(JsonModel { index, span: def.span, name, doc, hash: h, fields }),
                                },
                            },
                        },
                    }
                },
            },
        },
    }
}

fn default_encoding(def: &Node, src: &Arc<SourceInfo>) -> (r: Result<Option<IntLikeEncoding>, ParsingError>)
    ensures
        agrees(r, spec_default_encoding(*def), *src, |a: Option<IntLikeEncoding>, b: Option<IntLikeEncoding>| a == b),
{
    match def.property("default-encoding") {
        None => Ok(None),
        Some(e) => match &e.value {
            Value::String(s) => match IntLikeEncoding::from_str(s.as_str()) {
                Ok(enc) => Ok(Some(enc)),
                Err(m) => Err(report(m, Severity::Warning, def.span, None, src)),
            },
            _ => Err(report(
                "property `default-encoding` in JSON definition `Foo` is not a string".to_owned(),
                Severity::Error,
                def.span,
                Some("provide one of `str` or `int`".to_owned()),
                src,
            )),
        },
    }
}

fn parse_fields(ch: &NodeList, name: &str, enc: Option<IntLikeEncoding>, src: &Arc<SourceInfo>) -> (r: Result<Vec<JsonField>, ParsingError>)
    ensures
        match (r, spec_fields(ch.nodes@, name@)) {
            (Ok(v), Ok(m)) => v@.len() == m.len() && forall|k: int| 0 <= k < m.len() ==> field_is(#[trigger] v@[k], m[k], *src),
            (Err(e), Err(f)) => fails_with(e, f, *src),
            _ => false,
        },
{
    let mut out: Vec<JsonField> = Vec::new();
    let mut i: usize = 0;
    assert(ch.nodes@.take(0) =~= Seq::<Node>::empty());
    while i < ch.nodes.len()
        invariant
            i <= ch.nodes@.len(),
            spec_fields(ch.nodes@.take(i as int), name@) matches Ok(m) && out@.len() == m.len() && forall|k: int|
                0 <= k < m.len() ==> field_is(#[trigger] out@[k], m[k], *src),
        decreases ch.nodes@.len() - i,
    {
        let ghost t = ch.nodes@.take(i + 1);
        assert(t.drop_last() =~= ch.nodes@.take(i as int));
        assert(t.last() == ch.nodes@[i as int]);
        let node = &ch.nodes[i];
        if crate::text::str_equal(node.name.as_str(), "field") {
            match parse_field(node, src, name, enc, out.len()) {
                Err(e) => {
                    proof {
                        lemma_fields_stop(ch.nodes@, name@, i + 1);
                    }
                    return Err(e);
                },
                Ok(f) => {
                    out.push(f);
                },
            }
        }
        i = i + 1;
    }
    assert(ch.nodes@.take(i as int) =~= ch.nodes@);
    Ok(out)
}

proof fn lemma_fields_stop(nodes: Seq<Node>, d: Seq<char>, k: int)
    requires
        0 <= k <= nodes.len(),
        spec_fields(nodes.take(k), d) is Err,
    ensures
        spec_fields(nodes, d) == spec_fields(nodes.take(k), d),
    decreases nodes.len() - k,
{
    if k < nodes.len() {
        assert(nodes.take(k + 1).drop_last() =~= nodes.take(k));
        lemma_fields_stop(nodes, d, k + 1);
    } else {
        assert(nodes.take(k) =~= nodes);
    }
}

/// Reads a `json` node: its name, `default-encoding`, `hash`, `doc` and
/// `field` children.
pub fn parse_data_definition(definition: &Node, source_code: &Arc<SourceInfo>, index: usize) -> (r: Result<JsonDefinition, ParsingError>)
    ensures
        match (r, spec_parse_data_definition(*definition, index)) {
            (Ok(a), Ok(b)) => json_is(a, b, *source_code),
            (Err(e), Err(f)) => fails_with(e, f, *source_code),
            _ => false,
        },
{
    let name = match definition.extract_argument_string(
        0,
        &context(source_code, "definition".to_owned(), Some("add a name to the definition".to_owned()), Some("give it a name as a string".to_owned())),
    ) {
        Err(e) => {
            return Err(e);
        },
        Ok(n) => n,
    };
    let enc = match default_encoding(definition, source_code) {
        Err(e) => {
            return Err(e);
        },
        Ok(enc) => enc,
    };
    let ch = match &definition.children {
        None => {
            return Err(report(
                "JSON definition has no children".to_owned(),
                Severity::Error,
                definition.span,
                Some("specify children `hash`, `doc` and some `field`s".to_owned()),
                source_code,
            ));
        },
        Some(ch) => ch,
    };
    let hash = match ch.get("hash") {
        None => None,
        Some(h) => match h.extract_argument_string(0, &context(source_code, "JSON definition `{name}`".to_owned(), None, None)) {
            Err(e) => {
                return Err(e);
            },
            Ok(h) => Some(h.clone()),
        },
    };
    let mut dc = "JSON definition `".to_owned();
    dc.append(name.as_str());
    dc.append("`");
    let dctx = context(source_code, dc, Some("specify child `doc \"Example\"`".to_owned()), None);
    let dn = match ch.extract_child_node("doc", &dctx) {
        Err(e) => {
            return Err(e);
        },
        Ok(dn) => dn,
    };
    let doc = match dn.extract_argument_string(0, &dctx) {
        Err(e) => {
            return Err(e);
        },
        Ok(doc) => doc.clone(),
    };
    let fields = match parse_fields(ch, name.as_str(), enc, source_code) {
        Err(e) => {
            return Err(e);
        },
        Ok(fields) => fields,
    };
    Ok(JsonDefinition {
        index,
        source_info: share_source(source_code),
        span: definition.span,
        name: name.clone(),
        doc,
        hash,
        fields,
    })
}

} // verus!

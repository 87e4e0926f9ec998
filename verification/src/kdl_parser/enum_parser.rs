//! Reading `int-enum` and `str-enum` definitions and their variants.

use std::sync::Arc;
use vstd::prelude::*;
use super::document::{last_property, Node, NodeList, Value};
use super::errors::{share_source, ParsingError, Severity, SourceInfo, Span};
use super::extract::{
    agrees, report, spec_argument_string, spec_child_node, spec_children, spec_property_int, Report,
};
use super::json_parser::{context, ctx};
use super::schema::{IntEnumDefinition, IntEnumInner, StringEnumDefinition, StringEnumInner};
use crate::text::str_equal;

verus! {

/// What an integer enum variant reads as.
pub struct IntVariantModel {
    pub index: usize,
    pub span: Span,
    pub name: Seq<char>,
    pub doc: Seq<char>,
    pub value: Option<i128>,
}

/// What an integer enum reads as.
pub struct IntEnumModel {
    pub index: usize,
    pub span: Span,
    pub name: Seq<char>,
    pub start: i128,
    pub doc: Seq<char>,
    pub variants: Seq<IntVariantModel>,
}

/// What a string enum variant reads as; its value is its name.
pub struct StringVariantModel {
    pub index: usize,
    pub span: Span,
    pub name: Seq<char>,
    pub doc: Seq<char>,
}

/// What a string enum reads as.
pub struct StringEnumModel {
    pub index: usize,
    pub span: Span,
    pub name: Seq<char>,
    pub doc: Seq<char>,
    pub variants: Seq<StringVariantModel>,
}

pub open spec fn int_variant_is(v: IntEnumInner, m: IntVariantModel, src: Arc<SourceInfo>) -> bool {
    v.index == m.index && v.source_info == src && v.span == m.span && v.name@ == m.name && v.doc@ == m.doc
        && v.value == m.value
}

pub open spec fn int_enum_is(e: IntEnumDefinition, m: IntEnumModel, src: Arc<SourceInfo>) -> bool {
    &&& e.index == m.index
    &&& e.source_info == src
    &&& e.span == m.span
    &&& e.name@ == m.name
    &&& e.start == m.start
    &&& e.doc@ == m.doc
    &&& e.variants@.len() == m.variants.len()
    &&& forall|k: int| 0 <= k < m.variants.len() ==> int_variant_is(#[trigger] e.variants@[k], m.variants[k], src)
}

pub open spec fn string_variant_is(v: StringEnumInner, m: StringVariantModel, src: Arc<SourceInfo>) -> bool {
    v.index == m.index && v.source_info == src && v.span == m.span && v.name@ == m.name && v.doc@ == m.doc
        && v.value@ == m.name
}

pub open spec fn string_enum_is(e: StringEnumDefinition, m: StringEnumModel, src: Arc<SourceInfo>) -> bool {
    &&& e.index == m.index
    &&& e.source_info == src
    &&& e.span == m.span
    &&& e.name@ == m.name
    &&& e.doc@ == m.doc
    &&& e.variants@.len() == m.variants.len()
    &&& forall|k: int| 0 <= k < m.variants.len() ==> string_variant_is(#[trigger] e.variants@[k], m.variants[k], src)
}

pub open spec fn doc_help() -> Seq<char> {
    "specify a child `doc \"Example\"`."@
}

/// The name, children and `doc` of a variant of the enum `e`; `kind` is
/// "integer" or "string".
pub open spec fn spec_variant_parts(node: Node, e: Seq<char>, kind: Seq<char>) -> Result<(Seq<char>, Seq<char>), Report> {
    match spec_argument_string(
        node,
        0,
        ctx(
            "variant definition in "@ + kind + " enum `"@ + e + "`"@,
            Some("specify a name for the variant in "@ + kind + " enum `"@ + e + "`"@),
            None,
        ),
    ) {
        Err(r) => Err(r),
        Ok(name) => match spec_children(node, ctx("integer enum variant `"@ + e + "::"@ + name + "`"@, Some(doc_help()), None)) {
            Err(r) => Err(r),
            Ok(ch) => match spec_child_node(
                ch,
                "doc"@,
                ctx("integer enum variant definition `"@ + e + "::"@ + name + "`"@, Some(doc_help()), Some(doc_help())),
            ) {
                Err(r) => Err(r),
                Ok(dn) => match spec_argument_string(
                    dn,
                    0,
                    ctx(
                        "child `doc` in "@ + kind + " enum variant definition `"@ + e + "::"@ + name + "``"@,
                        Some(doc_help()),
                        Some("the child `doc` must be a string."@),
                    ),
                ) {
                    Err(r) => Err(r),
                    Ok(doc) => Ok((name, doc)),
                },
            },
        },
    }
}

/// The `value` property of an integer variant, which must be an integer.
pub open spec fn spec_variant_value(node: Node, e: Seq<char>, name: Seq<char>) -> Result<Option<i128>, Report> {
    match last_property(node.entries@, "value"@) {
        None => Ok(None),
        Some(i) => match node.entries@[i].value {
            Value::Integer(v) => Ok(Some(v)),
            _ => Err(
                Report {
                    message: "property `value` in integer enum variant `"@ + e + "::"@ + name + "` is not an integer"@,
                    severity: Severity::Error,
                    span: node.entries@[i].span,
                    help: Some(
                        "the property `value` specifies the integer value of the enum variant, it can only be an integer."@,
                    ),
                },
            ),
        },
    }
}

/// A variant of the integer enum `e`; its value is read before its
/// children.
pub open spec fn spec_int_variant(node: Node, e: Seq<char>, index: usize) -> Result<IntVariantModel, Report> {
    match spec_argument_string(
        node,
        0,
        ctx(
            "variant definition in integer enum `"@ + e + "`"@,
            Some("specify a name for the variant in integer enum `"@ + e + "`"@),
            None,
        ),
    ) {
        Err(r) => Err(r),
        Ok(name) => match spec_variant_value(node, e, name) {
            Err(r) => Err(r),
            Ok(value) => match spec_variant_parts(node, e, "integer"@) {
                Err(r) => Err(r),
                Ok((_, doc)) => Ok(IntVariantModel { index, span: node.span, name, doc, value }),
            },
        },
    }
}

/// A variant of the string enum `e`.
pub open spec fn spec_string_variant(node: Node, e: Seq<char>, index: usize) -> Result<StringVariantModel, Report> {
    match spec_variant_parts(node, e, "string"@) {
        Err(r) => Err(r),
        Ok((name, doc)) => Ok(StringVariantModel { index, span: node.span, name, doc }),
    }
}

/// The `variant` nodes among `nodes`, read in order and numbered from 0.
pub open spec fn spec_int_variants(nodes: Seq<Node>, e: Seq<char>) -> Result<Seq<IntVariantModel>, Report>
    decreases nodes.len(),
{
    if nodes.len() == 0 {
        Ok(Seq::empty())
    } else {
        match spec_int_variants(nodes.drop_last(), e) {
            Err(r) => Err(r),
            Ok(v) => if nodes.last().name@ == "variant"@ {
                match spec_int_variant(nodes.last(), e, v.len() as usize) {
                    Err(r) => Err(r),
                    Ok(m) => Ok(v.push(m)),
                }
            } else {
                Ok(v)
            },
        }
    }
}

pub open spec fn spec_string_variants(nodes: Seq<Node>, e: Seq<char>) -> Result<Seq<StringVariantModel>, Report>
    decreases nodes.len(),
{
    if nodes.len() == 0 {
        Ok(Seq::empty())
    } else {
        match spec_string_variants(nodes.drop_last(), e) {
            Err(r) => Err(r),
            Ok(v) => if nodes.last().name@ == "variant"@ {
                match spec_string_variant(nodes.last(), e, v.len() as usize) {
                    Err(r) => Err(r),
                    Ok(m) => Ok(v.push(m)),
                }
            } else {
                Ok(v)
            },
        }
    }
}

pub open spec fn name_context() -> super::extract::ContextModel {
    ctx("definition"@, Some("add a name to the enum definition"@), Some("give it a name as a string"@))
}

/// An `int-enum` node: its name, `start`, `doc` and variants.
pub open spec fn spec_parse_int_enum(def: Node, index: usize) -> Result<IntEnumModel, Report> {
    match spec_argument_string(def, 0, name_context()) {
        Err(r) => Err(r),
        Ok(name) => match spec_property_int(
            def,
            "start"@,
            ctx(
                "int enum definition"@,
                Some("specify a `start` property to the int enum, for example `start=0`"@),
                Some("the type inside the `start` property must be an integer, for exaple `start=0`"@),
            ),
        ) {
            Err(r) => Err(r),
            Ok(start) => match def.children {
                None => Err(
                    Report {
                        message: "integer enum definition has no children"@,
                        severity: Severity::Error,
                        span: def.span,
                        help: Some("specify children for the variants"@),
                    },
                ),
                Some(ch) => {
                    let dctx = ctx("integer enum definition `"@ + name + "`"@, Some("specify child `doc \"Example\"`"@), None);
                    match spec_child_node(ch, "doc"@, dctx) {
                        Err(r) => Err(r),
                        Ok(dn) => match spec_argument_string(dn, 0, dctx) {
                            Err(r) => Err(r),
                            Ok(doc) => match spec_int_variants(ch.nodes@, name) {
                                Err(r) => Err(r),
                                Ok(variants) => Ok(IntEnumModel { index, span: def.span, name, start, doc, variants }),
                            },
                        },
                    }
                },
            },
        },
    }
}

/// A `str-enum` node: its name, `doc` and variants.
pub open spec fn spec_parse_string_enum(def: Node, index: usize) -> Result<StringEnumModel, Report> {
    match spec_argument_string(def, 0, name_context()) {
        Err(r) => Err(r),
        Ok(name) => match def.children {
            None => Err(
                Report {
                    message: "string enum definition has no children"@,
                    severity: Severity::Error,
                    span: def.span,
                    help: Some("specify children for the enum"@),
                },
            ),
            Some(ch) => {
                let dctx = ctx("string enum definition `"@ + name + "`"@, Some("specify child `doc \"Example\"`"@), None);
                match spec_child_node(ch, "doc"@, dctx) {
                    Err(r) => Err(r),
                    Ok(dn) => match spec_argument_string(dn, 0, dctx) {
                        Err(r) => Err(r),
                        Ok(doc) => match spec_string_variants(ch.nodes@, name) {
                            Err(r) => Err(r),
                            Ok(variants) => Ok(StringEnumModel { index, span: def.span, name, doc, variants }),
                        },
                    },
                }
            },
        },
    }
}

fn concat3(a: &str, b: &str, c: &str) -> (r: String)
    ensures
        r@ == a@ + b@ + c@,
{
    let mut r = a.to_owned();
    r.append(b);
    r.append(c);
    r
}

fn concat5(a: &str, b: &str, c: &str, d: &str, e: &str) -> (r: String)
    ensures
        r@ == a@ + b@ + c@ + d@ + e@,
{
    let mut r = a.to_owned();
    r.append(b);
    r.append(c);
    r.append(d);
    r.append(e);
    r
}

fn concat7(a: &str, b: &str, c: &str, d: &str, e: &str, f: &str, g: &str) -> (r: String)
    ensures
        r@ == a@ + b@ + c@ + d@ + e@ + f@ + g@,
{
    let mut r = concat5(a, b, c, d, e);
    r.append(f);
    r.append(g);
    r
}

fn variant_parts(node: &Node, e: &str, kind: &str, src: &Arc<SourceInfo>) -> (r: Result<(String, String), ParsingError>)
    ensures
        agrees(r, spec_variant_parts(*node, e@, kind@), *src, |a: (String, String), b: (Seq<char>, Seq<char>)| a.0@ == b.0 && a.1@ == b.1),
{
    let c0 = concat5("variant definition in ", kind, " enum `", e, "`");
    let h0 = concat5("specify a name for the variant in ", kind, " enum `", e, "`");
    let name = match node.extract_argument_string(0, &context(src, c0, Some(h0), None)) {
        Err(x) => {
            return Err(x);
        },
        Ok(n) => n.clone(),
    };
    let c1 = concat5("integer enum variant `", e, "::", name.as_str(), "`");
    let ch = match node.extract_children(&context(src, c1, Some("specify a child `doc \"Example\"`.".to_owned()), None)) {
        Err(x) => {
            return Err(x);
        },
        Ok(ch) => ch,
    };
    let c2 = concat5("integer enum variant definition `", e, "::", name.as_str(), "`");
    let dn = match ch.extract_child_node(
        "doc",
        &context(src, c2, Some("specify a child `doc \"Example\"`.".to_owned()), Some("specify a child `doc \"Example\"`.".to_owned())),
    ) {
        Err(x) => {
            return Err(x);
        },
        Ok(dn) => dn,
    };
    let c3 = concat7("child `doc` in ", kind, " enum variant definition `", e, "::", name.as_str(), "``");
    let doc = match dn.extract_argument_string(
        0,
        &context(src, c3, Some("specify a child `doc \"Example\"`.".to_owned()), Some("the child `doc` must be a string.".to_owned())),
    ) {
        Err(x) => {
            return Err(x);
        },
        Ok(d) => d.clone(),
    };
    Ok((name, doc))
}

/// Reads a `variant` node of the integer enum `enum_name`.
pub fn parse_int_enum_variant(node: &Node, source_code: &Arc<SourceInfo>, enum_name: &str, index: usize) -> (r: Result<IntEnumInner, ParsingError>)
    ensures
        agrees(r, spec_int_variant(*node, enum_name@, index), *source_code, |a: IntEnumInner, b: IntVariantModel| int_variant_is(a, b, *source_code)),
{
    let c0 = concat3("variant definition in integer enum `", enum_name, "`");
    let h0 = concat3("specify a name for the variant in integer enum `", enum_name, "`");
    let name = match node.extract_argument_string(0, &context(source_code, c0, Some(h0), None)) {
        Err(x) => {
            return Err(x);
        },
        Ok(n) => n,
    };
    let value = match node.property("value") {
        None => None,
        Some(entry) => match &entry.value {
            Value::Integer(v) => Some(*v),
            _ => {
                let m = concat5("property `value` in integer enum variant `", enum_name, "::", name.as_str(), "` is not an integer");
                return Err(report(
                    m,
                    Severity::Error,
                    entry.span,
                    Some("the property `value` specifies the integer value of the enum variant, it can only be an integer.".to_owned()),
                    source_code,
                ));
            },
        },
    };
    let (_, doc) = match variant_parts(node, enum_name, "integer", source_code) {
        Err(x) => {
            return Err(x);
        },
        Ok(p) => p,
    };
    Ok(IntEnumInner { index, source_info: share_source(source_code), span: node.span, name: name.clone(), doc, value })
}

/// Reads a `variant` node of the string enum `enum_name`.
pub fn parse_string_enum_variant(node: &Node, source_code: &Arc<SourceInfo>, enum_name: &str, index: usize) -> (r: Result<StringEnumInner, ParsingError>)
    ensures
        agrees(r, spec_string_variant(*node, enum_name@, index), *source_code, |a: StringEnumInner, b: StringVariantModel| string_variant_is(a, b, *source_code)),
{
    let (name, doc) = match variant_parts(node, enum_name, "string", source_code) {
        Err(x) => {
            return Err(x);
        },
        Ok(p) => p,
    };
    let value = name.clone();
    Ok(StringEnumInner { index, source_info: share_source(source_code), span: node.span, name, doc, value })
}

fn int_variants(ch: &NodeList, name: &str, src: &Arc<SourceInfo>) -> (r: Result<Vec<IntEnumInner>, ParsingError>)
    ensures
        agrees(r, spec_int_variants(ch.nodes@, name@), *src, |a: Vec<IntEnumInner>, b: Seq<IntVariantModel>| a@.len() == b.len() && forall|k: int| 0 <= k < b.len() ==> int_variant_is(#[trigger] a@[k], b[k], *src)),
{
    let mut out: Vec<IntEnumInner> = Vec::new();
    let mut i: usize = 0;
    assert(ch.nodes@.take(0) =~= Seq::<Node>::empty());
    while i < ch.nodes.len()
        invariant
            i <= ch.nodes@.len(),
            spec_int_variants(ch.nodes@.take(i as int), name@) matches Ok(m) && out@.len() == m.len() && forall|k: int|
                0 <= k < m.len() ==> int_variant_is(#[trigger] out@[k], m[k], *src),
        decreases ch.nodes@.len() - i,
    {
        let ghost t = ch.nodes@.take(i + 1);
        assert(t.drop_last() =~= ch.nodes@.take(i as int));
        assert(t.last() == ch.nodes@[i as int]);
        let node = &ch.nodes[i];
        if str_equal(node.name.as_str(), "variant") {
            match parse_int_enum_variant(node, src, name, out.len()) {
                Err(e) => {
                    proof {
                        lemma_int_variants_stop(ch.nodes@, name@, i + 1);
                    }
                    return Err(e);
                },
                Ok(v) => {
                    out.push(v);
                },
            }
        }
        i = i + 1;
    }
    assert(ch.nodes@.take(i as int) =~= ch.nodes@);
    Ok(out)
}

proof fn lemma_int_variants_stop(nodes: Seq<Node>, e: Seq<char>, k: int)
    requires
        0 <= k <= nodes.len(),
        spec_int_variants(nodes.take(k), e) is Err,
    ensures
        spec_int_variants(nodes, e) == spec_int_variants(nodes.take(k), e),
    decreases nodes.len() - k,
{
    if k < nodes.len() {
        assert(nodes.take(k + 1).drop_last() =~= nodes.take(k));
        lemma_int_variants_stop(nodes, e, k + 1);
    } else {
        assert(nodes.take(k) =~= nodes);
    }
}

fn string_variants(ch: &NodeList, name: &str, src: &Arc<SourceInfo>) -> (r: Result<Vec<StringEnumInner>, ParsingError>)
    ensures
        agrees(r, spec_string_variants(ch.nodes@, name@), *src, |a: Vec<StringEnumInner>, b: Seq<StringVariantModel>| a@.len() == b.len() && forall|k: int| 0 <= k < b.len() ==> string_variant_is(#[trigger] a@[k], b[k], *src)),
{
    let mut out: Vec<StringEnumInner> = Vec::new();
    let mut i: usize = 0;
    assert(ch.nodes@.take(0) =~= Seq::<Node>::empty());
    while i < ch.nodes.len()
        invariant
            i <= ch.nodes@.len(),
            spec_string_variants(ch.nodes@.take(i as int), name@) matches Ok(m) && out@.len() == m.len() && forall|k: int|
                0 <= k < m.len() ==> string_variant_is(#[trigger] out@[k], m[k], *src),
        decreases ch.nodes@.len() - i,
    {
        let ghost t = ch.nodes@.take(i + 1);
        assert(t.drop_last() =~= ch.nodes@.take(i as int));
        assert(t.last() == ch.nodes@[i as int]);
        let node = &ch.nodes[i];
        if str_equal(node.name.as_str(), "variant") {
            match parse_string_enum_variant(node, src, name, out.len()) {
                Err(e) => {
                    proof {
                        lemma_string_variants_stop(ch.nodes@, name@, i + 1);
                    }
                    return Err(e);
                },
                Ok(v) => {
                    out.push(v);
                },
            }
        }
        i = i + 1;
    }
    assert(ch.nodes@.take(i as int) =~= ch.nodes@);
    Ok(out)
}

proof fn lemma_string_variants_stop(nodes: Seq<Node>, e: Seq<char>, k: int)
    requires
        0 <= k <= nodes.len(),
        spec_string_variants(nodes.take(k), e) is Err,
    ensures
        spec_string_variants(nodes, e) == spec_string_variants(nodes.take(k), e),
    decreases nodes.len() - k,
{
    if k < nodes.len() {
        assert(nodes.take(k + 1).drop_last() =~= nodes.take(k));
        lemma_string_variants_stop(nodes, e, k + 1);
    } else {
        assert(nodes.take(k) =~= nodes);
    }
}

/// Reads an `int-enum` node: its name, `start`, `doc` and `variant`s.
pub fn parse_int_enum_definition(definition: &Node, source_code: &Arc<SourceInfo>, index: usize) -> (r: Result<IntEnumDefinition, ParsingError>)
    ensures
        agrees(r, spec_parse_int_enum(*definition, index), *source_code, |a: IntEnumDefinition, b: IntEnumModel| int_enum_is(a, b, *source_code)),
{
    let name = match definition.extract_argument_string(
        0,
        &context(source_code, "definition".to_owned(), Some("add a name to the enum definition".to_owned()), Some("give it a name as a string".to_owned())),
    ) {
        Err(x) => {
            return Err(x);
        },
        Ok(n) => n,
    };
    let start = match definition.extract_property_int(
        "start",
        &context(
            source_code,
            "int enum definition".to_owned(),
            Some("specify a `start` property to the int enum, for example `start=0`".to_owned()),
            Some("the type inside the `start` property must be an integer, for exaple `start=0`".to_owned()),
        ),
    ) {
        Err(x) => {
            return Err(x);
        },
        Ok(s) => s,
    };
    let ch = match &definition.children {
        None => {
            return Err(report(
                "integer enum definition has no children".to_owned(),
                Severity::Error,
                definition.span,
                Some("specify children for the variants".to_owned()),
                source_code,
            ));
        },
        Some(ch) => ch,
    };
    let dc = concat3("integer enum definition `", name.as_str(), "`");
    let dctx = context(source_code, dc, Some("specify child `doc \"Example\"`".to_owned()), None);
    let dn = match ch.extract_child_node("doc", &dctx) {
        Err(x) => {
            return Err(x);
        },
        Ok(dn) => dn,
    };
    let doc = match dn.extract_argument_string(0, &dctx) {
        Err(x) => {
            return Err(x);
        },
        Ok(d) => d.clone(),
    };
    let variants = match int_variants(ch, name.as_str(), source_code) {
        Err(x) => {
            return Err(x);
        },
        Ok(v) => v,
    };
    Ok(IntEnumDefinition {
        index,
        source_info: share_source(source_code),
        span: definition.span,
        name: name.clone(),
        start,
        doc,
        variants,
    })
}

/// Reads a `str-enum` node: its name, `doc` and `variant`s.
pub fn parse_string_enum_definition(definition: &Node, source_code: &Arc<SourceInfo>, index: usize) -> (r: Result<StringEnumDefinition, ParsingError>)
    ensures
        agrees(r, spec_parse_string_enum(*definition, index), *source_code, |a: StringEnumDefinition, b: StringEnumModel| string_enum_is(a, b, *source_code)),
{
    let name = match definition.extract_argument_string(
        0,
        &context(source_code, "definition".to_owned(), Some("add a name to the enum definition".to_owned()), Some("give it a name as a string".to_owned())),
    ) {
        Err(x) => {
            return Err(x);
        },
        Ok(n) => n,
    };
    let ch = match &definition.children {
        None => {
            return Err(report(
                "string enum definition has no children".to_owned(),
                Severity::Error,
                definition.span,
                Some("specify children for the enum".to_owned()),
                source_code,
            ));
        },
        Some(ch) => ch,
    };
    let dc = concat3("string enum definition `", name.as_str(), "`");
    let dctx = context(source_code, dc, Some("specify child `doc \"Example\"`".to_owned()), None);
    let dn = match ch.extract_child_node("doc", &dctx) {
        Err(x) => {
            return Err(x);
        },
        Ok(dn) => dn,
    };
    let doc = match dn.extract_argument_string(0, &dctx) {
        Err(x) => {
            return Err(x);
        },
        Ok(d) => d.clone(),
    };
    let variants = match string_variants(ch, name.as_str(), source_code) {
        Err(x) => {
            return Err(x);
        },
        Ok(v) => v,
    };
    Ok(StringEnumDefinition {
        index,
        source_info: share_source(source_code),
        span: definition.span,
        name: name.clone(),
        doc,
        variants,
    })
}

} // verus!

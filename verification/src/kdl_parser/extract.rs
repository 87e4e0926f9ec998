//! Reading the arguments, properties and children that a definition must
//! have, with a diagnostic for each that is missing or of the wrong kind.

use std::sync::Arc;
use vstd::prelude::*;
use super::document::{first_node, last_property, nth_argument, Entry, Node, NodeList, Value};
use super::errors::{share_source, Diagnostic, ParsingError, Severity, SourceInfo, Span};
use crate::text::{decimal, decimal_string};

verus! {

/// What a diagnostic without related diagnostics says.
pub struct Report {
    pub message: Seq<char>,
    pub severity: Severity,
    pub span: Span,
    pub help: Option<Seq<char>>,
}

pub open spec fn opt_text(o: Option<String>) -> Option<Seq<char>> {
    match o {
        Some(s) => Some(s@),
        None => None,
    }
}

/// `d` says `r` about `src`, with no label and nothing related.
pub open spec fn says(d: Diagnostic, r: Report, src: Arc<SourceInfo>) -> bool {
    &&& d.message@ == r.message
    &&& d.severity == r.severity
    &&& d.span == r.span
    &&& opt_text(d.help) == r.help
    &&& d.label is None
    &&& d.source_info == src
    &&& d.related@.len() == 0
}

/// `e` is the error made of the one diagnostic `r`.
pub open spec fn reports(e: ParsingError, r: Report, src: Arc<SourceInfo>) -> bool {
    e matches ParsingError::Diagnostics { source_info, diagnostics } && source_info == src
        && diagnostics@.len() == 1 && says(diagnostics@[0], r, src)
}

/// `r` and `sp` agree: both succeed with values related by `f`, or both
/// fail, `r` reporting what `sp` says.
pub open spec fn agrees<A, B>(
    r: Result<A, ParsingError>,
    sp: Result<B, Report>,
    src: Arc<SourceInfo>,
    f: spec_fn(A, B) -> bool,
) -> bool {
    match (r, sp) {
        (Ok(a), Ok(b)) => f(a, b),
        (Err(e), Err(rep)) => reports(e, rep, src),
        _ => false,
    }
}

/// A diagnostic without related diagnostics, as an error.
pub fn report(message: String, severity: Severity, span: Span, help: Option<String>, src: &Arc<SourceInfo>) -> (e: ParsingError)
    ensures
        reports(e, Report { message: message@, severity, span, help: opt_text(help) }, *src),
{
    let ghost r = Report { message: message@, severity, span, help: opt_text(help) };
    let d = Diagnostic {
        message,
        severity,
        source_info: share_source(src),
        span,
        help,
        label: None,
        related: Vec::new(),
    };
    ParsingError::from_diagnostic(d)
}

fn clone_opt(o: &Option<String>) -> (r: Option<String>)
    ensures
        opt_text(r) == opt_text(*o),
{
    match o {
        Some(s) => Some(s.clone()),
        None => None,
    }
}

/// Where a lookup happens, for its diagnostics.
pub struct ErrorContext {
    pub source_info: Arc<SourceInfo>,
    /// What is being read, e.g. "definition".
    pub context: String,
    /// Help when the item is missing.
    pub not_found_help: Option<String>,
    /// Help when the item is of the wrong kind.
    pub wrong_type_help: Option<String>,
}

/// What an [`ErrorContext`] says, as text.
pub struct ContextModel {
    pub context: Seq<char>,
    pub not_found_help: Option<Seq<char>>,
    pub wrong_type_help: Option<Seq<char>>,
}

impl ErrorContext {
    pub open spec fn model(&self) -> ContextModel {
        ContextModel {
            context: self.context@,
            not_found_help: opt_text(self.not_found_help),
            wrong_type_help: opt_text(self.wrong_type_help),
        }
    }
}

pub open spec fn arg_missing(n: Node, k: int, ctx: ContextModel) -> Report {
    Report {
        message: "argument #"@ + decimal((k + 1) as nat) + " not provided for "@ + ctx.context,
        severity: Severity::Error,
        span: n.span,
        help: ctx.not_found_help,
    }
}

pub open spec fn arg_wrong(e: Entry, k: int, ctx: ContextModel, what: Seq<char>) -> Report {
    Report {
        message: ctx.context + " (argument #"@ + decimal((k + 1) as nat) + ") is not a "@ + what,
        severity: Severity::Error,
        span: e.span,
        help: ctx.wrong_type_help,
    }
}

pub open spec fn prop_missing(n: Node, key: Seq<char>, ctx: ContextModel) -> Report {
    Report {
        message: "property `"@ + key + "` not provided for "@ + ctx.context,
        severity: Severity::Error,
        span: n.span,
        help: ctx.not_found_help,
    }
}

pub open spec fn prop_wrong(span: Span, key: Seq<char>, ctx: ContextModel, what: Seq<char>) -> Report {
    Report {
        message: "property `"@ + key + "` for "@ + ctx.context + " does not contain a "@ + what,
        severity: Severity::Error,
        span,
        help: ctx.wrong_type_help,
    }
}

/// The `k`-th argument, which must be a string.
pub open spec fn spec_argument_string(n: Node, k: int, ctx: ContextModel) -> Result<Seq<char>, Report> {
    match nth_argument(n.entries@, k) {
        None => Err(arg_missing(n, k, ctx)),
        Some(i) => match n.entries@[i].value {
            Value::String(s) => Ok(s@),
            _ => Err(arg_wrong(n.entries@[i], k, ctx, "string"@)),
        },
    }
}

/// The `k`-th argument, which must be an integer; the message on a wrong
/// kind calls it a string, as it always did.
pub open spec fn spec_argument_int(n: Node, k: int, ctx: ContextModel) -> Result<i128, Report> {
    match nth_argument(n.entries@, k) {
        None => Err(arg_missing(n, k, ctx)),
        Some(i) => match n.entries@[i].value {
            Value::Integer(v) => Ok(v),
            _ => Err(arg_wrong(n.entries@[i], k, ctx, "string"@)),
        },
    }
}

/// The `k`-th argument, which must be a boolean.
pub open spec fn spec_argument_bool(n: Node, k: int, ctx: ContextModel) -> Result<bool, Report> {
    match nth_argument(n.entries@, k) {
        None => Err(arg_missing(n, k, ctx)),
        Some(i) => match n.entries@[i].value {
            Value::Bool(v) => Ok(v),
            _ => Err(arg_wrong(n.entries@[i], k, ctx, "boolean"@)),
        },
    }
}

/// The property `key`, which must be a string.
pub open spec fn spec_property_string(n: Node, key: Seq<char>, ctx: ContextModel) -> Result<Seq<char>, Report> {
    match last_property(n.entries@, key) {
        None => Err(prop_missing(n, key, ctx)),
        Some(i) => match n.entries@[i].value {
            Value::String(s) => Ok(s@),
            _ => Err(prop_wrong(n.entries@[i].span, key, ctx, "string"@)),
        },
    }
}

/// The property `key`, which must be a boolean; a wrong kind is reported
/// on the node.
pub open spec fn spec_property_bool(n: Node, key: Seq<char>, ctx: ContextModel) -> Result<bool, Report> {
    match last_property(n.entries@, key) {
        None => Err(prop_missing(n, key, ctx)),
        Some(i) => match n.entries@[i].value {
            Value::Bool(v) => Ok(v),
            _ => Err(prop_wrong(n.span, key, ctx, "boolean value (#true or #false)"@)),
        },
    }
}

/// The property `key`, which must be an integer; the message on a wrong
/// kind calls it a string, as it always did.
pub open spec fn spec_property_int(n: Node, key: Seq<char>, ctx: ContextModel) -> Result<i128, Report> {
    match last_property(n.entries@, key) {
        None => Err(prop_missing(n, key, ctx)),
        Some(i) => match n.entries@[i].value {
            Value::Integer(v) => Ok(v),
            _ => Err(prop_wrong(n.entries@[i].span, key, ctx, "string"@)),
        },
    }
}

/// The children of a node, which must have some.
pub open spec fn spec_children(n: Node, ctx: ContextModel) -> Result<NodeList, Report> {
    match n.children {
        Some(d) => Ok(d),
        None => Err(
            Report {
                message: ctx.context + " does not have any child"@,
                severity: Severity::Error,
                span: n.span,
                help: ctx.not_found_help,
            },
        ),
    }
}

/// The first child called `name`, which must be there.
pub open spec fn spec_child_node(d: NodeList, name: Seq<char>, ctx: ContextModel) -> Result<Node, Report> {
    match first_node(d.nodes@, name) {
        Some(i) => Ok(d.nodes@[i]),
        None => Err(
            Report {
                message: ctx.context + " lacks child `"@ + name + "`"@,
                severity: Severity::Error,
                span: d.span,
                help: ctx.not_found_help,
            },
        ),
    }
}

fn argument_missing(n: &Node, k: usize, ctx: &ErrorContext) -> (e: ParsingError)
    requires
        k < usize::MAX,
    ensures
        reports(e, arg_missing(*n, k as int, ctx.model()), ctx.source_info),
{
    let mut m = "argument #".to_owned();
    let num = decimal_string((k + 1) as u128);
    m.append(num.as_str());
    m.append(" not provided for ");
    m.append(ctx.context.as_str());
    report(m, Severity::Error, n.span, clone_opt(&ctx.not_found_help), &ctx.source_info)
}

fn argument_wrong(e: &Entry, k: usize, ctx: &ErrorContext, what: &str) -> (r: ParsingError)
    requires
        k < usize::MAX,
    ensures
        reports(r, arg_wrong(*e, k as int, ctx.model(), what@), ctx.source_info),
{
    let mut m = ctx.context.as_str().to_owned();
    m.append(" (argument #");
    let num = decimal_string((k + 1) as u128);
    m.append(num.as_str());
    m.append(") is not a ");
    m.append(what);
    report(m, Severity::Error, e.span, clone_opt(&ctx.wrong_type_help), &ctx.source_info)
}

fn property_missing(n: &Node, key: &str, ctx: &ErrorContext) -> (e: ParsingError)
    ensures
        reports(e, prop_missing(*n, key@, ctx.model()), ctx.source_info),
{
    let mut m = "property `".to_owned();
    m.append(key);
    m.append("` not provided for ");
    m.append(ctx.context.as_str());
    report(m, Severity::Error, n.span, clone_opt(&ctx.not_found_help), &ctx.source_info)
}

fn property_wrong(span: Span, key: &str, ctx: &ErrorContext, what: &str) -> (e: ParsingError)
    ensures
        reports(e, prop_wrong(span, key@, ctx.model(), what@), ctx.source_info),
{
    let mut m = "property `".to_owned();
    m.append(key);
    m.append("` for ");
    m.append(ctx.context.as_str());
    m.append(" does not contain a ");
    m.append(what);
    report(m, Severity::Error, span, clone_opt(&ctx.wrong_type_help), &ctx.source_info)
}

impl Node {
    /// The `k`-th argument, which must be a string.
    pub fn extract_argument_string(&self, k: usize, ctx: &ErrorContext) -> (r: Result<&String, ParsingError>)
        requires
            k < usize::MAX,
        ensures
            agrees(r, spec_argument_string(*self, k as int, ctx.model()), ctx.source_info, |a: &String, b: Seq<char>| a@ == b),
    {
        match self.argument(k) {
            None => Err(argument_missing(self, k, ctx)),
            Some(e) => match &e.value {
                Value::String(s) => Ok(s),
                _ => Err(argument_wrong(e, k, ctx, "string")),
            },
        }
    }

    /// The `k`-th argument, which must be an integer.
    pub fn extract_argument_int(&self, k: usize, ctx: &ErrorContext) -> (r: Result<i128, ParsingError>)
        requires
            k < usize::MAX,
        ensures
            agrees(r, spec_argument_int(*self, k as int, ctx.model()), ctx.source_info, |a: i128, b: i128| a == b),
    {
        match self.argument(k) {
            None => Err(argument_missing(self, k, ctx)),
            Some(e) => match &e.value {
                Value::Integer(v) => Ok(*v),
                _ => Err(argument_wrong(e, k, ctx, "string")),
            },
        }
    }

    /// The `k`-th argument, which must be a boolean.
    pub fn extract_argument_bool(&self, k: usize, ctx: &ErrorContext) -> (r: Result<bool, ParsingError>)
        requires
            k < usize::MAX,
        ensures
            agrees(r, spec_argument_bool(*self, k as int, ctx.model()), ctx.source_info, |a: bool, b: bool| a == b),
    {
        match self.argument(k) {
            None => Err(argument_missing(self, k, ctx)),
            Some(e) => match &e.value {
                Value::Bool(v) => Ok(*v),
                _ => Err(argument_wrong(e, k, ctx, "boolean")),
            },
        }
    }

    /// The property `key`, which must be a string.
    pub fn extract_property_string(&self, key: &str, ctx: &ErrorContext) -> (r: Result<&String, ParsingError>)
        ensures
            agrees(r, spec_property_string(*self, key@, ctx.model()), ctx.source_info, |a: &String, b: Seq<char>| a@ == b),
    {
        match self.property(key) {
            None => Err(property_missing(self, key, ctx)),
            Some(e) => match &e.value {
                Value::String(s) => Ok(s),
                _ => Err(property_wrong(e.span, key, ctx, "string")),
            },
        }
    }

    /// The property `key`, which must be a boolean.
    pub fn extract_property_bool(&self, key: &str, ctx: &ErrorContext) -> (r: Result<bool, ParsingError>)
        ensures
            agrees(r, spec_property_bool(*self, key@, ctx.model()), ctx.source_info, |a: bool, b: bool| a == b),
    {
        match self.property(key) {
            None => Err(property_missing(self, key, ctx)),
            Some(e) => match &e.value {
                Value::Bool(v) => Ok(*v),
                _ => Err(property_wrong(self.span, key, ctx, "boolean value (#true or #false)")),
            },
        }
    }

    /// The property `key`, which must be an integer.
    pub fn extract_property_int(&self, key: &str, ctx: &ErrorContext) -> (r: Result<i128, ParsingError>)
        ensures
            agrees(r, spec_property_int(*self, key@, ctx.model()), ctx.source_info, |a: i128, b: i128| a == b),
    {
        match self.property(key) {
            None => Err(property_missing(self, key, ctx)),
            Some(e) => match &e.value {
                Value::Integer(v) => Ok(*v),
                _ => Err(property_wrong(e.span, key, ctx, "string")),
            },
        }
    }

    /// The children, which must be there.
    pub fn extract_children(&self, ctx: &ErrorContext) -> (r: Result<&NodeList, ParsingError>)
        ensures
            agrees(r, spec_children(*self, ctx.model()), ctx.source_info, |a: &NodeList, b: NodeList| *a == b),
    {
        match &self.children {
            Some(d) => Ok(d),
            None => {
                let mut m = ctx.context.as_str().to_owned();
                m.append(" does not have any child");
                Err(report(m, Severity::Error, self.span, clone_opt(&ctx.not_found_help), &ctx.source_info))
            },
        }
    }
}

impl NodeList {
    /// The first child called `name`, which must be there.
    pub fn extract_child_node(&self, name: &str, ctx: &ErrorContext) -> (r: Result<&Node, ParsingError>)
        ensures
            agrees(r, spec_child_node(*self, name@, ctx.model()), ctx.source_info, |a: &Node, b: Node| *a == b),
    {
        match self.get(name) {
            Some(n) => Ok(n),
            None => {
                let mut m = ctx.context.as_str().to_owned();
                m.append(" lacks child `");
                m.append(name);
                m.append("`");
                Err(report(m, Severity::Error, self.span, clone_opt(&ctx.not_found_help), &ctx.source_info))
            },
        }
    }
}

} // verus!

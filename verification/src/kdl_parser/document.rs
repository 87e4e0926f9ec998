//! The KDL documents the parser reads: the tree that the `kdl` crate
//! parses, held as plain values, and the lookups the parser makes in it.

use std::sync::Arc;
use vstd::prelude::*;
use super::errors::{share_source, Diagnostic, ParsingError, Severity, SourceInfo, Span};
use crate::text::{decimal, decimal_string, str_equal};

verus! {

/// A value of a KDL entry.
#[derive(Debug)]
pub enum Value {
    String(String),
    Integer(i128),
    Bool(bool),
    /// A float or `#null`, which the parser never reads.
    Other,
}

/// An argument (no name) or a property (`name=value`) of a node.
#[derive(Debug)]
pub struct Entry {
    pub name: Option<String>,
    pub value: Value,
    pub span: Span,
}

/// A node: its name, entries and children.
#[derive(Debug)]
pub struct Node {
    pub name: String,
    pub entries: Vec<Entry>,
    pub children: Option<NodeList>,
    pub span: Span,
}

/// A list of nodes.
#[derive(Debug)]
pub struct NodeList {
    pub nodes: Vec<Node>,
    pub span: Span,
}

/// A problem that the KDL parser reports.
#[derive(Debug)]
pub struct KdlProblem {
    pub message: Option<String>,
    pub label: Option<String>,
    pub help: Option<String>,
    pub severity: Severity,
    pub span: Span,
}

/// What `kdl::KdlDocument::parse_v2` makes of a text.
pub uninterp spec fn kdl_parse(text: Seq<char>) -> Result<NodeList, Vec<KdlProblem>>;

#[verifier::external_type_specification]
#[verifier::external_body]
pub struct ExKdlDocument(kdl::KdlDocument);

#[verifier::external_type_specification]
#[verifier::external_body]
pub struct ExKdlNode(kdl::KdlNode);

#[verifier::external_type_specification]
#[verifier::external_body]
pub struct ExKdlEntry(kdl::KdlEntry);

#[verifier::external_type_specification]
#[verifier::external_body]
pub struct ExKdlDiagnostic(kdl::KdlDiagnostic);

#[verifier::external_type_specification]
#[verifier::external_body]
pub struct ExSourceSpan(miette::SourceSpan);

/// Converts a span of the `kdl` crate (`miette::SourceSpan`).
#[verifier::external_body]
fn span_of(s: miette::SourceSpan) -> Span {
    Span { offset: s.offset(), len: s.len() }
}

/// Converts an entry of the `kdl` crate, field by field.
#[verifier::external_body]
fn entry_of(e: &kdl::KdlEntry) -> Entry {
    let value = match e.value() {
        kdl::KdlValue::String(s) => Value::String(s.clone()),
        kdl::KdlValue::Integer(i) => Value::Integer(*i),
        kdl::KdlValue::Bool(b) => Value::Bool(*b),
        _ => Value::Other,
    };
    Entry { name: e.name().map(|n| n.value().to_owned()), value, span: span_of(e.span()) }
}

/// Converts a node of the `kdl` crate, field by field.
#[verifier::external_body]
fn node_of(n: &kdl::KdlNode) -> Node {
    Node {
        name: n.name().value().to_owned(),
        entries: n.entries().iter().map(entry_of).collect(),
        children: n.children().map(document_of),
        span: span_of(n.span()),
    }
}

/// Converts a document of the `kdl` crate, node by node.
#[verifier::external_body]
fn document_of(d: &kdl::KdlDocument) -> NodeList {
    NodeList { nodes: d.nodes().iter().map(node_of).collect(), span: span_of(d.span()) }
}

/// Converts a diagnostic of the `kdl` crate, field by field.
#[verifier::external_body]
fn problem_of(d: &kdl::KdlDiagnostic) -> KdlProblem {
    let severity = match d.severity {
        miette::Severity::Advice => Severity::Advice,
        miette::Severity::Warning => Severity::Warning,
        miette::Severity::Error => Severity::Error,
    };
    KdlProblem { message: d.message.clone(), label: d.label.clone(), help: d.help.clone(), severity, span: span_of(d.span) }
}

/// Parses a KDL (version 2) text with `kdl::KdlDocument::parse_v2`; the
/// result, the tree or the problems found, is named [`kdl_parse`].
#[verifier::external_body]
pub fn parse_kdl_text(text: &str) -> (r: Result<NodeList, Vec<KdlProblem>>)
    ensures
        r == kdl_parse(text@),
{
    match kdl::KdlDocument::parse_v2(text) {
        Ok(d) => Ok(document_of(&d)),
        Err(e) => Err(e.diagnostics.iter().map(problem_of).collect()),
    }
}

// ---------------------------------------------------------------------
// Lookups, as the `kdl` crate makes them
// ---------------------------------------------------------------------

/// The `k`-th argument (entry without a name) among `entries`.
pub open spec fn nth_argument(entries: Seq<Entry>, k: int) -> Option<int>
    decreases entries.len(),
{
    if entries.len() == 0 {
        None
    } else {
        match nth_argument(entries.drop_last(), k) {
            Some(i) => Some(i),
            None => if entries.last().name is None && argument_count(entries.drop_last()) == k {
                Some(entries.len() - 1)
            } else {
                None
            },
        }
    }
}

/// Number of arguments among `entries`.
pub open spec fn argument_count(entries: Seq<Entry>) -> int
    decreases entries.len(),
{
    if entries.len() == 0 {
        0
    } else {
        argument_count(entries.drop_last()) + if entries.last().name is None {
            1int
        } else {
            0int
        }
    }
}

/// The last property called `key` among `entries`: a later one wins.
pub open spec fn last_property(entries: Seq<Entry>, key: Seq<char>) -> Option<int>
    decreases entries.len(),
{
    if entries.len() == 0 {
        None
    } else if entries.last().name matches Some(n) && n@ == key {
        Some(entries.len() - 1)
    } else {
        last_property(entries.drop_last(), key)
    }
}

/// The first node called `name`.
pub open spec fn first_node(nodes: Seq<Node>, name: Seq<char>) -> Option<int>
    decreases nodes.len(),
{
    if nodes.len() == 0 {
        None
    } else {
        match first_node(nodes.drop_last(), name) {
            Some(i) => Some(i),
            None => if nodes.last().name@ == name {
                Some(nodes.len() - 1)
            } else {
                None
            },
        }
    }
}

proof fn lemma_nth_argument_bound(entries: Seq<Entry>, k: int)
    ensures
        nth_argument(entries, k) matches Some(i) ==> 0 <= i < entries.len() && entries[i].name is None,
        argument_count(entries) >= 0,
        nth_argument(entries, k) is None && 0 <= k ==> argument_count(entries) <= k,
    decreases entries.len(),
{
    if entries.len() > 0 {
        lemma_nth_argument_bound(entries.drop_last(), k);
    }
}

proof fn lemma_last_property_bound(entries: Seq<Entry>, key: Seq<char>)
    ensures
        last_property(entries, key) matches Some(i) ==> 0 <= i < entries.len(),
    decreases entries.len(),
{
    if entries.len() > 0 {
        lemma_last_property_bound(entries.drop_last(), key);
    }
}

proof fn lemma_first_node_bound(nodes: Seq<Node>, name: Seq<char>)
    ensures
        first_node(nodes, name) matches Some(i) ==> 0 <= i < nodes.len() && nodes[i].name@ == name,
    decreases nodes.len(),
{
    if nodes.len() > 0 {
        lemma_first_node_bound(nodes.drop_last(), name);
    }
}

impl Node {
    /// The `k`-th argument (`kdl::KdlNode::entry` with a number).
    pub fn argument(&self, k: usize) -> (r: Option<&Entry>)
        ensures
            match nth_argument(self.entries@, k as int) {
                Some(i) => r matches Some(e) && *e == self.entries@[i],
                None => r is None,
            },
    {
        let mut count: usize = 0;
        let mut i: usize = 0;
        assert(self.entries@.take(0) =~= Seq::<Entry>::empty());
        while i < self.entries.len()
            invariant
                i <= self.entries@.len(),
                count == argument_count(self.entries@.take(i as int)),
                count <= i,
                nth_argument(self.entries@.take(i as int), k as int) is None,
            decreases self.entries@.len() - i,
        {
            let ghost t = self.entries@.take(i + 1);
            assert(t.drop_last() =~= self.entries@.take(i as int));
            assert(t.last() == self.entries@[i as int]);
            if self.entries[i].name.is_none() {
                if count == k {
                    proof {
                        lemma_nth_prefix(self.entries@, i + 1, k as int);
                    }
                    return Some(&self.entries[i]);
                }
                count = count + 1;
            }
            i = i + 1;
        }
        assert(self.entries@.take(i as int) =~= self.entries@);
        None
    }

    /// The last property called `key` (`kdl::KdlNode::entry` with a string).
    pub fn property(&self, key: &str) -> (r: Option<&Entry>)
        ensures
            match last_property(self.entries@, key@) {
                Some(i) => r matches Some(e) && *e == self.entries@[i],
                None => r is None,
            },
    {
        let mut i = self.entries.len();
        assert(self.entries@.take(i as int) =~= self.entries@);
        while i > 0
            invariant
                i <= self.entries@.len(),
                last_property(self.entries@, key@) == last_property(self.entries@.take(i as int), key@),
            decreases i,
        {
            let ghost t = self.entries@.take(i as int);
            assert(t.drop_last() =~= self.entries@.take(i - 1));
            assert(t.last() == self.entries@[i - 1]);
            match &self.entries[i - 1].name {
                Some(n) => {
                    if str_equal(n.as_str(), key) {
                        return Some(&self.entries[i - 1]);
                    }
                },
                None => {},
            }
            i = i - 1;
        }
        None
    }
}

proof fn lemma_nth_prefix(entries: Seq<Entry>, j: int, k: int)
    requires
        0 <= j <= entries.len(),
        nth_argument(entries.take(j), k) is Some,
    ensures
        nth_argument(entries, k) == nth_argument(entries.take(j), k),
    decreases entries.len() - j,
{
    if j < entries.len() {
        assert(entries.take(j + 1).drop_last() =~= entries.take(j));
        lemma_nth_prefix(entries, j + 1, k);
    } else {
        assert(entries.take(j) =~= entries);
    }
}

proof fn lemma_first_node_prefix(nodes: Seq<Node>, j: int, name: Seq<char>)
    requires
        0 <= j <= nodes.len(),
        first_node(nodes.take(j), name) is Some,
    ensures
        first_node(nodes, name) == first_node(nodes.take(j), name),
    decreases nodes.len() - j,
{
    if j < nodes.len() {
        assert(nodes.take(j + 1).drop_last() =~= nodes.take(j));
        lemma_first_node_prefix(nodes, j + 1, name);
    } else {
        assert(nodes.take(j) =~= nodes);
    }
}

impl NodeList {
    /// The first node called `name` (`kdl::KdlDocument::get`).
    pub fn get(&self, name: &str) -> (r: Option<&Node>)
        ensures
            match first_node(self.nodes@, name@) {
                Some(i) => r matches Some(n) && *n == self.nodes@[i],
                None => r is None,
            },
    {
        let mut i: usize = 0;
        assert(self.nodes@.take(0) =~= Seq::<Node>::empty());
        while i < self.nodes.len()
            invariant
                i <= self.nodes@.len(),
                first_node(self.nodes@.take(i as int), name@) is None,
            decreases self.nodes@.len() - i,
        {
            let ghost t = self.nodes@.take(i + 1);
            assert(t.drop_last() =~= self.nodes@.take(i as int));
            assert(t.last() == self.nodes@[i as int]);
            if str_equal(self.nodes[i].name.as_str(), name) {
                proof {
                    lemma_first_node_prefix(self.nodes@, i + 1, name@);
                }
                return Some(&self.nodes[i]);
            }
            i = i + 1;
        }
        assert(self.nodes@.take(i as int) =~= self.nodes@);
        None
    }
}

} // verus!

//! The registry of definitions and of the dependencies between them.

use vstd::prelude::*;
use super::graph::{graph_edges, graph_node_count, is_acyclic, is_topological_order, DependencyGraph};
use super::schema::{DataType, Definition, DefinitionRef, Json, JsonField};
use crate::generators::cpp::clone_datatype;
use std::sync::Arc;
use crate::kdl_parser::errors::{share_source, Diagnostic, Severity};
use crate::text::str_equal;

verus! {

/// The last binding of `name`: a later insertion of a name wins.
pub open spec fn lookup(names: Seq<(Seq<char>, usize)>, name: Seq<char>) -> Option<usize>
    decreases names.len(),
{
    if names.len() == 0 {
        None
    } else if names.last().0 == name {
        Some(names.last().1)
    } else {
        lookup(names.drop_last(), name)
    }
}

/// The definitions a type refers to, in order.
pub open spec fn type_deps(t: DataType) -> Seq<usize>
    decreases t,
{
    match t {
        DataType::Definition { definition, .. } => seq![definition],
        DataType::Array { inner_type, .. } => type_deps(*inner_type),
        DataType::StringArray { inner_type, .. } => type_deps(*inner_type),
        DataType::Dictionary { key, value } => type_deps(*key) + type_deps(*value),
        _ => Seq::empty(),
    }
}

/// The definitions the fields refer to, field after field.
pub open spec fn fields_deps(fields: Seq<JsonField>) -> Seq<usize>
    decreases fields.len(),
{
    if fields.len() == 0 {
        Seq::empty()
    } else {
        fields_deps(fields.drop_last()) + type_deps(fields.last().type_)
    }
}

/// The definitions a definition refers to.
pub open spec fn definition_deps(d: Definition) -> Seq<usize> {
    match d {
        Definition::Json(j) => fields_deps(j.fields@),
        _ => Seq::empty(),
    }
}

/// One edge from each dependency to the definition `me`.
pub open spec fn dep_edges(deps: Seq<usize>, me: usize) -> Seq<(usize, usize)> {
    deps.map_values(|d: usize| (d, me))
}

/// How many references to definitions `t` holds, resolved or by name.
pub open spec fn type_size(t: DataType) -> nat
    decreases t,
{
    match t {
        DataType::Definition { .. } => 1,
        DataType::Unknown { .. } => 1,
        DataType::Array { inner_type, .. } => type_size(*inner_type),
        DataType::StringArray { inner_type, .. } => type_size(*inner_type),
        DataType::Dictionary { key, value } => type_size(*key) + type_size(*value),
        _ => 0,
    }
}

/// How many references to definitions the fields hold.
pub open spec fn fields_size(fields: Seq<JsonField>) -> nat
    decreases fields.len(),
{
    if fields.len() == 0 {
        0
    } else {
        fields_size(fields.drop_last()) + type_size(fields.last().type_)
    }
}

/// How many references to definitions the definitions hold.
pub open spec fn defs_size(defs: Seq<Definition>) -> nat
    decreases defs.len(),
{
    if defs.len() == 0 {
        0
    } else {
        defs_size(defs.drop_last()) + match defs.last() {
            Definition::Json(j) => fields_size(j.fields@),
            _ => 0,
        }
    }
}

/// How many resolved references the definitions hold.
pub open spec fn defs_deps_len(defs: Seq<Definition>) -> nat
    decreases defs.len(),
{
    if defs.len() == 0 {
        0
    } else {
        defs_deps_len(defs.drop_last()) + definition_deps(defs.last()).len()
    }
}

fn type_deps_of(t: &DataType) -> (r: Vec<usize>)
    ensures
        r@ == type_deps(*t),
    decreases t,
{
    match t {
        DataType::Definition { definition, .. } => {
            let mut r: Vec<usize> = Vec::new();
            r.push(*definition);
            assert(r@ =~= seq![*definition]);
            r
        },
        DataType::Array { inner_type, .. } => type_deps_of(inner_type),
        DataType::StringArray { inner_type, .. } => type_deps_of(inner_type),
        DataType::Dictionary { key, value } => {
            let mut a = type_deps_of(key);
            let mut b = type_deps_of(value);
            a.append(&mut b);
            a
        },
        _ => Vec::new(),
    }
}

fn definition_deps_of(d: &Definition) -> (r: Vec<usize>)
    ensures
        r@ == definition_deps(*d),
{
    match d {
        Definition::Json(j) => {
            let mut r: Vec<usize> = Vec::new();
            let mut k: usize = 0;
            assert(j.fields@.take(0) =~= Seq::<JsonField>::empty());
            while k < j.fields.len()
                invariant
                    k <= j.fields@.len(),
                    r@ == fields_deps(j.fields@.take(k as int)),
                decreases j.fields@.len() - k,
            {
                let mut more = type_deps_of(&j.fields[k].type_);
                assert(j.fields@.take(k + 1).drop_last() =~= j.fields@.take(k as int));
                r.append(&mut more);
                k = k + 1;
            }
            assert(j.fields@.take(j.fields@.len() as int) =~= j.fields@);
            r
        },
        _ => Vec::new(),
    }
}

fn find_name(names: &Vec<(String, usize)>, name: &str) -> (r: Option<usize>)
    ensures
        r == lookup(names_view(names@), name@),
{
    let mut k = names.len();
    assert(names_view(names@).take(k as int) =~= names_view(names@));
    while k > 0
        invariant
            k <= names@.len(),
            lookup(names_view(names@), name@) == lookup(names_view(names@).take(k as int), name@),
        decreases k,
    {
        let ghost nv = names_view(names@);
        assert(nv.take(k as int).drop_last() =~= nv.take(k - 1));
        assert(nv.take(k as int).last() == nv[k - 1]);
        if str_equal(names[k - 1].0.as_str(), name) {
            return Some(names[k - 1].1);
        }
        k = k - 1;
    }
    None
}

/// Names with the text of each.
pub open spec fn names_view(names: Seq<(String, usize)>) -> Seq<(Seq<char>, usize)> {
    names.map_values(|p: (String, usize)| (p.0@, p.1))
}

/// A registry being filled: definitions may still refer to others by a
/// name that is not resolved.
#[derive(Debug)]
pub struct PartialDefinitionRegistry {
    definitions: Vec<Definition>,
    names: Vec<(String, usize)>,
    graph: DependencyGraph,
}

/// A complete registry: every reference by name has been resolved.
#[derive(Debug)]
pub struct DefinitionRegistry {
    definitions: Vec<Definition>,
    names: Vec<(String, usize)>,
    graph: DependencyGraph,
}

/// The parts of a registry agree: one graph node per definition, every
/// name is bound to a definition of that name, every edge joins two
/// definitions, and every definition can be found by its name.
pub open spec fn registry_wf(defs: Seq<Definition>, names: Seq<(Seq<char>, usize)>, edges: Seq<(usize, usize)>, count: nat) -> bool {
    &&& count == defs.len()
    &&& defs.len() <= u32::MAX
    &&& forall|k: int| 0 <= k < names.len() ==> #[trigger] names[k].1 < defs.len() && defs[names[k].1 as int].spec_name() == names[k].0
    &&& forall|e: int| 0 <= e < edges.len() ==> #[trigger] edges[e].0 < defs.len() && edges[e].1 < defs.len()
    &&& forall|i: int| 0 <= i < defs.len() ==> lookup(names, #[trigger] defs[i].spec_name()) is Some
}

/// A name is bound only by a binding of that name.
pub proof fn lemma_lookup_entry(names: Seq<(Seq<char>, usize)>, name: Seq<char>)
    requires
        lookup(names, name) is Some,
    ensures
        exists|k: int| 0 <= k < names.len() && #[trigger] names[k] == (name, lookup(names, name)->0),
    decreases names.len(),
{
    if names.last().0 == name {
        assert(names[names.len() - 1] == (name, lookup(names, name)->0));
    } else {
        lemma_lookup_entry(names.drop_last(), name);
        let k = choose|k: int| 0 <= k < names.drop_last().len() && #[trigger] names.drop_last()[k] == (name, lookup(names.drop_last(), name)->0);
        assert(names[k] == names.drop_last()[k]);
    }
}

proof fn lemma_lookup_bound(names: Seq<(Seq<char>, usize)>, name: Seq<char>, n: nat)
    requires
        forall|k: int| 0 <= k < names.len() ==> #[trigger] names[k].1 < n,
    ensures
        lookup(names, name) matches Some(i) ==> i < n,
    decreases names.len(),
{
    if names.len() > 0 {
        assert(names[names.len() - 1].1 < n);
        lemma_lookup_bound(names.drop_last(), name, n);
    }
}

impl PartialDefinitionRegistry {
    pub closed spec fn definitions(&self) -> Seq<Definition> {
        self.definitions@
    }

    pub closed spec fn names(&self) -> Seq<(Seq<char>, usize)> {
        names_view(self.names@)
    }

    pub closed spec fn edges(&self) -> Seq<(usize, usize)> {
        graph_edges(self.graph)
    }

    pub closed spec fn wf(&self) -> bool {
        registry_wf(self.definitions@, names_view(self.names@), graph_edges(self.graph), graph_node_count(self.graph))
    }

    /// An empty registry.
    pub fn new() -> (r: PartialDefinitionRegistry)
        ensures
            r.wf(),
            r.definitions().len() == 0,
            r.names().len() == 0,
            r.edges().len() == 0,
    {
        PartialDefinitionRegistry { definitions: Vec::new(), names: Vec::new(), graph: DependencyGraph::new() }
    }

    /// The definition currently bound to `name`.
    pub fn find_weak(&self, name: &str) -> (r: Option<DefinitionRef>)
        requires
            self.wf(),
        ensures
            r == lookup(self.names(), name@),
            r matches Some(i) ==> i < self.definitions().len(),
    {
        proof {
            lemma_lookup_bound(names_view(self.names@), name@, self.definitions@.len());
        }
        find_name(&self.names, name)
    }

    /// Adds a definition, binds its name to it (replacing an earlier
    /// binding) and records an edge from each definition it refers to.
    /// Returns its index. The node and the edges must fit the graph's `u32`
    /// indices, which `requires` states.
    pub fn insert(&mut self, definition: Definition) -> (r: DefinitionRef)
        requires
            old(self).wf(),
            old(self).definitions().len() < u32::MAX,
            forall|k: int| 0 <= k < definition_deps(definition).len() ==> #[trigger] definition_deps(definition)[k]
                <= old(self).definitions().len(),
            old(self).edges().len() + definition_deps(definition).len() < u32::MAX,
        ensures
            final(self).wf(),
            r == old(self).definitions().len(),
            final(self).definitions() == old(self).definitions().push(definition),
            final(self).names() == old(self).names().push((definition.spec_name(), r)),
            final(self).edges() == old(self).edges() + dep_edges(definition_deps(definition), r),
    {
        let deps = definition_deps_of(&definition);
        let name = definition.name().clone();
        let ghost old_defs = self.definitions@;
        let ghost old_names = names_view(self.names@);
        let ghost old_edges = graph_edges(self.graph);
        assert(registry_wf(old_defs, old_names, old_edges, old_defs.len()));
        let idx = self.graph.add_node();
        self.definitions.push(definition);
        self.names.push((name, idx));
        assert(names_view(self.names@) =~= old_names.push((definition.spec_name(), idx)));
        let mut k: usize = 0;
        assert(dep_edges(deps@.take(0), idx) =~= Seq::<(usize, usize)>::empty());
        assert(old_edges + Seq::<(usize, usize)>::empty() =~= old_edges);
        while k < deps.len()
            invariant
                k <= deps@.len(),
                deps@ == definition_deps(definition),
                idx == old_defs.len(),
                graph_node_count(self.graph) == old_defs.len() + 1,
                forall|t: int| 0 <= t < deps@.len() ==> #[trigger] deps@[t] <= old_defs.len(),
                old_edges.len() + deps@.len() < u32::MAX,
                graph_edges(self.graph) == old_edges + dep_edges(deps@.take(k as int), idx),
                self.definitions@ == old_defs.push(definition),
                names_view(self.names@) == old_names.push((definition.spec_name(), idx)),
                registry_wf(old_defs, old_names, old_edges, old_defs.len()),
            decreases deps@.len() - k,
        {
            self.graph.add_edge(deps[k], idx);
            assert(dep_edges(deps@.take(k + 1), idx) =~= dep_edges(deps@.take(k as int), idx).push((deps@[k as int], idx)));
            assert(old_edges + dep_edges(deps@.take(k + 1), idx) =~= (old_edges + dep_edges(deps@.take(k as int), idx)).push((deps@[k as int], idx)));
            k = k + 1;
        }
        assert(deps@.take(deps@.len() as int) =~= deps@);
        proof {
            let nv = names_view(self.names@);
            let defs = self.definitions@;
            assert forall|i: int| 0 <= i < defs.len() implies lookup(nv, #[trigger] defs[i].spec_name()) is Some by {
                if defs[i].spec_name() != definition.spec_name() {
                    assert(nv.drop_last() =~= old_names);
                    assert(defs[i] == old_defs[i]);
                }
            }
            assert forall|e: int| 0 <= e < graph_edges(self.graph).len() implies #[trigger] graph_edges(self.graph)[e].0 < defs.len()
                && graph_edges(self.graph)[e].1 < defs.len() by {
                if e >= old_edges.len() {
                    let t = e - old_edges.len();
                    assert(graph_edges(self.graph)[e] == (deps@[t], idx));
                }
            }
            assert forall|k2: int| 0 <= k2 < nv.len() implies #[trigger] nv[k2].1 < defs.len() && defs[nv[k2].1 as int].spec_name() == nv[k2].0 by {
                if k2 < old_names.len() {
                    assert(nv[k2] == old_names[k2]);
                    assert(old_names[k2].1 < old_defs.len() && old_defs[old_names[k2].1 as int].spec_name() == old_names[k2].0);
                    assert(defs[nv[k2].1 as int] == old_defs[nv[k2].1 as int]);
                }
            }
        }
        idx
    }
}


/// The first name in `t`, depth first and left to right, that is bound to
/// no definition.
pub open spec fn first_missing(names: Seq<(Seq<char>, usize)>, t: DataType) -> Option<Seq<char>>
    decreases t,
{
    match t {
        DataType::Unknown { name, .. } => if lookup(names, name@) is Some {
            None
        } else {
            Some(name@)
        },
        DataType::Array { inner_type, .. } => first_missing(names, *inner_type),
        DataType::StringArray { inner_type, .. } => first_missing(names, *inner_type),
        DataType::Dictionary { key, value } => match first_missing(names, *key) {
            Some(n) => Some(n),
            None => first_missing(names, *value),
        },
        _ => None,
    }
}

/// The definitions that the names in `t` are bound to, in order.
pub open spec fn type_targets(names: Seq<(Seq<char>, usize)>, t: DataType) -> Seq<usize>
    decreases t,
{
    match t {
        DataType::Unknown { name, .. } => match lookup(names, name@) {
            Some(i) => seq![i],
            None => Seq::empty(),
        },
        DataType::Array { inner_type, .. } => type_targets(names, *inner_type),
        DataType::StringArray { inner_type, .. } => type_targets(names, *inner_type),
        DataType::Dictionary { key, value } => type_targets(names, *key) + type_targets(names, *value),
        _ => Seq::empty(),
    }
}

/// `b` is `a` with each name, wherever it stands, replaced by the
/// definition it is bound to.
pub open spec fn type_resolved_as(names: Seq<(Seq<char>, usize)>, a: DataType, b: DataType) -> bool
    decreases a,
{
    match a {
        DataType::Unknown { encoding, name } => match lookup(names, name@) {
            Some(i) => b == DataType::Definition { encoding, definition: i },
            None => b == a,
        },
        DataType::Array { inner_type, size } => b matches DataType::Array { inner_type: bi, size: bs } && bs == size
            && type_resolved_as(names, *inner_type, *bi),
        DataType::StringArray { inner_type, separator, size } => b matches DataType::StringArray {
            inner_type: bi,
            separator: bsep,
            size: bs,
        } && bs == size && bsep == separator && type_resolved_as(names, *inner_type, *bi),
        DataType::Dictionary { key, value } => b matches DataType::Dictionary { key: bk, value: bv } && type_resolved_as(
            names,
            *key,
            *bk,
        ) && type_resolved_as(names, *value, *bv),
        _ => b == a,
    }
}

/// `t` holds no reference by name.
pub open spec fn no_unknown(t: DataType) -> bool
    decreases t,
{
    match t {
        DataType::Unknown { .. } => false,
        DataType::Array { inner_type, .. } => no_unknown(*inner_type),
        DataType::StringArray { inner_type, .. } => no_unknown(*inner_type),
        DataType::Dictionary { key, value } => no_unknown(*key) && no_unknown(*value),
        _ => true,
    }
}

/// With every name in `a` bound, what `a` is resolved as holds no
/// reference by name.
pub proof fn lemma_resolved_no_unknown(names: Seq<(Seq<char>, usize)>, a: &DataType, b: &DataType)
    requires
        first_missing(names, *a) is None,
        type_resolved_as(names, *a, *b),
    ensures
        no_unknown(*b),
    decreases a,
{
    match (a, b) {
        (DataType::Array { inner_type, .. }, DataType::Array { inner_type: bi, .. }) => {
            lemma_resolved_no_unknown(names, &**inner_type, &**bi);
        },
        (DataType::StringArray { inner_type, .. }, DataType::StringArray { inner_type: bi, .. }) => {
            lemma_resolved_no_unknown(names, &**inner_type, &**bi);
        },
        (DataType::Dictionary { key, value }, DataType::Dictionary { key: bk, value: bv }) => {
            lemma_resolved_no_unknown(names, &**key, &**bk);
            lemma_resolved_no_unknown(names, &**value, &**bv);
        },
        _ => {},
    }
}

/// The field does not refer to an unbound name.
pub open spec fn field_resolves(names: Seq<(Seq<char>, usize)>, f: JsonField) -> bool {
    first_missing(names, f.type_) is None
}

/// `b` is the field `a` with its references by name resolved.
pub open spec fn field_resolved_as(names: Seq<(Seq<char>, usize)>, a: JsonField, b: JsonField) -> bool {
    &&& b.index == a.index
    &&& b.name == a.name
    &&& b.key == a.key
    &&& b.optional == a.optional
    &&& b.doc == a.doc
    &&& b.span == a.span
    &&& type_resolved_as(names, a.type_, b.type_)
}

/// The edges that resolving the fields of the definition `me` adds.
pub open spec fn json_edges(names: Seq<(Seq<char>, usize)>, fields: Seq<JsonField>, me: usize) -> Seq<(usize, usize)>
    decreases fields.len(),
{
    if fields.len() == 0 {
        Seq::empty()
    } else {
        json_edges(names, fields.drop_last(), me) + dep_edges(type_targets(names, fields.last().type_), me)
    }
}

/// The first field that refers to an unbound name.
pub open spec fn first_unresolved_field(names: Seq<(Seq<char>, usize)>, fields: Seq<JsonField>) -> Option<int>
    decreases fields.len(),
{
    if fields.len() == 0 {
        None
    } else {
        match first_unresolved_field(names, fields.drop_last()) {
            Some(k) => Some(k),
            None => if !field_resolves(names, fields.last()) {
                Some(fields.len() - 1)
            } else {
                None
            },
        }
    }
}

pub open spec fn definition_edges(names: Seq<(Seq<char>, usize)>, d: Definition) -> Seq<(usize, usize)> {
    match d {
        Definition::Json(j) => match lookup(names, j.name@) {
            Some(me) => json_edges(names, j.fields@, me),
            None => Seq::empty(),
        },
        _ => Seq::empty(),
    }
}

/// The edges that resolving all the definitions adds, in order.
pub open spec fn all_edges(names: Seq<(Seq<char>, usize)>, defs: Seq<Definition>) -> Seq<(usize, usize)>
    decreases defs.len(),
{
    if defs.len() == 0 {
        Seq::empty()
    } else {
        all_edges(names, defs.drop_last()) + definition_edges(names, defs.last())
    }
}

pub open spec fn definition_unresolved(names: Seq<(Seq<char>, usize)>, d: Definition) -> Option<int> {
    match d {
        Definition::Json(j) => first_unresolved_field(names, j.fields@),
        _ => None,
    }
}

/// The first definition, and its first field, that refers to an unbound
/// name.
pub open spec fn first_unresolved(names: Seq<(Seq<char>, usize)>, defs: Seq<Definition>) -> Option<(int, int)>
    decreases defs.len(),
{
    if defs.len() == 0 {
        None
    } else {
        match first_unresolved(names, defs.drop_last()) {
            Some(p) => Some(p),
            None => match definition_unresolved(names, defs.last()) {
                Some(k) => Some((defs.len() - 1, k)),
                None => None,
            },
        }
    }
}

/// `b` is `a` with the references by name of its fields resolved.
pub open spec fn resolved_definition(names: Seq<(Seq<char>, usize)>, a: Definition, b: Definition) -> bool {
    match (a, b) {
        (Definition::Json(x), Definition::Json(y)) => {
            &&& y.index == x.index
            &&& y.name == x.name
            &&& y.doc == x.doc
            &&& y.source == x.source
            &&& y.span == x.span
            &&& y.fields@.len() == x.fields@.len()
            &&& forall|k: int| 0 <= k < x.fields@.len() ==> field_resolved_as(names, x.fields@[k], #[trigger] y.fields@[k])
        },
        (Definition::IntEnum(x), Definition::IntEnum(y)) => x == y,
        (Definition::StringEnum(x), Definition::StringEnum(y)) => x == y,
        _ => false,
    }
}

/// `d` reports that the field `f` of `j` refers, by `name`, to a name
/// bound to no definition.
pub open spec fn is_missing_definition(d: Diagnostic, j: Json, f: JsonField, name: Seq<char>) -> bool {
    &&& d.message@ == "could not find definition `"@ + name + "`"@
    &&& d.severity == Severity::Error
    &&& d.source_info == j.source
    &&& d.span == f.span
    &&& d.help is None
    &&& d.label is None
    &&& d.related@.len() == 1
    &&& d.related@[0].message@ == "the definition "@ + name + " is used inside field `"@ + j.name@ + "::"@ + f.name@
        + "`"@
    &&& d.related@[0].severity == Severity::Advice
    &&& d.related@[0].source_info == j.source
    &&& d.related@[0].span == f.span
    &&& d.related@[0].help is None
    &&& d.related@[0].label is None
    &&& d.related@[0].related@.len() == 0
}

fn missing_definition(json_name: &String, source: &std::sync::Arc<crate::kdl_parser::errors::SourceInfo>, f: &JsonField, name: &String) -> (d: Diagnostic)
    ensures
        d.message@ == "could not find definition `"@ + name@ + "`"@,
        d.severity == Severity::Error,
        d.source_info == *source,
        d.span == f.span,
        d.help is None,
        d.label is None,
        d.related@.len() == 1,
        d.related@[0].message@ == "the definition "@ + name@ + " is used inside field `"@ + json_name@ + "::"@
            + f.name@ + "`"@,
        d.related@[0].severity == Severity::Advice,
        d.related@[0].source_info == *source,
        d.related@[0].span == f.span,
        d.related@[0].help is None,
        d.related@[0].label is None,
        d.related@[0].related@.len() == 0,
{
    let mut advice = name.as_str().to_owned();
    let mut m = "the definition ".to_owned();
    m.append(advice.as_str());
    m.append(" is used inside field `");
    m.append(json_name.as_str());
    m.append("::");
    m.append(f.name.as_str());
    m.append("`");
    advice = m;
    let mut message = "could not find definition `".to_owned();
    message.append(name.as_str());
    message.append("`");
    let mut related: Vec<Diagnostic> = Vec::new();
    related.push(Diagnostic {
        message: advice,
        severity: Severity::Advice,
        source_info: share_source(source),
        span: f.span,
        help: None,
        label: None,
        related: Vec::new(),
    });
    Diagnostic {
        message,
        severity: Severity::Error,
        source_info: share_source(source),
        span: f.span,
        help: None,
        label: None,
        related,
    }
}

/// Resolves every name in `t`; fails with the first name bound to nothing.
/// Also gives the definitions the names are bound to, in order.
fn resolve_type(names: &Vec<(String, usize)>, t: &DataType) -> (r: Result<(DataType, Vec<usize>), String>)
    ensures
        match first_missing(names_view(names@), *t) {
            Some(n) => r matches Err(m) && m@ == n,
            None => r matches Ok((u, ts)) && type_resolved_as(names_view(names@), *t, u) && ts@ == type_targets(
                names_view(names@),
                *t,
            ),
        },
    decreases t,
{
    match t {
        DataType::Unknown { encoding, name } => match find_name(names, name.as_str()) {
            Some(i) => {
                let mut ts: Vec<usize> = Vec::new();
                ts.push(i);
                assert(ts@ =~= seq![i]);
                Ok((DataType::Definition { encoding: *encoding, definition: i }, ts))
            },
            None => Err(name.clone()),
        },
        DataType::Array { inner_type, size } => match resolve_type(names, inner_type) {
            Err(m) => Err(m),
            Ok((u, ts)) => Ok((DataType::Array { inner_type: Arc::new(u), size: *size }, ts)),
        },
        DataType::StringArray { inner_type, separator, size } => match resolve_type(names, inner_type) {
            Err(m) => Err(m),
            Ok((u, ts)) => Ok((DataType::StringArray { inner_type: Arc::new(u), separator: *separator, size: *size }, ts)),
        },
        DataType::Dictionary { key, value } => match resolve_type(names, key) {
            Err(m) => Err(m),
            Ok((k2, a)) => match resolve_type(names, value) {
                Err(m) => Err(m),
                Ok((v2, b)) => {
                    let mut a = a;
                    let mut b = b;
                    a.append(&mut b);
                    Ok((DataType::Dictionary { key: Arc::new(k2), value: Arc::new(v2) }, a))
                },
            },
        },
        _ => Ok((clone_datatype(t), Vec::new())),
    }
}

/// Resolves the fields of one JSON definition, whose own name is bound;
/// returns the edges that the resolution adds.
fn resolve_json(names: &Vec<(String, usize)>, json: &mut Json) -> (r: Result<Vec<(usize, usize)>, Diagnostic>)
    requires
        lookup(names_view(names@), old(json).name@) is Some,
    ensures
        match first_unresolved_field(names_view(names@), old(json).fields@) {
            Some(k) => r matches Err(d) && is_missing_definition(
                d,
                *old(json),
                old(json).fields@[k],
                first_missing(names_view(names@), old(json).fields@[k].type_)->0,
            ),
            None => r matches Ok(edges) && resolved_definition(
                names_view(names@),
                Definition::Json(*old(json)),
                Definition::Json(*final(json)),
            ) && edges@ == json_edges(names_view(names@), old(json).fields@, lookup(names_view(names@), old(json).name@)->0),
        },
{
    let ghost nv = names_view(names@);
    let me = match find_name(names, json.name.as_str()) {
        Some(me) => me,
        None => {
            let mut message = "could not find definition `".to_owned();
            message.append(json.name.as_str());
            message.append("`, which is myself!");
            return Err(Diagnostic {
                message,
                severity: Severity::Error,
                source_info: share_source(&json.source),
                span: json.span,
                help: None,
                label: None,
                related: Vec::new(),
            });
        },
    };
    let mut fields: Vec<JsonField> = Vec::new();
    std::mem::swap(&mut fields, &mut json.fields);
    let ghost old_fields = fields@;
    let n = fields.len();
    let mut out: Vec<JsonField> = Vec::new();
    let mut edges: Vec<(usize, usize)> = Vec::new();
    let mut k: usize = 0;
    assert(old_fields.take(0) =~= Seq::<JsonField>::empty());
    assert(old_fields.skip(0) =~= old_fields);
    while k < n
        invariant
            k <= n,
            n == old_fields.len(),
            old_fields == old(json).fields@,
            json.name == old(json).name,
            json.source == old(json).source,
            json.index == old(json).index,
            json.doc == old(json).doc,
            json.span == old(json).span,
            nv == names_view(names@),
            me == lookup(nv, old(json).name@)->0,
            fields@ == old_fields.skip(k as int),
            out@.len() == k,
            forall|t: int| 0 <= t < k ==> field_resolved_as(nv, old_fields[t], #[trigger] out@[t]),
            edges@ == json_edges(nv, old_fields.take(k as int), me),
            first_unresolved_field(nv, old_fields.take(k as int)) is None,
        decreases n - k,
    {
        assert(old_fields.take(k + 1).drop_last() =~= old_fields.take(k as int));
        assert(old_fields.take(k + 1).last() == old_fields[k as int]);
        assert(old_fields.skip(k as int)[0] == old_fields[k as int]);
        let mut f = fields.remove(0);
        assert(fields@ =~= old_fields.skip(k + 1));
        let (t2, targets) = match resolve_type(names, &f.type_) {
            Err(missing) => {
                let d = missing_definition(&json.name, &json.source, &f, &missing);
                assert(first_unresolved_field(nv, old_fields.take(k + 1)) == Some(k as int));
                proof {
                    lemma_first_unresolved_field_prefix(nv, old_fields, k as int + 1);
                }
                return Err(d);
            },
            Ok(p) => p,
        };
        let ghost f0 = f;
        f.type_ = t2;
        assert(field_resolved_as(nv, f0, f));
        let ghost e0 = edges@;
        let mut q: usize = 0;
        while q < targets.len()
            invariant
                q <= targets@.len(),
                targets@ == type_targets(nv, f0.type_),
                edges@ == e0 + dep_edges(targets@.take(q as int), me),
            decreases targets@.len() - q,
        {
            edges.push((targets[q], me));
            assert(dep_edges(targets@.take(q + 1), me) =~= dep_edges(targets@.take(q as int), me).push((targets@[q as int], me)));
            assert(e0 + dep_edges(targets@.take(q + 1), me) =~= (e0 + dep_edges(targets@.take(q as int), me)).push((targets@[q as int], me)));
            q = q + 1;
        }
        assert(targets@.take(targets@.len() as int) =~= targets@);
        assert(json_edges(nv, old_fields.take(k + 1), me) == json_edges(nv, old_fields.take(k as int), me) + dep_edges(type_targets(nv, old_fields[k as int].type_), me));
        out.push(f);
        k = k + 1;
    }
    assert(old_fields.take(n as int) =~= old_fields);
    json.fields = out;
    Ok(edges)
}

/// Once a prefix of the fields has an unresolved one, the first unresolved
/// field of all of them is that of the prefix.
proof fn lemma_first_unresolved_field_prefix(names: Seq<(Seq<char>, usize)>, fields: Seq<JsonField>, k: int)
    requires
        0 <= k <= fields.len(),
        first_unresolved_field(names, fields.take(k)) is Some,
    ensures
        first_unresolved_field(names, fields) == first_unresolved_field(names, fields.take(k)),
    decreases fields.len() - k,
{
    if k < fields.len() {
        assert(fields.take(k + 1).drop_last() =~= fields.take(k));
        lemma_first_unresolved_field_prefix(names, fields, k + 1);
    } else {
        assert(fields.take(k) =~= fields);
    }
}


/// The definitions the names in a type are bound to are below `n`.
proof fn lemma_targets_bound(names: Seq<(Seq<char>, usize)>, t: &DataType, n: nat)
    requires
        forall|k: int| 0 <= k < names.len() ==> #[trigger] names[k].1 < n,
    ensures
        forall|q: int| 0 <= q < type_targets(names, *t).len() ==> #[trigger] type_targets(names, *t)[q] < n,
    decreases t,
{
    match t {
        DataType::Unknown { name, .. } => {
            lemma_lookup_bound(names, name@, n);
            match lookup(names, name@) {
                Some(i) => {
                    assert(type_targets(names, *t) =~= seq![i]);
                    assert(i < n);
                    assert forall|q: int| 0 <= q < type_targets(names, *t).len() implies #[trigger] type_targets(names, *t)[q] < n by {
                        assert(q == 0);
                    }
                },
                None => {
                    assert(type_targets(names, *t) =~= Seq::<usize>::empty());
                },
            }
        },
        DataType::Array { inner_type, .. } => {
            lemma_targets_bound(names, &**inner_type, n);
            assert(type_targets(names, *t) == type_targets(names, **inner_type));
        },
        DataType::StringArray { inner_type, .. } => {
            lemma_targets_bound(names, &**inner_type, n);
            assert(type_targets(names, *t) == type_targets(names, **inner_type));
        },
        DataType::Dictionary { key, value } => {
            lemma_targets_bound(names, &**key, n);
            lemma_targets_bound(names, &**value, n);
            assert forall|q: int| 0 <= q < type_targets(names, *t).len() implies #[trigger] type_targets(names, *t)[q] < n by {
                if q < type_targets(names, **key).len() {
                    assert(type_targets(names, *t)[q] == type_targets(names, **key)[q]);
                } else {
                    assert(type_targets(names, *t)[q] == type_targets(names, **value)[q - type_targets(names, **key).len()]);
                }
            }
        },
        _ => {
            assert(type_targets(names, *t) =~= Seq::<usize>::empty());
        },
    }
}

proof fn lemma_json_edges_bound(names: Seq<(Seq<char>, usize)>, fields: Seq<JsonField>, me: usize, n: nat)
    requires
        forall|k: int| 0 <= k < names.len() ==> #[trigger] names[k].1 < n,
        me < n,
    ensures
        forall|e: int| 0 <= e < json_edges(names, fields, me).len() ==> #[trigger] json_edges(names, fields, me)[e].0 < n
            && json_edges(names, fields, me)[e].1 < n,
    decreases fields.len(),
{
    if fields.len() > 0 {
        lemma_json_edges_bound(names, fields.drop_last(), me, n);
        lemma_targets_bound(names, &fields.last().type_, n);
        let a = json_edges(names, fields.drop_last(), me);
        let ts = type_targets(names, fields.last().type_);
        let b = dep_edges(ts, me);
        assert(json_edges(names, fields, me) == a + b);
        assert forall|e: int| 0 <= e < (a + b).len() implies (a + b)[e].0 < n && (a + b)[e].1 < n by {
            if e < a.len() {
                assert((a + b)[e] == a[e]);
            } else {
                assert((a + b)[e] == b[e - a.len()]);
                assert(b[e - a.len()] == (ts[e - a.len()], me));
            }
        }
    }
}

/// A type's resolved references and the definitions its names are bound
/// to are no more than the references it holds.
pub proof fn lemma_type_counts(names: Seq<(Seq<char>, usize)>, t: &DataType)
    ensures
        type_deps(*t).len() + type_targets(names, *t).len() <= type_size(*t),
    decreases t,
{
    match t {
        DataType::Array { inner_type, .. } => {
            lemma_type_counts(names, &**inner_type);
        },
        DataType::StringArray { inner_type, .. } => {
            lemma_type_counts(names, &**inner_type);
        },
        DataType::Dictionary { key, value } => {
            lemma_type_counts(names, &**key);
            lemma_type_counts(names, &**value);
        },
        _ => {},
    }
}

pub proof fn lemma_fields_counts(names: Seq<(Seq<char>, usize)>, fields: Seq<JsonField>, me: usize)
    ensures
        fields_deps(fields).len() + json_edges(names, fields, me).len() <= fields_size(fields),
    decreases fields.len(),
{
    if fields.len() > 0 {
        lemma_fields_counts(names, fields.drop_last(), me);
        lemma_type_counts(names, &fields.last().type_);
    }
}

/// The edges that resolving adds, and those the definitions already hold,
/// are no more than the references the definitions hold.
pub proof fn lemma_all_counts(names: Seq<(Seq<char>, usize)>, defs: Seq<Definition>)
    ensures
        all_edges(names, defs).len() + defs_deps_len(defs) <= defs_size(defs),
    decreases defs.len(),
{
    if defs.len() > 0 {
        lemma_all_counts(names, defs.drop_last());
        match defs.last() {
            Definition::Json(j) => {
                lemma_fields_counts(names, j.fields@, 0);
                match lookup(names, j.name@) {
                    Some(me) => {
                        lemma_fields_counts(names, j.fields@, me);
                    },
                    None => {},
                }
            },
            _ => {},
        }
    }
}

/// Inserting a field adds its references to those of the fields.
pub proof fn lemma_fields_size_insert(fields: Seq<JsonField>, p: int, x: JsonField)
    requires
        0 <= p <= fields.len(),
    ensures
        fields_size(fields.insert(p, x)) == fields_size(fields) + type_size(x.type_),
    decreases fields.len(),
{
    if p == fields.len() {
        assert(fields.insert(p, x).drop_last() =~= fields);
    } else {
        lemma_fields_size_insert(fields.drop_last(), p, x);
        assert(fields.insert(p, x).drop_last() =~= fields.drop_last().insert(p, x));
        assert(fields.insert(p, x).last() == fields.last());
    }
}

/// Pushing a definition adds its references.
pub proof fn lemma_defs_push(defs: Seq<Definition>, d: Definition)
    ensures
        defs_size(defs.push(d)) == defs_size(defs) + match d {
            Definition::Json(j) => fields_size(j.fields@),
            _ => 0,
        },
        defs_deps_len(defs.push(d)) == defs_deps_len(defs) + definition_deps(d).len(),
{
    assert(defs.push(d).drop_last() =~= defs);
}

impl PartialDefinitionRegistry {
    /// Resolves every reference to a definition by name, wherever it stands
    /// in a field's type (inside arrays and maps too), adding an edge from
    /// that definition to the one holding the field; fails on the first
    /// name bound to nothing, definition after definition, field after
    /// field, and depth first within a field's type. Every edge added must
    /// fit the graph's `u32` edge indices, which `requires` states.
    #[verifier::spinoff_prover]
    #[verifier::rlimit(50)]
    pub fn finalize(self) -> (r: Result<DefinitionRegistry, Diagnostic>)
        requires
            self.wf(),
            self.edges().len() + all_edges(self.names(), self.definitions()).len() < u32::MAX,
        ensures
            match first_unresolved(self.names(), self.definitions()) {
                Some((i, k)) => r matches Err(d) && (self.definitions()[i] matches Definition::Json(j)
                    && is_missing_definition(d, j, j.fields@[k], first_missing(self.names(), j.fields@[k].type_)->0)),
                None => r matches Ok(reg) && reg.wf() && reg.names() == self.names()
                    && reg.definitions().len() == self.definitions().len() && (forall|i: int|
                    0 <= i < self.definitions().len() ==> resolved_definition(
                        self.names(),
                        self.definitions()[i],
                        #[trigger] reg.definitions()[i],
                    )) && reg.edges() == self.edges() + all_edges(self.names(), self.definitions())
                    && all_resolved(reg.definitions()),
            },
    {
        let ghost nv = names_view(self.names@);
        let ghost old_defs = self.definitions@;
        let ghost old_edges = graph_edges(self.graph);
        assert(nv == self.names() && old_defs == self.definitions() && old_edges == self.edges());
        let mut this = self;
        let mut defs: Vec<Definition> = Vec::new();
        std::mem::swap(&mut defs, &mut this.definitions);
        let n = defs.len();
        let mut out: Vec<Definition> = Vec::new();
        let mut missing: Vec<(usize, usize)> = Vec::new();
        let mut k: usize = 0;
        assert(old_defs.take(0) =~= Seq::<Definition>::empty());
        assert(old_defs.skip(0) =~= old_defs);
        while k < n
            invariant
                k <= n,
                n == old_defs.len(),
                nv == self.names(),
                old_defs == self.definitions(),
                old_edges == self.edges(),
                nv == names_view(this.names@),
                registry_wf(old_defs, nv, old_edges, graph_node_count(this.graph)),
                graph_edges(this.graph) == old_edges,
                defs@ == old_defs.skip(k as int),
                out@.len() == k,
                forall|t: int| 0 <= t < k ==> resolved_definition(nv, old_defs[t], #[trigger] out@[t]),
                missing@ == all_edges(nv, old_defs.take(k as int)),
                forall|e: int| 0 <= e < missing@.len() ==> #[trigger] missing@[e].0 < n && missing@[e].1 < n,
                first_unresolved(nv, old_defs.take(k as int)) is None,
            decreases n - k,
        {
            assert(old_defs.take(k + 1).drop_last() =~= old_defs.take(k as int));
            assert(old_defs.take(k + 1).last() == old_defs[k as int]);
            assert(old_defs.skip(k as int)[0] == old_defs[k as int]);
            let d = defs.remove(0);
            assert(defs@ =~= old_defs.skip(k + 1));
            match d {
                Definition::Json(json) => {
                    let mut j = json;
                    assert(lookup(nv, old_defs[k as int].spec_name()) is Some);
                    let ghost j0 = j;
                    match resolve_json(&this.names, &mut j) {
                        Err(e) => {
                            assert(first_unresolved_field(nv, j0.fields@) is Some);
                            let ghost kk = first_unresolved_field(nv, j0.fields@)->0;
                            assert(is_missing_definition(e, j0, j0.fields@[kk], first_missing(nv, j0.fields@[kk].type_)->0));
                            assert(old_defs[k as int] == Definition::Json(j0));
                            assert(definition_unresolved(nv, old_defs[k as int]) == Some(kk));
                            assert(first_unresolved(nv, old_defs.take(k + 1)) == Some((k as int, kk)));
                            proof {
                                lemma_first_unresolved_prefix(nv, old_defs, k as int + 1);
                            }
                            assert(first_unresolved(nv, old_defs) == Some((k as int, kk)));
                            assert(match first_unresolved(nv, old_defs) {
                                Some((i2, k2)) => (old_defs[i2] matches Definition::Json(jj) && is_missing_definition(e, jj, jj.fields@[k2], first_missing(nv, jj.fields@[k2].type_)->0)),
                                None => false,
                            });
                            return Err(e);
                        },
                        Ok(mut es) => {
                            proof {
                                lemma_lookup_bound(nv, j0.name@, n as nat);
                                lemma_json_edges_bound(nv, j0.fields@, lookup(nv, j0.name@)->0, n as nat);
                            }
                            let ghost before = missing@;
                            missing.append(&mut es);
                            assert(forall|e: int| 0 <= e < missing@.len() ==> #[trigger] missing@[e]
                                == if e < before.len() { before[e] } else { json_edges(nv, j0.fields@, lookup(nv, j0.name@)->0)[e - before.len()] });
                            out.push(Definition::Json(j));
                        },
                    }
                },
                other => {
                    out.push(other);
                    assert(all_edges(nv, old_defs.take(k + 1)) =~= all_edges(nv, old_defs.take(k as int)));
                },
            }
            k = k + 1;
        }
        assert(old_defs.take(n as int) =~= old_defs);
        assert(first_unresolved(nv, old_defs) is None);
        let mut t: usize = 0;
        while t < missing.len()
            invariant
                nv == self.names(),
                old_defs == self.definitions(),
                old_edges == self.edges(),
                nv == names_view(this.names@),
                n == old_defs.len(),
                out@.len() == n,
                forall|t2: int| 0 <= t2 < n ==> resolved_definition(nv, old_defs[t2], #[trigger] out@[t2]),
                registry_wf(old_defs, nv, old_edges, n as nat),
                first_unresolved(nv, old_defs) is None,
                missing@ == all_edges(nv, old_defs),
                t <= missing@.len(),
                graph_node_count(this.graph) == n,
                forall|e: int| 0 <= e < missing@.len() ==> #[trigger] missing@[e].0 < n && missing@[e].1 < n,
                old_edges.len() + missing@.len() < u32::MAX,
                graph_edges(this.graph) == old_edges + missing@.take(t as int),
            decreases missing@.len() - t,
        {
            let (a, b) = missing[t];
            this.graph.add_edge(a, b);
            assert(missing@.take(t + 1) =~= missing@.take(t as int).push((a, b)));
            assert(old_edges + missing@.take(t + 1) =~= (old_edges + missing@.take(t as int)).push((a, b)));
            t = t + 1;
        }
        assert(missing@.take(missing@.len() as int) =~= missing@);
        let mut names: Vec<(String, usize)> = Vec::new();
        std::mem::swap(&mut names, &mut this.names);
        let mut graph = DependencyGraph::new();
        std::mem::swap(&mut graph, &mut this.graph);
        proof {
            assert forall|i: int| 0 <= i < out@.len() implies #[trigger] out@[i].spec_name() == old_defs[i].spec_name() by {
                assert(resolved_definition(nv, old_defs[i], out@[i]));
            }
            assert forall|i: int| 0 <= i < out@.len() implies lookup(nv, #[trigger] out@[i].spec_name()) is Some by {
                assert(out@[i].spec_name() == old_defs[i].spec_name());
            }
            assert forall|k2: int| 0 <= k2 < nv.len() implies #[trigger] nv[k2].1 < out@.len() && out@[nv[k2].1 as int].spec_name() == nv[k2].0 by {
                assert(out@[nv[k2].1 as int].spec_name() == old_defs[nv[k2].1 as int].spec_name());
            }
            let ge = graph_edges(graph);
            assert forall|e: int| 0 <= e < ge.len() implies #[trigger] ge[e].0 < out@.len() && ge[e].1 < out@.len() by {
                if e < old_edges.len() {
                    assert(ge[e] == old_edges[e]);
                } else {
                    assert(ge[e] == missing@[e - old_edges.len()]);
                }
            }
            assert(names_view(names@) == nv);
            assert forall|i: int, k2: int|
                0 <= i < out@.len() && (#[trigger] out@[i] matches Definition::Json(j) && 0 <= k2 < j.fields@.len())
                implies no_unknown(#[trigger] out@[i]->Json_0.fields@[k2].type_) by {
                assert(resolved_definition(nv, old_defs[i], out@[i]));
                let j0 = old_defs[i]->Json_0;
                assert(field_resolved_as(nv, j0.fields@[k2], out@[i]->Json_0.fields@[k2]));
                lemma_none_unresolved(nv, old_defs, i, k2);
                lemma_resolved_no_unknown(nv, &j0.fields@[k2].type_, &out@[i]->Json_0.fields@[k2].type_);
            }
        }
        let reg = DefinitionRegistry { definitions: out, names, graph };
        Ok(reg)
    }
}

/// No field of the definitions holds a reference by name.
pub open spec fn all_resolved(defs: Seq<Definition>) -> bool {
    forall|i: int, k: int|
        0 <= i < defs.len() && (#[trigger] defs[i] matches Definition::Json(j) && 0 <= k < j.fields@.len())
            ==> no_unknown(#[trigger] defs[i]->Json_0.fields@[k].type_)
}

/// With no field left unresolved, every field's names are bound.
proof fn lemma_none_unresolved(names: Seq<(Seq<char>, usize)>, defs: Seq<Definition>, i: int, k: int)
    requires
        first_unresolved(names, defs) is None,
        0 <= i < defs.len(),
        defs[i] matches Definition::Json(j) && 0 <= k < j.fields@.len(),
    ensures
        first_missing(names, defs[i]->Json_0.fields@[k].type_) is None,
    decreases defs.len(),
{
    if i < defs.len() - 1 {
        assert(defs.drop_last()[i] == defs[i]);
        lemma_none_unresolved(names, defs.drop_last(), i, k);
    } else {
        lemma_none_unresolved_field(names, defs[i]->Json_0.fields@, k);
    }
}

proof fn lemma_none_unresolved_field(names: Seq<(Seq<char>, usize)>, fields: Seq<JsonField>, k: int)
    requires
        first_unresolved_field(names, fields) is None,
        0 <= k < fields.len(),
    ensures
        first_missing(names, fields[k].type_) is None,
    decreases fields.len(),
{
    if k < fields.len() - 1 {
        assert(fields.drop_last()[k] == fields[k]);
        lemma_none_unresolved_field(names, fields.drop_last(), k);
    }
}

/// An order of the nodes below `n`, each once, holds each of them.
proof fn lemma_order_covers(order: Seq<usize>, n: nat, x: usize)
    requires
        order.len() == n,
        order.no_duplicates(),
        forall|i: int| 0 <= i < order.len() ==> order[i] < n,
        x < n,
    ensures
        exists|i: int| 0 <= i < order.len() && order[i] == x,
{
    let oi = order.map_values(|v: usize| v as int);
    assert(oi.no_duplicates()) by {
        assert forall|i: int, j: int| 0 <= i < oi.len() && 0 <= j < oi.len() && i != j implies oi[i] != oi[j] by {
            assert(order[i] != order[j]);
        }
    }
    oi.unique_seq_to_set();
    let range = vstd::set_lib::set_int_range(0, n as int);
    vstd::set_lib::lemma_int_range(0, n as int);
    assert(oi.to_set().subset_of(range)) by {
        assert forall|v: int| oi.to_set().contains(v) implies range.contains(v) by {
            let i = choose|i: int| 0 <= i < oi.len() && oi[i] == v;
            assert(order[i] < n);
        }
    }
    vstd::seq_lib::seq_to_set_is_finite(oi);
    vstd::set_lib::lemma_subset_equality(oi.to_set(), range);
    assert(range.contains(x as int));
    assert(oi.to_set().contains(x as int));
    let i = choose|i: int| 0 <= i < oi.len() && oi[i] == x as int;
    assert(order[i] == x);
}

/// A definition comes after each definition it refers to in the order of
/// a finalized registry: where inserting `d` at `idx` turned `before`
/// into `after` (recording an edge from each definition `d` refers to),
/// `finalize` made `reg` of `after`, and `order` is the order
/// `sorted_definitions` gave for `reg`, the definition `d` refers to as its
/// `k`-th dependency comes before `idx` in `order`.
pub proof fn law_dependencies_come_first(
    before: PartialDefinitionRegistry,
    after: PartialDefinitionRegistry,
    d: Definition,
    idx: usize,
    reg: DefinitionRegistry,
    order: Seq<usize>,
    k: int,
)
    requires
        after.wf(),
        after.edges() == before.edges() + dep_edges(definition_deps(d), idx),
        0 <= k < definition_deps(d).len(),
        reg.definitions().len() == after.definitions().len(),
        reg.edges() == after.edges() + all_edges(after.names(), after.definitions()),
        is_topological_order(order, reg.edges(), reg.definitions().len()),
    ensures
        exists|i: int, j: int| 0 <= i < j < order.len() && order[i] == definition_deps(d)[k] && order[j] == idx,
{
    let e = before.edges().len() + k;
    let n = reg.definitions().len();
    assert(dep_edges(definition_deps(d), idx).len() == definition_deps(d).len());
    assert(0 <= e < after.edges().len());
    assert(after.edges()[e] == (definition_deps(d)[k], idx));
    assert(reg.edges()[e] == after.edges()[e]);
    assert(registry_wf(after.definitions(), after.names(), after.edges(), after.definitions().len()));
    let a = definition_deps(d)[k];
    assert(after.edges()[e].0 < after.definitions().len() && after.edges()[e].1 < after.definitions().len());
    assert(dep_edges(definition_deps(d), idx)[k] == (a, idx));
    assert(a < n && idx < n);
    lemma_order_covers(order, n, a);
    lemma_order_covers(order, n, idx);
    let i = choose|i: int| 0 <= i < order.len() && order[i] == a;
    let j = choose|j: int| 0 <= j < order.len() && order[j] == idx;
    assert(i < j);
}

/// The field that `first_unresolved_field` names is one that does not
/// resolve.
pub proof fn lemma_first_unresolved_field_at(names: Seq<(Seq<char>, usize)>, fields: Seq<JsonField>)
    requires
        first_unresolved_field(names, fields) is Some,
    ensures
        first_unresolved_field(names, fields) matches Some(k) && 0 <= k < fields.len() && !field_resolves(
            names,
            fields[k],
        ),
    decreases fields.len(),
{
    if first_unresolved_field(names, fields.drop_last()) is Some {
        lemma_first_unresolved_field_at(names, fields.drop_last());
    }
}

/// The definition and field that `first_unresolved` names: a JSON
/// definition with a field that does not resolve.
pub proof fn lemma_first_unresolved_at(names: Seq<(Seq<char>, usize)>, defs: Seq<Definition>)
    requires
        first_unresolved(names, defs) is Some,
    ensures
        first_unresolved(names, defs) matches Some((i, k)) && 0 <= i < defs.len() && (defs[i] matches Definition::Json(
            j,
        ) && 0 <= k < j.fields@.len() && !field_resolves(names, j.fields@[k])),
    decreases defs.len(),
{
    if first_unresolved(names, defs.drop_last()) is Some {
        lemma_first_unresolved_at(names, defs.drop_last());
    } else {
        match defs.last() {
            Definition::Json(j) => {
                lemma_first_unresolved_field_at(names, j.fields@);
            },
            _ => {},
        }
    }
}

proof fn lemma_first_unresolved_prefix(names: Seq<(Seq<char>, usize)>, defs: Seq<Definition>, k: int)
    requires
        0 <= k <= defs.len(),
        first_unresolved(names, defs.take(k)) is Some,
    ensures
        first_unresolved(names, defs) == first_unresolved(names, defs.take(k)),
    decreases defs.len() - k,
{
    if k < defs.len() {
        assert(defs.take(k + 1).drop_last() =~= defs.take(k));
        lemma_first_unresolved_prefix(names, defs, k + 1);
    } else {
        assert(defs.take(k) =~= defs);
    }
}

impl DefinitionRegistry {
    pub closed spec fn definitions(&self) -> Seq<Definition> {
        self.definitions@
    }

    pub closed spec fn names(&self) -> Seq<(Seq<char>, usize)> {
        names_view(self.names@)
    }

    pub closed spec fn edges(&self) -> Seq<(usize, usize)> {
        graph_edges(self.graph)
    }

    /// The parts of the registry agree; every registry is so.
    #[verifier::type_invariant]
    spec fn inv(&self) -> bool {
        registry_wf(self.definitions@, names_view(self.names@), graph_edges(self.graph), graph_node_count(self.graph))
    }

    pub closed spec fn wf(&self) -> bool {
        registry_wf(self.definitions@, names_view(self.names@), graph_edges(self.graph), graph_node_count(self.graph))
    }

    /// Starts an empty registry, to be filled and then finalized.
    pub fn new() -> (r: PartialDefinitionRegistry)
        ensures
            r.wf(),
            r.definitions().len() == 0,
            r.names().len() == 0,
            r.edges().len() == 0,
    {
        PartialDefinitionRegistry::new()
    }

    /// The definition a reference points to.
    pub fn get(&self, definition_ref: DefinitionRef) -> (r: &Definition)
        requires
            definition_ref < self.definitions().len(),
        ensures
            *r == self.definitions()[definition_ref as int],
    {
        &self.definitions[definition_ref]
    }

    /// The definition bound to `name`, with its reference.
    pub fn find(&self, name: &str) -> (r: Option<(&Definition, DefinitionRef)>)
        ensures
            match lookup(self.names(), name@) {
                Some(i) => r matches Some((d, j)) && j == i && i < self.definitions().len() && *d == self.definitions()[i as int],
                None => r is None,
            },
            r matches Some((d, _)) ==> d.spec_name() == name@,
            (exists|i: int| 0 <= i < self.definitions().len() && #[trigger] self.definitions()[i].spec_name() == name@) ==> r is Some,
    {
        proof {
            use_type_invariant(self);
            lemma_lookup_bound(names_view(self.names@), name@, self.definitions@.len());
            let nv = names_view(self.names@);
            if lookup(nv, name@) is Some {
                lemma_lookup_entry(nv, name@);
                let k = choose|k: int| 0 <= k < nv.len() && #[trigger] nv[k] == (name@, lookup(nv, name@)->0);
                assert(nv[k].1 < self.definitions@.len() && self.definitions@[nv[k].1 as int].spec_name() == nv[k].0);
            }
        }
        match find_name(&self.names, name) {
            Some(i) => Some((&self.definitions[i], i)),
            None => None,
        }
    }

    /// The reference to the definition bound to `name`.
    pub fn find_weak(&self, name: &str) -> (r: Option<DefinitionRef>)
        ensures
            r == lookup(self.names(), name@),
            r matches Some(i) ==> i < self.definitions().len(),
    {
        proof {
            use_type_invariant(self);
            lemma_lookup_bound(names_view(self.names@), name@, self.definitions@.len());
        }
        find_name(&self.names, name)
    }

    /// References to all definitions, in the order they were inserted.
    pub fn all_definitions(&self) -> (r: Vec<DefinitionRef>)
        ensures
            r@.len() == self.definitions().len(),
            forall|i: int| 0 <= i < r@.len() ==> #[trigger] r@[i] == i,
    {
        let mut r: Vec<DefinitionRef> = Vec::new();
        let mut i: usize = 0;
        while i < self.definitions.len()
            invariant
                i <= self.definitions@.len(),
                r@.len() == i,
                forall|t: int| 0 <= t < i ==> #[trigger] r@[t] == t,
            decreases self.definitions@.len() - i,
        {
            r.push(i);
            i = i + 1;
        }
        r
    }

    /// The definitions in an order where each comes after the ones it
    /// uses, as declaration order requires in C or C++; when definitions
    /// depend on each other in a cycle, one definition on it.
    pub fn sorted_definitions(&self) -> (r: Result<Vec<DefinitionRef>, DefinitionRef>)
        ensures
            match r {
                Ok(order) => is_topological_order(order@, self.edges(), self.definitions().len()),
                Err(n) => n < self.definitions().len() && !is_acyclic(self.edges(), self.definitions().len()),
            },
    {
        proof {
            use_type_invariant(self);
        }
        self.graph.toposort()
    }
}


/// A definition is found by its name right after it is inserted: once the
/// definitions and names of `after` are those of `before` with `d` added
/// at index `r`, looking its name up gives `r`, which holds `d`.
pub proof fn law_find_after_insert(before: PartialDefinitionRegistry, after: PartialDefinitionRegistry, d: Definition, r: usize)
    requires
        r == before.definitions().len(),
        after.definitions() == before.definitions().push(d),
        after.names() == before.names().push((d.spec_name(), r)),
    ensures
        lookup(after.names(), d.spec_name()) == Some(r),
        after.definitions()[r as int] == d,
{
}

} // verus!

//! The definitions of the intermediate representation.

use std::sync::Arc;
use vstd::prelude::*;
use super::order::{insert_sorted, has_key, strictly_sorted, text_key, text_key_of, Keyed};
use crate::kdl_parser::errors::{SourceInfo, Span};

verus! {

/// A weak reference to a [`Definition`]: its index in a registry.
pub type DefinitionRef = usize;

/// Encoding of an integer-like value inside JSON.
#[derive(Debug, Clone, Copy, PartialEq, Eq, Structural)]
pub enum Encoding {
    String,
    Int,
}

/// Encoding of a boolean inside JSON.
#[derive(Debug, Clone, Copy, PartialEq, Eq, Structural)]
pub enum BoolEncoding {
    String,
    Int,
    Bool,
}

/// Encoding of a nested definition inside JSON.
#[derive(Debug, Clone, Copy, PartialEq, Eq, Structural)]
pub enum JsonEncoding {
    Json,
    String,
}

/// Separator of an array that is written as a single string.
#[derive(Debug, Clone, Copy, PartialEq, Eq, Structural)]
pub enum ArraySeparator {
    /// Array separated by ',', e.g. `"1,3,4,5,6"`.
    Comma,
    /// Array separated by '@', e.g. `"1@3@4@5@6"`.
    At,
    /// Array separated by '|', e.g. `"1|3|4|5|6"`.
    Pipe,
    /// Array separated by ':', e.g. `"1:3:4:5:6"`.
    Colon,
}

/// Number of elements of an array.
#[derive(Debug, Clone, Copy, PartialEq, Eq, Structural)]
pub enum ArraySize {
    /// Unbounded array size.
    Dynamic,
    /// Fixed array size; never zero.
    Fixed(usize),
}

/// The type of a JSON field.
#[derive(Debug, Clone)]
#[allow(inconsistent_fields)]
pub enum DataType {
    I32 { encoding: Encoding },
    U32 { encoding: Encoding },
    I64 { encoding: Encoding },
    U64 { encoding: Encoding },
    F32 { encoding: Encoding },
    F64,
    Bool { encoding: BoolEncoding },
    String,
    Datetime,
    DatetimeUnix,
    /// Dictionary from one type to another.
    Dictionary { key: Arc<DataType>, value: Arc<DataType> },
    StringArray { inner_type: Arc<DataType>, separator: ArraySeparator, size: ArraySize },
    Array { inner_type: Arc<DataType>, size: ArraySize },
    /// A resolved reference to another definition.
    Definition { encoding: JsonEncoding, definition: DefinitionRef },
    /// A reference to another definition that is not resolved yet.
    Unknown { encoding: JsonEncoding, name: String },
}

/// A field of a JSON definition.
#[derive(Debug, Clone)]
pub struct JsonField {
    pub index: usize,
    pub name: String,
    pub key: String,
    pub type_: DataType,
    pub optional: bool,
    pub doc: String,
    pub span: Span,
}

/// A JSON object definition.
#[derive(Debug, Clone)]
pub struct Json {
    /// The index of the definition in its source.
    pub index: usize,
    /// The name of the JSON definition.
    pub name: String,
    /// The fields, a set ordered by index, name, key and optionality.
    pub fields: Vec<JsonField>,
    /// The documentation attached to the JSON definition.
    pub doc: String,
    /// The source file this definition comes from.
    pub source: Arc<SourceInfo>,
    /// Where in its source this definition is.
    pub span: Span,
}

/// An enumeration whose values are strings.
#[derive(Debug, Clone)]
pub struct StringEnum {
    pub index: usize,
    pub name: String,
    pub doc: String,
    /// The variants, a set ordered by index, name, doc and value.
    pub variants: Vec<StringEnumVariant>,
}

#[derive(Debug, Clone)]
pub struct StringEnumVariant {
    pub index: usize,
    pub name: String,
    pub doc: String,
    pub value: String,
}

/// An enumeration whose values are integers.
#[derive(Debug, Clone)]
pub struct IntEnum {
    pub index: usize,
    pub name: String,
    pub start: i128,
    pub doc: String,
    /// The variants, a set ordered by index, name, doc and value.
    pub variants: Vec<IntEnumVariant>,
}

#[derive(Debug, Clone)]
pub struct IntEnumVariant {
    pub index: usize,
    pub name: String,
    pub doc: String,
    pub value: Option<i128>,
}

/// A definition that code is generated for.
#[derive(Debug, Clone)]
pub enum Definition {
    Json(Json),
    IntEnum(IntEnum),
    StringEnum(StringEnum),
}

impl Definition {
    pub open spec fn spec_name(&self) -> Seq<char> {
        match self {
            Definition::Json(j) => j.name@,
            Definition::IntEnum(e) => e.name@,
            Definition::StringEnum(e) => e.name@,
        }
    }

    /// The name of the definition.
    pub fn name(&self) -> (r: &String)
        ensures
            r@ == self.spec_name(),
    {
        match self {
            Definition::Json(j) => &j.name,
            Definition::IntEnum(e) => &e.name,
            Definition::StringEnum(e) => &e.name,
        }
    }
}

fn usize_key(n: usize) -> (r: Vec<i128>)
    ensures
        r@ == seq![n as i128],
{
    let mut r: Vec<i128> = Vec::new();
    r.push(n as i128);
    assert(r@ =~= seq![n as i128]);
    r
}

fn bool_key(b: bool) -> (r: Vec<i128>)
    ensures
        r@ == seq![if b { 1i128 } else { 0i128 }],
{
    let mut r: Vec<i128> = Vec::new();
    r.push(if b { 1i128 } else { 0i128 });
    assert(r@ =~= seq![if b { 1i128 } else { 0i128 }]);
    r
}

/// `None` comes before every `Some`, as in `Option`'s order.
pub open spec fn option_key(v: Option<i128>) -> Seq<i128> {
    match v {
        None => Seq::empty(),
        Some(x) => seq![0i128, x],
    }
}

fn option_key_of(v: Option<i128>) -> (r: Vec<i128>)
    ensures
        r@ == option_key(v),
{
    let mut r: Vec<i128> = Vec::new();
    if let Some(x) = v {
        r.push(0i128);
        r.push(x);
        assert(r@ =~= seq![0i128, x]);
    } else {
        assert(r@ =~= Seq::<i128>::empty());
    }
    r
}

fn key_of_parts(a: Vec<i128>, b: Vec<i128>, c: Vec<i128>, d: Vec<i128>) -> (r: Vec<Vec<i128>>)
    ensures
        r.deep_view() == seq![a@, b@, c@, d@],
{
    let ghost (va, vb, vc, vd) = (a@, b@, c@, d@);
    let mut r: Vec<Vec<i128>> = Vec::new();
    r.push(a);
    r.push(b);
    r.push(c);
    r.push(d);
    assert(r@[0].deep_view() =~= va);
    assert(r@[1].deep_view() =~= vb);
    assert(r@[2].deep_view() =~= vc);
    assert(r@[3].deep_view() =~= vd);
    assert(r.deep_view() =~= seq![va, vb, vc, vd]);
    r
}

impl Keyed for JsonField {
    open spec fn order_key(&self) -> Seq<Seq<i128>> {
        seq![
            seq![self.index as i128],
            text_key(self.name@),
            text_key(self.key@),
            seq![if self.optional { 1i128 } else { 0i128 }],
        ]
    }

    fn key(&self) -> (r: Vec<Vec<i128>>) {
        key_of_parts(
            usize_key(self.index),
            text_key_of(&self.name),
            text_key_of(&self.key),
            bool_key(self.optional),
        )
    }
}

impl Keyed for StringEnumVariant {
    open spec fn order_key(&self) -> Seq<Seq<i128>> {
        seq![
            seq![self.index as i128],
            text_key(self.name@),
            text_key(self.doc@),
            text_key(self.value@),
        ]
    }

    fn key(&self) -> (r: Vec<Vec<i128>>) {
        key_of_parts(
            usize_key(self.index),
            text_key_of(&self.name),
            text_key_of(&self.doc),
            text_key_of(&self.value),
        )
    }
}

impl Keyed for IntEnumVariant {
    open spec fn order_key(&self) -> Seq<Seq<i128>> {
        seq![
            seq![self.index as i128],
            text_key(self.name@),
            text_key(self.doc@),
            option_key(self.value),
        ]
    }

    fn key(&self) -> (r: Vec<Vec<i128>>) {
        key_of_parts(
            usize_key(self.index),
            text_key_of(&self.name),
            text_key_of(&self.doc),
            option_key_of(self.value),
        )
    }
}

impl Json {
    /// The fields form a set ordered by their keys.
    pub open spec fn well_formed(&self) -> bool {
        strictly_sorted(self.fields@)
    }

    /// A JSON definition without fields.
    pub fn new(
        name: String,
        index: usize,
        doc: String,
        defined_in_source: Arc<SourceInfo>,
        defined_in_span: Span,
    ) -> (r: Json)
        ensures
            r.name == name,
            r.index == index,
            r.doc == doc,
            r.source == defined_in_source,
            r.span == defined_in_span,
            r.fields@.len() == 0,
            r.well_formed(),
    {
        Json {
            index,
            name,
            fields: Vec::new(),
            doc,
            source: defined_in_source,
            span: defined_in_span,
        }
    }

    /// Adds a field unless one with the same index, name, key and
    /// optionality is there; returns whether it was added.
    pub fn add_field(&mut self, field: JsonField) -> (added: bool)
        requires
            old(self).well_formed(),
        ensures
            final(self).well_formed(),
            added == !has_key(old(self).fields@, field),
            added ==> exists|p: int|
                0 <= p <= old(self).fields@.len() && final(self).fields@ == old(self).fields@.insert(
                    p,
                    field,
                ),
            !added ==> final(self).fields@ == old(self).fields@,
            final(self).index == old(self).index,
            final(self).name == old(self).name,
            final(self).doc == old(self).doc,
            final(self).source == old(self).source,
            final(self).span == old(self).span,
    {
        insert_sorted(&mut self.fields, field)
    }
}

impl StringEnum {
    /// The variants form a set ordered by their keys.
    pub open spec fn well_formed(&self) -> bool {
        strictly_sorted(self.variants@)
    }

    /// A string enumeration without variants.
    pub fn new(name: String, index: usize, doc: String) -> (r: StringEnum)
        ensures
            r.name == name,
            r.index == index,
            r.doc == doc,
            r.variants@.len() == 0,
            r.well_formed(),
    {
        StringEnum { index, name, doc, variants: Vec::new() }
    }

    /// Adds a variant unless an equal one is there; returns whether it was
    /// added.
    pub fn add_variant(&mut self, field: StringEnumVariant) -> (added: bool)
        requires
            old(self).well_formed(),
        ensures
            final(self).well_formed(),
            added == !has_key(old(self).variants@, field),
            added ==> exists|p: int|
                0 <= p <= old(self).variants@.len() && final(self).variants@
                    == old(self).variants@.insert(p, field),
            !added ==> final(self).variants@ == old(self).variants@,
            final(self).index == old(self).index,
            final(self).name == old(self).name,
            final(self).doc == old(self).doc,
    {
        insert_sorted(&mut self.variants, field)
    }
}

impl IntEnum {
    /// The variants form a set ordered by their keys.
    pub open spec fn well_formed(&self) -> bool {
        strictly_sorted(self.variants@)
    }

    /// An integer enumeration without variants, counting from `start`.
    pub fn new(name: String, index: usize, doc: String, start: i128) -> (r: IntEnum)
        ensures
            r.name == name,
            r.index == index,
            r.doc == doc,
            r.start == start,
            r.variants@.len() == 0,
            r.well_formed(),
    {
        IntEnum { index, name, start, doc, variants: Vec::new() }
    }

    /// Adds a variant unless an equal one is there; returns whether it was
    /// added.
    pub fn add_variant(&mut self, field: IntEnumVariant) -> (added: bool)
        requires
            old(self).well_formed(),
        ensures
            final(self).well_formed(),
            added == !has_key(old(self).variants@, field),
            added ==> exists|p: int|
                0 <= p <= old(self).variants@.len() && final(self).variants@
                    == old(self).variants@.insert(p, field),
            !added ==> final(self).variants@ == old(self).variants@,
            final(self).index == old(self).index,
            final(self).name == old(self).name,
            final(self).doc == old(self).doc,
            final(self).start == old(self).start,
    {
        insert_sorted(&mut self.variants, field)
    }
}

} // verus!

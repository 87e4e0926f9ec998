//! The raw document model produced by the KDL parser, before conversion into
//! the intermediate representation.

use std::sync::Arc;
use vstd::prelude::*;
use super::errors::{SourceInfo, Span};
use crate::text::{decimal, decimal_string, str_equal};

verus! {

/// Encoding of an integer-like value inside JSON: as a number or as a string.
#[derive(Debug, Clone, Copy, PartialEq, Eq, Structural)]
pub enum IntLikeEncoding {
    String,
    Int,
}

/// Encoding of a boolean inside JSON.
#[derive(Debug, Clone, Copy, PartialEq, Eq, Structural)]
pub enum BoolEncoding {
    String,
    Int,
    Bool,
}

/// Encoding of a nested definition inside JSON.
#[derive(Debug, Clone, Copy, PartialEq, Eq, Structural)]
pub enum JsonEncoding {
    Json,
    String,
}

/// Separator of an array that is written as a single string.
#[derive(Debug, Clone, Copy, PartialEq, Eq, Structural)]
pub enum ArraySeparator {
    /// Array separated by ',', e.g. `"1,3,4,5,6"`.
    Comma,
    /// Array separated by '@', e.g. `"1@3@4@5@6"`.
    At,
    /// Array separated by '|', e.g. `"1|3|4|5|6"`.
    Pipe,
    /// Array separated by ':', e.g. `"1:3:4:5:6"`.
    Colon,
}

/// Number of elements of an array.
#[derive(Debug, Clone, Copy, PartialEq, Eq, Structural)]
pub enum ArraySize {
    /// Array of unbounded elements.
    Dynamic,
    /// Array of exactly N elements; N is never zero.
    Fixed(usize),
}

/// A datatype as written in a `type="..."` property.
#[derive(Debug, Clone)]
#[allow(inconsistent_fields)]
pub enum DataType {
    I32 { encoding: IntLikeEncoding },
    U32 { encoding: IntLikeEncoding },
    I64 { encoding: IntLikeEncoding },
    U64 { encoding: IntLikeEncoding },
    F32 { encoding: IntLikeEncoding },
    F64,
    Bool { encoding: BoolEncoding },
    /// Date time formatted as '2026-11-01 03:43:04'.
    Datetime,
    /// UNIX timestamp.
    DatetimeUnix,
    String,
    /// An array represented as a native array type.
    Array { size: ArraySize, inner: Arc<DataType> },
    /// An array represented as a string separated by a separator.
    StringArray { inner: Arc<DataType>, separator: ArraySeparator, size: ArraySize },
    /// Dictionary from one type to another.
    Dictionary { key: Arc<DataType>, value: Arc<DataType> },
    /// A reference to another definition, by name.
    Custom { name: String, encoding: JsonEncoding },
}

/// The mathematical value of a [`DataType`]: the same tree, with the name
/// of a custom type as a sequence of characters.
pub enum TypeModel {
    I32(IntLikeEncoding),
    U32(IntLikeEncoding),
    I64(IntLikeEncoding),
    U64(IntLikeEncoding),
    F32(IntLikeEncoding),
    F64,
    Bool(BoolEncoding),
    Datetime,
    DatetimeUnix,
    String,
    Array { size: ArraySize, inner: Box<TypeModel> },
    StringArray { inner: Box<TypeModel>, separator: ArraySeparator, size: ArraySize },
    Dictionary { key: Box<TypeModel>, value: Box<TypeModel> },
    Custom { name: Seq<char>, encoding: JsonEncoding },
}

/// How a separator is shown: its character.
pub open spec fn separator_text(s: ArraySeparator) -> Seq<char> {
    match s {
        ArraySeparator::Comma => ","@,
        ArraySeparator::At => "@"@,
        ArraySeparator::Pipe => "|"@,
        ArraySeparator::Colon => ":"@,
    }
}

/// How an array size is shown: as its `size` modifier.
pub open spec fn size_text(s: ArraySize) -> Seq<char> {
    match s {
        ArraySize::Dynamic => "size(n)"@,
        ArraySize::Fixed(n) => "size("@ + decimal(n as nat) + ")"@,
    }
}

/// How the encoding of a definition is shown.
pub open spec fn json_encoding_text(e: JsonEncoding) -> Seq<char> {
    match e {
        JsonEncoding::Json => "json"@,
        JsonEncoding::String => "str"@,
    }
}

/// How a datatype is shown in messages: primitives by name, arrays with
/// their size, dictionaries as `key => value`, custom types with their
/// encoding.
pub open spec fn type_text(t: TypeModel) -> Seq<char>
    decreases t,
{
    match t {
        TypeModel::I32(_) => "i32"@,
        TypeModel::U32(_) => "u32"@,
        TypeModel::I64(_) => "i64"@,
        TypeModel::U64(_) => "u64"@,
        TypeModel::F32(_) => "f32"@,
        TypeModel::F64 => "f64"@,
        TypeModel::Bool(_) => "bool"@,
        TypeModel::Datetime => "datetime"@,
        TypeModel::DatetimeUnix => "datetime-unix"@,
        TypeModel::String => "string"@,
        TypeModel::Array { size, inner } => "["@ + type_text(*inner) + "]::"@ + size_text(size),
        TypeModel::StringArray { inner, separator, size } => "["@ + type_text(*inner) + separator_text(separator) + "]::"@
            + size_text(size),
        TypeModel::Dictionary { key, value } => type_text(*key) + " => "@ + type_text(*value),
        TypeModel::Custom { name, encoding } => name + "::"@ + json_encoding_text(encoding),
    }
}

impl ArraySeparator {
    /// The separator as text.
    pub fn to_text(&self) -> (r: String)
        ensures
            r@ == separator_text(*self),
    {
        match self {
            ArraySeparator::Comma => ",".to_owned(),
            ArraySeparator::At => "@".to_owned(),
            ArraySeparator::Pipe => "|".to_owned(),
            ArraySeparator::Colon => ":".to_owned(),
        }
    }
}

impl ArraySize {
    /// The size as its `size` modifier.
    pub fn to_text(&self) -> (r: String)
        ensures
            r@ == size_text(*self),
    {
        match self {
            ArraySize::Dynamic => "size(n)".to_owned(),
            ArraySize::Fixed(n) => {
                let mut r = "size(".to_owned();
                let d = decimal_string(*n as u128);
                r.append(d.as_str());
                r.append(")");
                r
            },
        }
    }
}

impl JsonEncoding {
    /// The encoding as text.
    pub fn to_text(&self) -> (r: String)
        ensures
            r@ == json_encoding_text(*self),
    {
        match self {
            JsonEncoding::Json => "json".to_owned(),
            JsonEncoding::String => "str".to_owned(),
        }
    }
}

impl DataType {
    /// The datatype as it is shown in messages.
    pub fn to_text(&self) -> (r: String)
        ensures
            r@ == type_text(self.model()),
        decreases self,
    {
        match self {
            DataType::I32 { .. } => "i32".to_owned(),
            DataType::U32 { .. } => "u32".to_owned(),
            DataType::I64 { .. } => "i64".to_owned(),
            DataType::U64 { .. } => "u64".to_owned(),
            DataType::F32 { .. } => "f32".to_owned(),
            DataType::F64 => "f64".to_owned(),
            DataType::Bool { .. } => "bool".to_owned(),
            DataType::Datetime => "datetime".to_owned(),
            DataType::DatetimeUnix => "datetime-unix".to_owned(),
            DataType::String => "string".to_owned(),
            DataType::Array { size, inner } => {
                let mut r = "[".to_owned();
                let i = inner.to_text();
                r.append(i.as_str());
                r.append("]::");
                let z = size.to_text();
                r.append(z.as_str());
                r
            },
            DataType::StringArray { inner, separator, size } => {
                let mut r = "[".to_owned();
                let i = inner.to_text();
                r.append(i.as_str());
                let sep = separator.to_text();
                r.append(sep.as_str());
                r.append("]::");
                let z = size.to_text();
                r.append(z.as_str());
                r
            },
            DataType::Dictionary { key, value } => {
                let mut r = key.to_text();
                r.append(" => ");
                let v = value.to_text();
                r.append(v.as_str());
                r
            },
            DataType::Custom { name, encoding } => {
                let mut r = name.as_str().to_owned();
                r.append("::");
                let e = encoding.to_text();
                r.append(e.as_str());
                r
            },
        }
    }
}

impl DataType {
    pub open spec fn model(&self) -> TypeModel
        decreases self,
    {
        match self {
            DataType::I32 { encoding } => TypeModel::I32(*encoding),
            DataType::U32 { encoding } => TypeModel::U32(*encoding),
            DataType::I64 { encoding } => TypeModel::I64(*encoding),
            DataType::U64 { encoding } => TypeModel::U64(*encoding),
            DataType::F32 { encoding } => TypeModel::F32(*encoding),
            DataType::F64 => TypeModel::F64,
            DataType::Bool { encoding } => TypeModel::Bool(*encoding),
            DataType::Datetime => TypeModel::Datetime,
            DataType::DatetimeUnix => TypeModel::DatetimeUnix,
            DataType::String => TypeModel::String,
            DataType::Array { size, inner } => TypeModel::Array {
                size: *size,
                inner: Box::new((**inner).model()),
            },
            DataType::StringArray { inner, separator, size } => TypeModel::StringArray {
                inner: Box::new((**inner).model()),
                separator: *separator,
                size: *size,
            },
            DataType::Dictionary { key, value } => TypeModel::Dictionary {
                key: Box::new((**key).model()),
                value: Box::new((**value).model()),
            },
            DataType::Custom { name, encoding } => TypeModel::Custom {
                name: name@,
                encoding: *encoding,
            },
        }
    }
}


/// The definitions read from one or more KDL documents.
#[derive(Debug)]
pub struct RawDocument {
    pub filepath: Option<String>,
    pub json_definitions: Vec<JsonDefinition>,
    pub http_definitions: Vec<HTTPDefinition>,
    pub enum_definitions: Vec<EnumDefinition>,
}

impl RawDocument {
    /// Appends the definitions of `other` after those of `self`.
    pub fn extend(&mut self, other: RawDocument)
        ensures
            final(self).filepath == old(self).filepath,
            final(self).json_definitions@ == old(self).json_definitions@ + other.json_definitions@,
            final(self).http_definitions@ == old(self).http_definitions@ + other.http_definitions@,
            final(self).enum_definitions@ == old(self).enum_definitions@ + other.enum_definitions@,
    {
        let RawDocument { filepath: _, json_definitions: mut j, http_definitions: mut h, enum_definitions: mut e } = other;
        self.json_definitions.append(&mut j);
        self.http_definitions.append(&mut h);
        self.enum_definitions.append(&mut e);
    }

    /// Whether a JSON definition read from `path` spans `offset`, ends
    /// included.
    pub fn has_json_definition_at(&self, path: &str, offset: usize) -> (r: bool)
        ensures
            r == exists|k: int|
                0 <= k < self.json_definitions@.len() && #[trigger] json_definition_covers(
                    self.json_definitions@[k],
                    path@,
                    offset as int,
                ),
    {
        let mut k: usize = 0;
        while k < self.json_definitions.len()
            invariant
                k <= self.json_definitions@.len(),
                forall|t: int| 0 <= t < k ==> !#[trigger] json_definition_covers(self.json_definitions@[t], path@, offset as int),
            decreases self.json_definitions@.len() - k,
        {
            let d = &self.json_definitions[k];
            if d.span.offset <= offset && offset - d.span.offset <= d.span.len && str_equal(d.source_info.name.as_str(), path) {
                assert(json_definition_covers(self.json_definitions@[k as int], path@, offset as int));
                return true;
            }
            k = k + 1;
        }
        false
    }
}

/// The JSON definition was read from `path` and its span covers `offset`,
/// ends included.
pub open spec fn json_definition_covers(d: JsonDefinition, path: Seq<char>, offset: int) -> bool {
    &&& d.span.offset <= offset <= d.span.offset + d.span.len
    &&& d.source_info.name@ == path
}

/// An enumeration definition.
#[derive(Debug)]
pub enum EnumDefinition {
    StringEnum(StringEnumDefinition),
    IntEnum(IntEnumDefinition),
}

#[derive(Debug)]
pub struct StringEnumDefinition {
    pub index: usize,
    pub source_info: Arc<SourceInfo>,
    pub span: Span,
    pub name: String,
    pub doc: String,
    pub variants: Vec<StringEnumInner>,
}

#[derive(Debug)]
pub struct StringEnumInner {
    pub index: usize,
    pub source_info: Arc<SourceInfo>,
    pub span: Span,
    pub name: String,
    pub doc: String,
    /// The string the variant stands for: its name.
    pub value: String,
}

#[derive(Debug)]
pub struct IntEnumDefinition {
    pub index: usize,
    pub source_info: Arc<SourceInfo>,
    pub span: Span,
    pub name: String,
    pub start: i128,
    pub doc: String,
    pub variants: Vec<IntEnumInner>,
}

#[derive(Debug)]
pub struct IntEnumInner {
    pub index: usize,
    pub source_info: Arc<SourceInfo>,
    pub span: Span,
    pub name: String,
    pub doc: String,
    pub value: Option<i128>,
}

/// An HTTP definition (read by no parser yet).
#[derive(Debug)]
pub struct HTTPDefinition {
    pub name: String,
    pub fields: Vec<HTTPProperty>,
}

#[derive(Debug)]
pub struct HTTPProperty {
    pub name: String,
    pub type_: DataType,
    pub encoding: Option<IntLikeEncoding>,
    pub key: String,
    pub doc: String,
    pub escape: bool,
}

/// A JSON object definition.
#[derive(Debug)]
pub struct JsonDefinition {
    pub index: usize,
    pub source_info: Arc<SourceInfo>,
    pub span: Span,
    pub name: String,
    pub doc: String,
    pub hash: Option<String>,
    pub fields: Vec<JsonField>,
}

/// A field of a JSON object definition.
#[derive(Debug)]
pub struct JsonField {
    pub index: usize,
    pub source_info: Arc<SourceInfo>,
    pub span: Span,
    pub name: String,
    pub type_: DataType,
    /// The JSON key; empty when the key of the referred definition is used
    /// (`key transparent=#true`).
    pub key: String,
    pub doc: String,
    pub escape: bool,
    pub optional: bool,
}

/// The encoding named by `s` in an `encoding` property.
pub open spec fn int_encoding_of(s: Seq<char>) -> Result<IntLikeEncoding, Seq<char>> {
    if s == "str"@ || s == "string"@ {
        Ok(IntLikeEncoding::String)
    } else if s == "int"@ {
        Ok(IntLikeEncoding::Int)
    } else {
        Err("unknown encoding type `"@ + s + "`"@)
    }
}

/// The encoding named by `s`, for booleans.
pub open spec fn bool_encoding_of(s: Seq<char>) -> Result<BoolEncoding, Seq<char>> {
    if s == "str"@ {
        Ok(BoolEncoding::String)
    } else if s == "int"@ {
        Ok(BoolEncoding::Int)
    } else {
        Err("unknown encoding type `"@ + s + "`"@)
    }
}

/// The separator written as `s`.
pub open spec fn separator_of(s: Seq<char>) -> Option<ArraySeparator> {
    if s == ","@ {
        Some(ArraySeparator::Comma)
    } else if s == "@"@ {
        Some(ArraySeparator::At)
    } else if s == ":"@ {
        Some(ArraySeparator::Colon)
    } else if s == "|"@ {
        Some(ArraySeparator::Pipe)
    } else {
        None
    }
}

fn unknown_encoding(s: &str) -> (r: String)
    ensures
        r@ == "unknown encoding type `"@ + s@ + "`"@,
{
    let mut r = "unknown encoding type `".to_owned();
    r.append(s);
    r.append("`");
    r
}

impl IntLikeEncoding {
    /// Reads an encoding name: `str` or `string`, or `int`.
    pub fn from_str(s: &str) -> (r: Result<IntLikeEncoding, String>)
        ensures
            match (r, int_encoding_of(s@)) {
                (Ok(a), Ok(b)) => a == b,
                (Err(a), Err(b)) => a@ == b,
                _ => false,
            },
    {
        if str_equal(s, "str") || str_equal(s, "string") {
            Ok(IntLikeEncoding::String)
        } else if str_equal(s, "int") {
            Ok(IntLikeEncoding::Int)
        } else {
            Err(unknown_encoding(s))
        }
    }
}

impl BoolEncoding {
    /// Reads an encoding name for booleans: `str` or `int`.
    pub fn from_str(s: &str) -> (r: Result<BoolEncoding, String>)
        ensures
            match (r, bool_encoding_of(s@)) {
                (Ok(a), Ok(b)) => a == b,
                (Err(a), Err(b)) => a@ == b,
                _ => false,
            },
    {
        if str_equal(s, "str") {
            Ok(BoolEncoding::String)
        } else if str_equal(s, "int") {
            Ok(BoolEncoding::Int)
        } else {
            Err(unknown_encoding(s))
        }
    }
}

impl ArraySeparator {
    /// Reads a separator written as one character.
    pub fn from_str(s: &str) -> (r: Result<ArraySeparator, &'static str>)
        ensures
            match separator_of(s@) {
                Some(sep) => r == Ok::<ArraySeparator, &'static str>(sep),
                None => r matches Err(m) && m@ == "expected to find one of `,` (comma), `@` (at), `|` (pipe), or `:` (colon) as array separator"@,
            },
    {
        if str_equal(s, ",") {
            Ok(ArraySeparator::Comma)
        } else if str_equal(s, "@") {
            Ok(ArraySeparator::At)
        } else if str_equal(s, ":") {
            Ok(ArraySeparator::Colon)
        } else if str_equal(s, "|") {
            Ok(ArraySeparator::Pipe)
        } else {
            Err("expected to find one of `,` (comma), `@` (at), `|` (pipe), or `:` (colon) as array separator")
        }
    }
}

} // verus!

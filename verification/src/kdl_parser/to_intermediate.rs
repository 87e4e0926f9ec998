//! Turning the definitions read from KDL into the intermediate
//! representation, a registry of definitions.

use std::sync::Arc;
use vstd::prelude::*;
use super::schema::{
    self as raw, EnumDefinition, IntEnumDefinition, IntLikeEncoding, JsonDefinition, StringEnumDefinition, TypeModel,
};
use crate::intermediate::order::{items_from, keys_kept, lemma_set_from_step, strictly_sorted, text_key, Keyed};
use crate::intermediate::registry::{
    defs_deps_len, defs_size, definition_deps, fields_deps, fields_size, lemma_defs_push, lemma_fields_counts,
    lemma_fields_size_insert, lookup, type_deps, type_size, PartialDefinitionRegistry,
};
use crate::intermediate::schema::{
    ArraySeparator, ArraySize, BoolEncoding, DataType, Definition, Encoding, IntEnum, IntEnumVariant, Json, JsonEncoding,
    JsonField, StringEnum, StringEnumVariant,
};

verus! {

pub open spec fn encoding_of(e: IntLikeEncoding) -> Encoding {
    match e {
        IntLikeEncoding::String => Encoding::String,
        IntLikeEncoding::Int => Encoding::Int,
    }
}

pub open spec fn bool_encoding_of(e: raw::BoolEncoding) -> BoolEncoding {
    match e {
        raw::BoolEncoding::String => BoolEncoding::String,
        raw::BoolEncoding::Int => BoolEncoding::Int,
        raw::BoolEncoding::Bool => BoolEncoding::Bool,
    }
}

pub open spec fn json_encoding_of(e: raw::JsonEncoding) -> JsonEncoding {
    match e {
        raw::JsonEncoding::Json => JsonEncoding::Json,
        raw::JsonEncoding::String => JsonEncoding::String,
    }
}

pub open spec fn size_of(s: raw::ArraySize) -> ArraySize {
    match s {
        raw::ArraySize::Dynamic => ArraySize::Dynamic,
        raw::ArraySize::Fixed(n) => ArraySize::Fixed(n),
    }
}

pub open spec fn separator_of(s: raw::ArraySeparator) -> ArraySeparator {
    match s {
        raw::ArraySeparator::Comma => ArraySeparator::Comma,
        raw::ArraySeparator::At => ArraySeparator::At,
        raw::ArraySeparator::Pipe => ArraySeparator::Pipe,
        raw::ArraySeparator::Colon => ArraySeparator::Colon,
    }
}

/// `d` is `t` in the intermediate representation: a reference by name
/// becomes the definition bound to the name, when there is one.
pub open spec fn converts(t: TypeModel, d: DataType, names: Seq<(Seq<char>, usize)>) -> bool
    decreases d,
{
    match (t, d) {
        (TypeModel::I32(e), DataType::I32 { encoding }) => encoding == encoding_of(e),
        (TypeModel::U32(e), DataType::U32 { encoding }) => encoding == encoding_of(e),
        (TypeModel::I64(e), DataType::I64 { encoding }) => encoding == encoding_of(e),
        (TypeModel::U64(e), DataType::U64 { encoding }) => encoding == encoding_of(e),
        (TypeModel::F32(e), DataType::F32 { encoding }) => encoding == encoding_of(e),
        (TypeModel::F64, DataType::F64) => true,
        (TypeModel::Bool(e), DataType::Bool { encoding }) => encoding == bool_encoding_of(e),
        (TypeModel::Datetime, DataType::Datetime) => true,
        (TypeModel::DatetimeUnix, DataType::DatetimeUnix) => true,
        (TypeModel::String, DataType::String) => true,
        (TypeModel::Array { size, inner }, DataType::Array { inner_type, size: s2 }) => s2 == size_of(size) && converts(
            *inner,
            *inner_type,
            names,
        ),
        (
            TypeModel::StringArray { inner, separator, size },
            DataType::StringArray { inner_type, separator: sep2, size: s2 },
        ) => s2 == size_of(size) && sep2 == separator_of(separator) && converts(*inner, *inner_type, names),
        (TypeModel::Dictionary { key, value }, DataType::Dictionary { key: k2, value: v2 }) => converts(*key, *k2, names)
            && converts(*value, *v2, names),
        (TypeModel::Custom { name, encoding }, DataType::Definition { encoding: e2, definition }) => lookup(names, name)
            == Some(definition) && e2 == json_encoding_of(encoding),
        (TypeModel::Custom { name, encoding }, DataType::Unknown { encoding: e2, name: n2 }) => lookup(names, name) is None
            && n2@ == name && e2 == json_encoding_of(encoding),
        _ => false,
    }
}

/// A number keeps, in the registry, the encoding it was written with: one
/// written as a string (`str`) is `Encoding::String`, one written as a
/// number (`int`) is `Encoding::Int`, and its kind and width are kept.
pub proof fn law_encoding_kept(e: IntLikeEncoding, d: DataType, names: Seq<(Seq<char>, usize)>)
    ensures
        e == IntLikeEncoding::String ==> (converts(TypeModel::I32(e), d, names) <==> d == (DataType::I32 { encoding: Encoding::String })),
        e == IntLikeEncoding::Int ==> (converts(TypeModel::I32(e), d, names) <==> d == (DataType::I32 { encoding: Encoding::Int })),
        e == IntLikeEncoding::String ==> (converts(TypeModel::U32(e), d, names) <==> d == (DataType::U32 { encoding: Encoding::String })),
        e == IntLikeEncoding::Int ==> (converts(TypeModel::U32(e), d, names) <==> d == (DataType::U32 { encoding: Encoding::Int })),
        e == IntLikeEncoding::String ==> (converts(TypeModel::I64(e), d, names) <==> d == (DataType::I64 { encoding: Encoding::String })),
        e == IntLikeEncoding::Int ==> (converts(TypeModel::I64(e), d, names) <==> d == (DataType::I64 { encoding: Encoding::Int })),
        e == IntLikeEncoding::String ==> (converts(TypeModel::U64(e), d, names) <==> d == (DataType::U64 { encoding: Encoding::String })),
        e == IntLikeEncoding::Int ==> (converts(TypeModel::U64(e), d, names) <==> d == (DataType::U64 { encoding: Encoding::Int })),
        e == IntLikeEncoding::String ==> (converts(TypeModel::F32(e), d, names) <==> d == (DataType::F32 { encoding: Encoding::String })),
        e == IntLikeEncoding::Int ==> (converts(TypeModel::F32(e), d, names) <==> d == (DataType::F32 { encoding: Encoding::Int })),
{
}

/// A boolean keeps the encoding it was written with (as a string, as a
/// number, or as a JSON boolean); an array keeps its size and separator;
/// a reference keeps its encoding.
pub proof fn law_attributes_kept(t: TypeModel, d: DataType, names: Seq<(Seq<char>, usize)>)
    requires
        converts(t, d, names),
    ensures
        t == TypeModel::Bool(raw::BoolEncoding::String) ==> d == (DataType::Bool { encoding: BoolEncoding::String }),
        t == TypeModel::Bool(raw::BoolEncoding::Int) ==> d == (DataType::Bool { encoding: BoolEncoding::Int }),
        t == TypeModel::Bool(raw::BoolEncoding::Bool) ==> d == (DataType::Bool { encoding: BoolEncoding::Bool }),
        t matches TypeModel::Array { size: raw::ArraySize::Dynamic, .. } ==> d matches DataType::Array { size: ArraySize::Dynamic, .. },
        t matches TypeModel::Array { size: raw::ArraySize::Fixed(k), .. } ==> (d matches DataType::Array { size: ArraySize::Fixed(k2), .. }
            && k2 == k),
        t matches TypeModel::StringArray { separator: raw::ArraySeparator::Comma, .. } ==> d matches DataType::StringArray { separator: ArraySeparator::Comma, .. },
        t matches TypeModel::StringArray { separator: raw::ArraySeparator::At, .. } ==> d matches DataType::StringArray { separator: ArraySeparator::At, .. },
        t matches TypeModel::StringArray { separator: raw::ArraySeparator::Colon, .. } ==> d matches DataType::StringArray { separator: ArraySeparator::Colon, .. },
        t matches TypeModel::StringArray { separator: raw::ArraySeparator::Pipe, .. } ==> d matches DataType::StringArray { separator: ArraySeparator::Pipe, .. },
        t matches TypeModel::Custom { encoding: raw::JsonEncoding::Json, .. } ==> (d matches DataType::Definition { encoding: JsonEncoding::Json, .. }
            || d matches DataType::Unknown { encoding: JsonEncoding::Json, .. }),
        t matches TypeModel::Custom { encoding: raw::JsonEncoding::String, .. } ==> (d matches DataType::Definition { encoding: JsonEncoding::String, .. }
            || d matches DataType::Unknown { encoding: JsonEncoding::String, .. }),
{
}

/// How many references to definitions, by name, a datatype read from KDL
/// holds.
pub open spec fn model_refs(m: TypeModel) -> nat
    decreases m,
{
    match m {
        TypeModel::Custom { .. } => 1,
        TypeModel::Array { inner, .. } => model_refs(*inner),
        TypeModel::StringArray { inner, .. } => model_refs(*inner),
        TypeModel::Dictionary { key, value } => model_refs(*key) + model_refs(*value),
        _ => 0,
    }
}

/// How many references to definitions the fields read from KDL hold.
pub open spec fn raw_fields_refs(fields: Seq<raw::JsonField>) -> nat
    decreases fields.len(),
{
    if fields.len() == 0 {
        0
    } else {
        raw_fields_refs(fields.drop_last()) + model_refs(fields.last().type_.model())
    }
}

/// How many references to definitions the JSON definitions read from KDL
/// hold.
pub open spec fn structs_refs(structs: Seq<JsonDefinition>) -> nat
    decreases structs.len(),
{
    if structs.len() == 0 {
        0
    } else {
        structs_refs(structs.drop_last()) + raw_fields_refs(structs.last().fields@)
    }
}

/// `n`, or `u32::MAX` where `n` is larger.
pub open spec fn capped(n: nat) -> u64 {
    if n < u32::MAX {
        n as u64
    } else {
        u32::MAX as u64
    }
}

fn capped_add(a: u64, b: u64) -> (r: u64)
    requires
        a <= u32::MAX,
        b <= u32::MAX,
    ensures
        forall|x: nat, y: nat| a == #[trigger] capped(x) && b == #[trigger] capped(y) ==> r == capped(x + y),
{
    if a + b < u32::MAX as u64 {
        a + b
    } else {
        u32::MAX as u64
    }
}

/// Counts the references to definitions in a datatype read from KDL, up
/// to `u32::MAX`.
fn count_type_refs(t: &raw::DataType) -> (r: u64)
    ensures
        r == capped(model_refs(t.model())),
    decreases t,
{
    match t {
        raw::DataType::Custom { .. } => 1,
        raw::DataType::Array { inner, .. } => count_type_refs(inner),
        raw::DataType::StringArray { inner, .. } => count_type_refs(inner),
        raw::DataType::Dictionary { key, value } => {
            let a = count_type_refs(key);
            let b = count_type_refs(value);
            capped_add(a, b)
        },
        _ => 0,
    }
}

/// Counts the references to definitions in JSON definitions read from
/// KDL, up to `u32::MAX`: one for each name a field's type refers to,
/// wherever it stands in the type.
pub fn count_references(structs: &Vec<JsonDefinition>) -> (r: u64)
    ensures
        r == capped(structs_refs(structs@)),
{
    let mut total: u64 = 0;
    let mut k: usize = 0;
    assert(structs@.take(0) =~= Seq::<JsonDefinition>::empty());
    while k < structs.len()
        invariant
            k <= structs@.len(),
            total == capped(structs_refs(structs@.take(k as int))),
        decreases structs@.len() - k,
    {
        let fields = &structs[k].fields;
        let mut sub: u64 = 0;
        let mut f: usize = 0;
        assert(fields@.take(0) =~= Seq::<raw::JsonField>::empty());
        while f < fields.len()
            invariant
                f <= fields@.len(),
                fields@ == structs@[k as int].fields@,
                sub == capped(raw_fields_refs(fields@.take(f as int))),
            decreases fields@.len() - f,
        {
            let c = count_type_refs(&fields[f].type_);
            assert(fields@.take(f + 1).drop_last() =~= fields@.take(f as int));
            sub = capped_add(sub, c);
            f = f + 1;
        }
        assert(fields@.take(f as int) =~= fields@);
        assert(structs@.take(k + 1).drop_last() =~= structs@.take(k as int));
        total = capped_add(total, sub);
        k = k + 1;
    }
    assert(structs@.take(k as int) =~= structs@);
    total
}

/// Converting keeps the number of references.
pub proof fn lemma_converts_size(m: TypeModel, d: &DataType, names: Seq<(Seq<char>, usize)>)
    requires
        converts(m, *d, names),
    ensures
        type_size(*d) == model_refs(m),
    decreases m,
{
    match (m, d) {
        (TypeModel::Array { inner, .. }, DataType::Array { inner_type, .. }) => {
            lemma_converts_size(*inner, &**inner_type, names);
        },
        (TypeModel::StringArray { inner, .. }, DataType::StringArray { inner_type, .. }) => {
            lemma_converts_size(*inner, &**inner_type, names);
        },
        (TypeModel::Dictionary { key, value }, DataType::Dictionary { key: k2, value: v2 }) => {
            lemma_converts_size(*key, &**k2, names);
            lemma_converts_size(*value, &**v2, names);
        },
        _ => {},
    }
}

fn convert_encoding(e: IntLikeEncoding) -> (r: Encoding)
    ensures
        r == encoding_of(e),
{
    match e {
        IntLikeEncoding::String => Encoding::String,
        IntLikeEncoding::Int => Encoding::Int,
    }
}

fn convert_size(s: raw::ArraySize) -> (r: ArraySize)
    ensures
        r == size_of(s),
{
    match s {
        raw::ArraySize::Dynamic => ArraySize::Dynamic,
        raw::ArraySize::Fixed(n) => ArraySize::Fixed(n),
    }
}

fn convert_json_encoding(e: raw::JsonEncoding) -> (r: JsonEncoding)
    ensures
        r == json_encoding_of(e),
{
    match e {
        raw::JsonEncoding::Json => JsonEncoding::Json,
        raw::JsonEncoding::String => JsonEncoding::String,
    }
}

/// Converts a datatype read from KDL, resolving references by name to the
/// definitions already in the registry.
pub fn convert_datatype_recursive(type_: &raw::DataType, registry: &PartialDefinitionRegistry) -> (r: DataType)
    requires
        registry.wf(),
    ensures
        converts(type_.model(), r, registry.names()),
        deps_below(r, registry.definitions().len()),
    decreases type_,
{
    let r = match type_ {
        raw::DataType::I32 { encoding } => DataType::I32 { encoding: convert_encoding(*encoding) },
        raw::DataType::U32 { encoding } => DataType::U32 { encoding: convert_encoding(*encoding) },
        raw::DataType::I64 { encoding } => DataType::I64 { encoding: convert_encoding(*encoding) },
        raw::DataType::U64 { encoding } => DataType::U64 { encoding: convert_encoding(*encoding) },
        raw::DataType::F32 { encoding } => DataType::F32 { encoding: convert_encoding(*encoding) },
        raw::DataType::F64 => DataType::F64,
        raw::DataType::Bool { encoding } => DataType::Bool {
            encoding: match encoding {
                raw::BoolEncoding::String => BoolEncoding::String,
                raw::BoolEncoding::Int => BoolEncoding::Int,
                raw::BoolEncoding::Bool => BoolEncoding::Bool,
            },
        },
        raw::DataType::Datetime => DataType::Datetime,
        raw::DataType::DatetimeUnix => DataType::DatetimeUnix,
        raw::DataType::String => DataType::String,
        raw::DataType::Array { size, inner } => {
            let x = convert_datatype_recursive(inner, registry);
            let ghost dx = type_deps(x);
            let r = DataType::Array { inner_type: Arc::new(x), size: convert_size(*size) };
            assert(type_deps(r) == dx);
            r
        },
        raw::DataType::StringArray { inner, separator, size } => {
            let sep = match separator {
                raw::ArraySeparator::Comma => ArraySeparator::Comma,
                raw::ArraySeparator::Pipe => ArraySeparator::Pipe,
                raw::ArraySeparator::At => ArraySeparator::At,
                raw::ArraySeparator::Colon => ArraySeparator::Colon,
            };
            let x = convert_datatype_recursive(inner, registry);
            let ghost dx = type_deps(x);
            let r = DataType::StringArray { separator: sep, inner_type: Arc::new(x), size: convert_size(*size) };
            assert(type_deps(r) == dx);
            r
        },
        raw::DataType::Dictionary { key, value } => {
            let k = convert_datatype_recursive(key, registry);
            let v = convert_datatype_recursive(value, registry);
            let ghost dk = type_deps(k);
            let ghost dv = type_deps(v);
            let r = DataType::Dictionary { key: Arc::new(k), value: Arc::new(v) };
            assert(type_deps(r) == dk + dv);
            assert forall|q: int| 0 <= q < (dk + dv).len() implies #[trigger] (dk + dv)[q] < registry.definitions().len() by {
                if q < dk.len() {
                    assert((dk + dv)[q] == dk[q]);
                } else {
                    assert((dk + dv)[q] == dv[q - dk.len()]);
                }
            }
            r
        },
        raw::DataType::Custom { encoding, name } => match registry.find_weak(name.as_str()) {
            Some(idx) => {
                let r = DataType::Definition { encoding: convert_json_encoding(*encoding), definition: idx };
                assert(type_deps(r) =~= seq![idx]);
                r
            },
            None => DataType::Unknown { encoding: convert_json_encoding(*encoding), name: name.clone() },
        },
    };
    proof {
        match r {
            DataType::Array { .. } | DataType::StringArray { .. } | DataType::Dictionary { .. } | DataType::Definition { .. } => {},
            _ => {
                assert(type_deps(r) =~= Seq::<usize>::empty());
            },
        }
    }
    r
}

/// Adds the enum definitions to the registry, in order.
pub fn add_enum_definitions(registry: &mut PartialDefinitionRegistry, enums: Vec<EnumDefinition>)
    requires
        old(registry).wf(),
        old(registry).definitions().len() + enums@.len() < u32::MAX,
        old(registry).edges().len() < u32::MAX,
    ensures
        final(registry).wf(),
        final(registry).definitions().len() == old(registry).definitions().len() + enums@.len(),
        forall|k: int| 0 <= k < old(registry).definitions().len() ==> #[trigger] final(registry).definitions()[k] == old(registry).definitions()[k],
        forall|k: int| 0 <= k < enums@.len() ==> final(registry).definitions()[old(registry).definitions().len() + k].spec_name()
            == enum_name(#[trigger] enums@[k]),
        forall|k: int| 0 <= k < enums@.len() ==> enum_converts(
            final(registry).definitions()[old(registry).definitions().len() + k],
            #[trigger] enums@[k],
        ),
        final(registry).names() == old(registry).names() + enum_names(enums@, old(registry).definitions().len()),
        final(registry).edges() == old(registry).edges(),
        defs_size(final(registry).definitions()) == defs_size(old(registry).definitions()),
        defs_deps_len(final(registry).definitions()) == defs_deps_len(old(registry).definitions()),
{
    let ghost d0 = registry.definitions();
    let ghost n0 = registry.names();
    let ghost e0 = enums@;
    let ghost ed0 = registry.edges();
    let mut enums = enums;
    let n = enums.len();
    let mut k: usize = 0;
    assert(e0.skip(0) =~= e0);
    assert(enum_names(e0.take(0), d0.len()) =~= Seq::<(Seq<char>, usize)>::empty());
    assert(n0 + Seq::<(Seq<char>, usize)>::empty() =~= n0);
    while k < n
        invariant
            k <= n,
            n == e0.len(),
            enums@ == e0.skip(k as int),
            registry.wf(),
            d0.len() + e0.len() < u32::MAX,
            registry.definitions().len() == d0.len() + k,
            forall|t: int| 0 <= t < d0.len() ==> #[trigger] registry.definitions()[t] == d0[t],
            forall|t: int| 0 <= t < k ==> #[trigger] registry.definitions()[d0.len() + t].spec_name() == enum_name(e0[t]),
            forall|t: int| 0 <= t < k ==> enum_converts(registry.definitions()[d0.len() + t], #[trigger] e0[t]),
            registry.names() == n0 + enum_names(e0.take(k as int), d0.len()),
            registry.edges() == ed0,
            ed0.len() < u32::MAX,
            defs_size(registry.definitions()) == defs_size(d0),
            defs_deps_len(registry.definitions()) == defs_deps_len(d0),
        decreases n - k,
    {
        assert(e0.skip(k as int)[0] == e0[k as int]);
        let e = enums.remove(0);
        assert(enums@ =~= e0.skip(k + 1));
        let def = match e {
            EnumDefinition::StringEnum(d) => Definition::StringEnum(string_enum_from(d)),
            EnumDefinition::IntEnum(d) => Definition::IntEnum(int_enum_from(d)),
        };
        let ghost defs_before = registry.definitions();
        assert(definition_deps(def) =~= Seq::<usize>::empty());
        registry.insert(def);
        proof {
            lemma_defs_push(defs_before, def);
            assert(crate::intermediate::registry::dep_edges(definition_deps(def), defs_before.len() as usize) =~= Seq::<(usize, usize)>::empty());
            assert(registry.edges() =~= ed0);
            assert(e0.take(k + 1) =~= e0.take(k as int).push(e0[k as int]));
            assert(enum_names(e0.take(k + 1), d0.len()) =~= enum_names(e0.take(k as int), d0.len()).push(
                (enum_name(e0[k as int]), (d0.len() + k) as usize),
            ));
            assert(registry.names() =~= n0 + enum_names(e0.take(k + 1), d0.len()));
        }
        k = k + 1;
    }
    assert(e0.take(n as int) =~= e0);
}

/// The names the enum definitions bind, from index `base` on.
pub open spec fn enum_names(enums: Seq<EnumDefinition>, base: nat) -> Seq<(Seq<char>, usize)> {
    Seq::new(enums.len(), |t: int| (enum_name(enums[t]), (base + t) as usize))
}

/// `d` is the enum definition `e` read from KDL: same name, index and
/// documentation (and start), and its variants are those read, each key
/// once.
pub open spec fn enum_converts(d: Definition, e: EnumDefinition) -> bool {
    match (d, e) {
        (Definition::StringEnum(s), EnumDefinition::StringEnum(r)) => {
            &&& s.name@ == r.name@
            &&& s.index == r.index
            &&& s.doc@ == r.doc@
            &&& items_from(s.variants@, r.variants@, string_variant_rel())
            &&& keys_kept(s.variants@, r.variants@, string_inner_key())
        },
        (Definition::IntEnum(s), EnumDefinition::IntEnum(r)) => {
            &&& s.name@ == r.name@
            &&& s.index == r.index
            &&& s.doc@ == r.doc@
            &&& s.start == r.start
            &&& items_from(s.variants@, r.variants@, int_variant_rel())
            &&& keys_kept(s.variants@, r.variants@, int_inner_key())
        },
        _ => false,
    }
}

/// The name of an enum definition.
pub open spec fn enum_name(e: EnumDefinition) -> Seq<char> {
    match e {
        EnumDefinition::StringEnum(d) => d.name@,
        EnumDefinition::IntEnum(d) => d.name@,
    }
}

/// The variant `v` is the variant `i` read from KDL.
pub open spec fn string_variant_from(v: StringEnumVariant, i: raw::StringEnumInner) -> bool {
    v.index == i.index && v.name@ == i.name@ && v.doc@ == i.doc@ && v.value@ == i.value@
}

pub open spec fn string_variant_rel() -> spec_fn(StringEnumVariant, raw::StringEnumInner) -> bool {
    |v: StringEnumVariant, i: raw::StringEnumInner| string_variant_from(v, i)
}

/// The key a variant read from KDL has in the set of variants.
pub open spec fn string_inner_key() -> spec_fn(raw::StringEnumInner) -> Seq<Seq<i128>> {
    |i: raw::StringEnumInner| seq![seq![i.index as i128], text_key(i.name@), text_key(i.doc@), text_key(i.value@)]
}

/// The string enum with the variants of `value`, each added once: every
/// variant is one read, and every variant read has one with its key.
pub fn string_enum_from(value: StringEnumDefinition) -> (r: StringEnum)
    ensures
        r.name@ == value.name@,
        r.index == value.index,
        r.doc@ == value.doc@,
        r.well_formed(),
        items_from(r.variants@, value.variants@, string_variant_rel()),
        keys_kept(r.variants@, value.variants@, string_inner_key()),
{
    let StringEnumDefinition { index, source_info: _, span: _, name, doc, variants } = value;
    let mut e = StringEnum::new(name, index, doc);
    let mut k: usize = 0;
    assert(variants@.take(0) =~= Seq::<raw::StringEnumInner>::empty());
    while k < variants.len()
        invariant
            k <= variants@.len(),
            variants@ == value.variants@,
            e.well_formed(),
            e.name@ == value.name@,
            e.index == value.index,
            e.doc@ == value.doc@,
            items_from(e.variants@, variants@.take(k as int), string_variant_rel()),
            keys_kept(e.variants@, variants@.take(k as int), string_inner_key()),
        decreases variants@.len() - k,
    {
        let v = &variants[k];
        let x = StringEnumVariant { index: v.index, name: v.name.clone(), doc: v.doc.clone(), value: v.value.clone() };
        let ghost gx = x;
        let ghost before = e.variants@;
        e.add_variant(x);
        proof {
            assert(string_variant_rel()(gx, variants@[k as int]));
            assert(gx.order_key() =~= string_inner_key()(variants@[k as int]));
            lemma_set_from_step(before, e.variants@, gx, variants@, k as int, string_variant_rel(), string_inner_key());
        }
        k = k + 1;
    }
    assert(variants@.take(k as int) =~= variants@);
    e
}

/// The variant `v` is the variant `i` read from KDL.
pub open spec fn int_variant_from(v: IntEnumVariant, i: raw::IntEnumInner) -> bool {
    v.index == i.index && v.name@ == i.name@ && v.doc@ == i.doc@ && v.value == i.value
}

pub open spec fn int_variant_rel() -> spec_fn(IntEnumVariant, raw::IntEnumInner) -> bool {
    |v: IntEnumVariant, i: raw::IntEnumInner| int_variant_from(v, i)
}

/// The key a variant read from KDL has in the set of variants.
pub open spec fn int_inner_key() -> spec_fn(raw::IntEnumInner) -> Seq<Seq<i128>> {
    |i: raw::IntEnumInner| seq![
        seq![i.index as i128],
        text_key(i.name@),
        text_key(i.doc@),
        crate::intermediate::schema::option_key(i.value),
    ]
}

/// The integer enum with the variants of `value`, each added once: every
/// variant is one read, and every variant read has one with its key.
pub fn int_enum_from(value: IntEnumDefinition) -> (r: IntEnum)
    ensures
        r.name@ == value.name@,
        r.index == value.index,
        r.doc@ == value.doc@,
        r.start == value.start,
        r.well_formed(),
        items_from(r.variants@, value.variants@, int_variant_rel()),
        keys_kept(r.variants@, value.variants@, int_inner_key()),
{
    let IntEnumDefinition { index, source_info: _, span: _, name, start, doc, variants } = value;
    let mut e = IntEnum::new(name, index, doc, start);
    let mut k: usize = 0;
    assert(variants@.take(0) =~= Seq::<raw::IntEnumInner>::empty());
    while k < variants.len()
        invariant
            k <= variants@.len(),
            variants@ == value.variants@,
            e.well_formed(),
            e.name@ == value.name@,
            e.index == value.index,
            e.doc@ == value.doc@,
            e.start == value.start,
            items_from(e.variants@, variants@.take(k as int), int_variant_rel()),
            keys_kept(e.variants@, variants@.take(k as int), int_inner_key()),
        decreases variants@.len() - k,
    {
        let v = &variants[k];
        let x = IntEnumVariant { index: v.index, name: v.name.clone(), doc: v.doc.clone(), value: v.value };
        let ghost gx = x;
        let ghost before = e.variants@;
        e.add_variant(x);
        proof {
            assert(int_variant_rel()(gx, variants@[k as int]));
            assert(gx.order_key() =~= int_inner_key()(variants@[k as int]));
            lemma_set_from_step(before, e.variants@, gx, variants@, k as int, int_variant_rel(), int_inner_key());
        }
        k = k + 1;
    }
    assert(variants@.take(k as int) =~= variants@);
    e
}

/// Every definition `t` refers to is below `n`.
pub open spec fn deps_below(t: DataType, n: nat) -> bool {
    forall|q: int| 0 <= q < type_deps(t).len() ==> #[trigger] type_deps(t)[q] < n
}

proof fn lemma_fields_deps_below(fields: Seq<JsonField>, n: nat)
    requires
        forall|t: int| 0 <= t < fields.len() ==> deps_below(#[trigger] fields[t].type_, n),
    ensures
        forall|q: int| 0 <= q < fields_deps(fields).len() ==> #[trigger] fields_deps(fields)[q] < n,
    decreases fields.len(),
{
    if fields.len() > 0 {
        let a = fields_deps(fields.drop_last());
        let b = type_deps(fields.last().type_);
        assert(deps_below(fields[fields.len() - 1].type_, n));
        lemma_fields_deps_below(fields.drop_last(), n);
        assert forall|q: int| 0 <= q < (a + b).len() implies #[trigger] (a + b)[q] < n by {
            if q < a.len() {
                assert((a + b)[q] == a[q]);
            } else {
                assert((a + b)[q] == b[q - a.len()]);
            }
        }
    }
}

/// The field `f` is the field `g` read from KDL, its type converted with
/// the names bound in `names`.
pub open spec fn field_from(f: JsonField, g: raw::JsonField, names: Seq<(Seq<char>, usize)>) -> bool {
    &&& f.index == g.index
    &&& f.name@ == g.name@
    &&& f.key@ == g.key@
    &&& f.optional == g.optional
    &&& f.doc@ == g.doc@
    &&& f.span == g.span
    &&& converts(g.type_.model(), f.type_, names)
}

pub open spec fn field_rel(names: Seq<(Seq<char>, usize)>) -> spec_fn(JsonField, raw::JsonField) -> bool {
    |f: JsonField, g: raw::JsonField| field_from(f, g, names)
}

/// The key a field read from KDL has in the set of fields.
pub open spec fn raw_field_key() -> spec_fn(raw::JsonField) -> Seq<Seq<i128>> {
    |g: raw::JsonField| seq![
        seq![g.index as i128],
        text_key(g.name@),
        text_key(g.key@),
        seq![if g.optional { 1i128 } else { 0i128 }],
    ]
}

/// `j` is the JSON definition `s` read from KDL, its field types converted
/// with the names bound in `names`: every field is one read, and every
/// field read has one with its key.
pub open spec fn json_converts(j: Json, s: JsonDefinition, names: Seq<(Seq<char>, usize)>) -> bool {
    &&& j.name@ == s.name@
    &&& j.index == s.index
    &&& j.doc@ == s.doc@
    &&& j.source == s.source_info
    &&& j.span == s.span
    &&& items_from(j.fields@, s.fields@, field_rel(names))
    &&& keys_kept(j.fields@, s.fields@, raw_field_key())
}

/// The names the JSON definitions bind, from index `base` on.
pub open spec fn json_names(structs: Seq<JsonDefinition>, base: nat) -> Seq<(Seq<char>, usize)> {
    Seq::new(structs.len(), |t: int| (structs[t].name@, (base + t) as usize))
}

/// The references of a prefix of the definitions are no more than those of
/// all of them.
proof fn lemma_structs_refs_prefix(structs: Seq<JsonDefinition>, k: int)
    requires
        0 <= k <= structs.len(),
    ensures
        structs_refs(structs.take(k)) <= structs_refs(structs),
    decreases structs.len() - k,
{
    if k < structs.len() {
        lemma_structs_refs_prefix(structs, k + 1);
        assert(structs.take(k + 1).drop_last() =~= structs.take(k));
    } else {
        assert(structs.take(k) =~= structs);
    }
}

/// Adds the JSON definitions to the registry, in order; each field's type
/// refers to the definitions already added when its name is bound.
pub fn add_json_definitions(registry: &mut PartialDefinitionRegistry, structs: Vec<JsonDefinition>)
    requires
        old(registry).wf(),
        old(registry).definitions().len() + structs@.len() < u32::MAX,
        old(registry).edges().len() + structs_refs(structs@) < u32::MAX,
    ensures
        final(registry).wf(),
        final(registry).edges().len() - defs_deps_len(final(registry).definitions()) == old(registry).edges().len()
            - defs_deps_len(old(registry).definitions()),
        defs_size(final(registry).definitions()) <= defs_size(old(registry).definitions()) + structs_refs(structs@),
        final(registry).definitions().len() == old(registry).definitions().len() + structs@.len(),
        forall|k: int| 0 <= k < old(registry).definitions().len() ==> #[trigger] final(registry).definitions()[k] == old(registry).definitions()[k],
        final(registry).names() == old(registry).names() + json_names(structs@, old(registry).definitions().len()),
        forall|k: int| 0 <= k < structs@.len() ==> (#[trigger] final(registry).definitions()[old(registry).definitions().len() + k] matches Definition::Json(j)
            && json_converts(j, structs@[k], old(registry).names() + json_names(structs@.take(k), old(registry).definitions().len()))),
{
    let ghost d0 = registry.definitions();
    let ghost n0 = registry.names();
    let ghost s0 = structs@;
    let ghost ed0 = registry.edges().len();
    let mut structs = structs;
    let n = structs.len();
    let mut k: usize = 0;
    assert(s0.skip(0) =~= s0);
    assert(json_names(s0.take(0), d0.len()) =~= Seq::<(Seq<char>, usize)>::empty());
    assert(n0 + Seq::<(Seq<char>, usize)>::empty() =~= n0);
    while k < n
        invariant
            k <= n,
            n == s0.len(),
            structs@ == s0.skip(k as int),
            registry.wf(),
            d0.len() + s0.len() < u32::MAX,
            registry.definitions().len() == d0.len() + k,
            registry.names() == n0 + json_names(s0.take(k as int), d0.len()),
            forall|t: int| 0 <= t < d0.len() ==> #[trigger] registry.definitions()[t] == d0[t],
            forall|t: int| 0 <= t < k ==> (#[trigger] registry.definitions()[d0.len() + t] matches Definition::Json(j)
                && json_converts(j, s0[t], n0 + json_names(s0.take(t), d0.len()))),
            ed0 + structs_refs(s0) < u32::MAX,
            registry.edges().len() - defs_deps_len(registry.definitions()) == ed0 - defs_deps_len(d0),
            defs_deps_len(registry.definitions()) - defs_deps_len(d0) <= defs_size(registry.definitions()) - defs_size(d0),
            defs_size(registry.definitions()) - defs_size(d0) <= structs_refs(s0.take(k as int)),
        decreases n - k,
    {
        assert(s0.skip(k as int)[0] == s0[k as int]);
        let s = structs.remove(0);
        assert(structs@ =~= s0.skip(k + 1));
        let ghost sk = s;
        let ghost names_k = registry.names();
        let JsonDefinition { index, source_info, span, name, doc, hash: _, fields } = s;
        let mut json = Json::new(name, index, doc, source_info, span);
        let mut f: usize = 0;
        assert(fields@.take(0) =~= Seq::<raw::JsonField>::empty());
        while f < fields.len()
            invariant
                registry.wf(),
                registry.names() == names_k,
                json.well_formed(),
                json.name@ == sk.name@,
                json.index == sk.index,
                json.doc@ == sk.doc@,
                json.source == sk.source_info,
                json.span == sk.span,
                fields@ == sk.fields@,
                f <= fields@.len(),
                json.fields@.len() <= f,
                forall|t: int| 0 <= t < json.fields@.len() ==> deps_below(#[trigger] json.fields@[t].type_, registry.definitions().len()),
                items_from(json.fields@, fields@.take(f as int), field_rel(names_k)),
                keys_kept(json.fields@, fields@.take(f as int), raw_field_key()),
                fields_size(json.fields@) <= raw_fields_refs(fields@.take(f as int)),
            decreases fields@.len() - f,
        {
            let field = &fields[f];
            let t = convert_datatype_recursive(&field.type_, registry);
            let ghost before = json.fields@;
            let x = JsonField {
                index: field.index,
                name: field.name.clone(),
                key: field.key.clone(),
                type_: t,
                optional: field.optional,
                doc: field.doc.clone(),
                span: field.span,
            };
            let ghost nf = x;
            let added = json.add_field(x);
            proof {
                assert(fields@.take(f + 1).drop_last() =~= fields@.take(f as int));
                if added {
                    let p = choose|p: int| 0 <= p <= before.len() && json.fields@ == before.insert(p, nf);
                    lemma_fields_size_insert(before, p, nf);
                    lemma_converts_size(fields@[f as int].type_.model(), &nf.type_, names_k);
                    assert forall|t2: int| 0 <= t2 < json.fields@.len() implies deps_below(#[trigger] json.fields@[t2].type_, registry.definitions().len()) by {
                        if t2 < p {
                            assert(json.fields@[t2] == before[t2]);
                        } else if t2 > p {
                            assert(json.fields@[t2] == before[t2 - 1]);
                        }
                    }
                }
                assert(field_rel(names_k)(nf, fields@[f as int]));
                assert(nf.order_key() =~= raw_field_key()(fields@[f as int]));
                lemma_set_from_step(before, json.fields@, nf, fields@, f as int, field_rel(names_k), raw_field_key());
            }
            f = f + 1;
        }
        assert(fields@.take(f as int) =~= fields@);
        proof {
            lemma_fields_deps_below(json.fields@, registry.definitions().len());
            lemma_fields_counts(names_k, json.fields@, 0);
            assert(s0.take(k + 1).drop_last() =~= s0.take(k as int));
            assert(s0.take(k + 1).last() == sk);
            lemma_structs_refs_prefix(s0, k as int + 1);
        }
        let ghost gj = json;
        let ghost defs_before = registry.definitions();
        registry.insert(Definition::Json(json));
        proof {
            lemma_defs_push(defs_before, Definition::Json(gj));
            assert(s0.take(k + 1) =~= s0.take(k as int).push(s0[k as int]));
            assert(json_names(s0.take(k + 1), d0.len()) =~= json_names(s0.take(k as int), d0.len()).push((s0[k as int].name@, (d0.len() + k) as usize)));
            assert(registry.names() =~= n0 + json_names(s0.take(k + 1), d0.len()));
            assert(json_converts(gj, s0[k as int], n0 + json_names(s0.take(k as int), d0.len())));
        }
        k = k + 1;
    }
    assert(s0.take(n as int) =~= s0);
}

} // verus!

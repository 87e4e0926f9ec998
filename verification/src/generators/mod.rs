//! Source code generation from the intermediate representation.

pub mod cpp;
pub mod glaze;
pub mod utils;

pub use cpp::CxxGenerator;
pub use glaze::GlazeGenerator;

use vstd::prelude::*;
use crate::intermediate::registry::{type_deps, DefinitionRegistry};
use crate::intermediate::schema::{
    ArraySize, DataType, Definition, IntEnum, IntEnumVariant, Json, JsonEncoding, JsonField, StringEnum, StringEnumVariant,
};
use crate::kdl_parser::to_intermediate::deps_below;

verus! {

/// A generated file: its name, relative to the output directory, and its
/// content.
#[derive(Debug)]
pub struct GeneratedSource {
    pub filename: String,
    pub content: String,
}

/// Why sources could not be generated.
#[derive(Debug)]
pub enum GenerationError {
    /// A definition was looked up, but the registry was gone.
    ExpiredRegistry { queried_from: DataType },
    /// A type named a definition that the registry does not hold.
    TypeNotFound { name: String, queried_from: DataType },
    /// The definitions depend on each other in a cycle; one of them.
    CycleFound(usize),
}

/// A type that has a form in generated code: no string array of fixed
/// size and no definition encoded as a string, at any depth.
pub open spec fn expressible(t: DataType) -> bool
    decreases t,
{
    match t {
        DataType::Dictionary { key, value } => expressible(*key) && expressible(*value),
        DataType::Array { inner_type, .. } => expressible(*inner_type),
        DataType::StringArray { inner_type, size, .. } => size is Dynamic && expressible(*inner_type),
        DataType::Definition { encoding, .. } => encoding is Json,
        _ => true,
    }
}

/// Every field of the JSON definition has a type that refers only to
/// definitions below `n` and that has a form in generated code.
pub open spec fn json_generatable(j: Json, n: nat) -> bool {
    forall|k: int| 0 <= k < j.fields@.len() ==> deps_below(#[trigger] j.fields@[k].type_, n) && expressible(j.fields@[k].type_)
}

pub open spec fn definition_generatable(d: Definition, n: nat) -> bool {
    match d {
        Definition::Json(j) => json_generatable(j, n),
        _ => true,
    }
}

/// Sources can be generated for every definition of the registry.
pub open spec fn generatable(registry: &DefinitionRegistry) -> bool {
    forall|i: int| 0 <= i < registry.definitions().len()
        ==> definition_generatable(#[trigger] registry.definitions()[i], registry.definitions().len())
}

/// How the definitions a composite type refers to are those of its parts.
pub proof fn lemma_deps_below_parts(t: DataType, n: nat)
    ensures
        t matches DataType::Dictionary { key, value } ==> (deps_below(t, n) <==> deps_below(*key, n) && deps_below(*value, n)),
        t matches DataType::Array { inner_type, .. } ==> (deps_below(t, n) <==> deps_below(*inner_type, n)),
        t matches DataType::StringArray { inner_type, .. } ==> (deps_below(t, n) <==> deps_below(*inner_type, n)),
        t matches DataType::Definition { definition, .. } ==> (deps_below(t, n) <==> definition < n),
{
    match t {
        DataType::Dictionary { key, value } => {
            assert(type_deps(t) == type_deps(*key) + type_deps(*value));
            assert forall|q: int| 0 <= q < type_deps(*key).len() && deps_below(t, n) implies #[trigger] type_deps(*key)[q] < n by {
                assert((type_deps(*key) + type_deps(*value))[q] == type_deps(*key)[q]);
            }
            assert forall|q: int| 0 <= q < type_deps(*value).len() && deps_below(t, n) implies #[trigger] type_deps(*value)[q] < n by {
                assert((type_deps(*key) + type_deps(*value))[type_deps(*key).len() + q] == type_deps(*value)[q]);
            }
            assert forall|q: int| 0 <= q < type_deps(t).len() && deps_below(*key, n) && deps_below(*value, n) implies #[trigger] type_deps(t)[q] < n by {
                if q < type_deps(*key).len() {
                    assert((type_deps(*key) + type_deps(*value))[q] == type_deps(*key)[q]);
                } else {
                    assert((type_deps(*key) + type_deps(*value))[q] == type_deps(*value)[q - type_deps(*key).len()]);
                }
            }
        },
        DataType::Array { inner_type, .. } => {
            assert(type_deps(t) == type_deps(*inner_type));
        },
        DataType::StringArray { inner_type, .. } => {
            assert(type_deps(t) == type_deps(*inner_type));
        },
        DataType::Definition { definition, .. } => {
            assert(type_deps(t) =~= seq![definition]);
            assert(type_deps(t)[0] == definition);
        },
        _ => {},
    }
}

/// Whether a type refers only to definitions below `n` and has a form in
/// generated code.
pub fn type_generatable(t: &DataType, n: usize) -> (b: bool)
    ensures
        b == (deps_below(*t, n as nat) && expressible(*t)),
    decreases t,
{
    proof {
        lemma_deps_below_parts(*t, n as nat);
    }
    match t {
        DataType::Dictionary { key, value } => type_generatable(key, n) && type_generatable(value, n),
        DataType::Array { inner_type, .. } => type_generatable(inner_type, n),
        DataType::StringArray { inner_type, size, .. } => match size {
            ArraySize::Dynamic => type_generatable(inner_type, n),
            ArraySize::Fixed(_) => false,
        },
        DataType::Definition { encoding, definition } => match encoding {
            JsonEncoding::Json => *definition < n,
            JsonEncoding::String => false,
        },
        _ => {
            assert(type_deps(*t) =~= Seq::<usize>::empty());
            true
        },
    }
}

/// Whether sources can be generated for every definition of the registry.
pub fn is_generatable(registry: &DefinitionRegistry) -> (b: bool)
    ensures
        b == generatable(registry),
{
    let n = registry.all_definitions().len();
    let mut i: usize = 0;
    while i < n
        invariant
            i <= n,
            n == registry.definitions().len(),
            forall|t: int| 0 <= t < i ==> definition_generatable(#[trigger] registry.definitions()[t], n as nat),
        decreases n - i,
    {
        match registry.get(i) {
            Definition::Json(j) => {
                let mut k: usize = 0;
                while k < j.fields.len()
                    invariant
                        k <= j.fields@.len(),
                        i < n,
                        n == registry.definitions().len(),
                        registry.definitions()[i as int] == Definition::Json(*j),
                        forall|t: int| 0 <= t < k ==> deps_below(#[trigger] j.fields@[t].type_, n as nat) && expressible(j.fields@[t].type_),
                    decreases j.fields@.len() - k,
                {
                    if !type_generatable(&j.fields[k].type_, n) {
                        assert(!(deps_below(j.fields@[k as int].type_, n as nat) && expressible(j.fields@[k as int].type_)));
                        assert(!json_generatable(*j, n as nat));
                        assert(!definition_generatable(registry.definitions()[i as int], n as nat));
                        return false;
                    }
                    k = k + 1;
                }
                assert(json_generatable(*j, n as nat));
            },
            _ => {},
        }
        assert(definition_generatable(registry.definitions()[i as int], n as nat));
        i = i + 1;
    }
    assert(generatable(registry));
    true
}

/// A generator of source files for one language.
pub trait Generator {
    /// The source files for the definitions of `registry`.
    fn generate(&self, registry: &DefinitionRegistry, initial_filename: &str) -> Result<Vec<GeneratedSource>, GenerationError>
        requires
            generatable(registry),
    ;

    /// How the name of a JSON definition reads in the generated code.
    fn json_name(&self, definition: &Json) -> (r: String)
        default_ensures
            r@ == definition.name@,
    {
        definition.name.clone()
    }

    /// How the name of a JSON field reads in the generated code.
    fn json_field_name(&self, definition: &JsonField) -> (r: String)
        default_ensures
            r@ == definition.name@,
    {
        definition.name.clone()
    }

    /// How the name of an integer enum reads in the generated code.
    fn int_enum_name(&self, definition: &IntEnum) -> (r: String)
        default_ensures
            r@ == definition.name@,
    {
        definition.name.clone()
    }

    /// How the name of an integer enum variant reads in the generated code.
    fn int_enum_variant_name(&self, definition: &IntEnumVariant) -> (r: String)
        default_ensures
            r@ == definition.name@,
    {
        definition.name.clone()
    }

    /// How the name of a string enum reads in the generated code.
    fn string_enum_name(&self, definition: &StringEnum) -> (r: String)
        default_ensures
            r@ == definition.name@,
    {
        definition.name.clone()
    }

    /// How the name of a string enum variant reads in the generated code.
    fn string_enum_variant_name(&self, definition: &StringEnumVariant) -> (r: String)
        default_ensures
            r@ == definition.name@,
    {
        definition.name.clone()
    }
}

/// The text an addon gives, if any.
pub open spec fn opt_text(o: Option<String>) -> Option<Seq<char>> {
    match o {
        Some(s) => Some(s@),
        None => None,
    }
}

/// The content an addon gives, if any: a text or an error.
pub open spec fn content_text(o: Option<Result<String, GenerationError>>) -> Option<Result<Seq<char>, GenerationError>> {
    match o {
        Some(Ok(s)) => Some(Ok(s@)),
        Some(Err(e)) => Some(Err(e)),
        None => None,
    }
}

/// Extra content that a generator adds to what it generates. What each
/// method gives for a registry is what the addon's matching spec function
/// says, so an addon gives the same texts for the same registry. An addon
/// that adds nothing at some place returns `None` there, and its spec
/// function says `None`, which is what the spec functions say unless an
/// addon says otherwise.
pub trait Addon {
    /// The text the addon puts before the definitions of `registry`.
    open spec fn preamble_of(&self, registry: DefinitionRegistry) -> Option<Seq<char>> {
        None
    }

    /// The text the addon puts after the definitions of `registry`, or the
    /// error it met.
    open spec fn content_of(&self, registry: DefinitionRegistry) -> Option<Result<Seq<char>, GenerationError>> {
        None
    }

    /// The text the addon puts at the very end.
    open spec fn postamble_of(&self, registry: DefinitionRegistry) -> Option<Seq<char>> {
        None
    }

    /// Text put before the definitions.
    fn preamble(&self, registry: &DefinitionRegistry) -> (r: Option<String>)
        ensures
            opt_text(r) == self.preamble_of(*registry),
    ;

    /// Text put after the definitions.
    fn content(&self, registry: &DefinitionRegistry) -> (r: Option<Result<String, GenerationError>>)
        ensures
            content_text(r) == self.content_of(*registry),
    ;

    /// Text put at the very end.
    fn postamble(&self, registry: &DefinitionRegistry) -> (r: Option<String>)
        ensures
            opt_text(r) == self.postamble_of(*registry),
    ;
}

/// A generator that addons can be added to.
pub trait WithAddons {
    fn add_addon<T: Addon + 'static>(&mut self, addon: T);
}

} // verus!

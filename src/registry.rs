use vstd::prelude::*;

verus! {

/// The kind of a primitive type.
#[derive(Clone, Copy, Debug, PartialEq, Eq, Structural)]
pub enum PrimitiveKind {
    Bool,
    Char,
    Str,
    U8,
    U16,
    U32,
    U64,
    U128,
    U256,
    I8,
    I16,
    I32,
    I64,
    I128,
    I256,
}

/// A field of a composite type or of an enum variant.
pub struct Field {
    /// The field's name; `None` for a positional field.
    pub name: Option<String>,
    /// The type of the field.
    pub ty: u32,
    /// The name of the field's type as it was written where the field was declared.
    pub ty_name: Option<String>,
}

/// One variant of a tagged union.
pub struct Variant {
    pub name: String,
    pub fields: Vec<Field>,
    /// The variant's discriminant.
    pub index: u8,
}

/// A declared generic parameter, with the type it is bound to, if any.
pub struct TypeParam {
    pub name: String,
    pub ty: Option<u32>,
}

/// The structural kind of a type, with what it refers to.
pub enum Shape {
    Primitive(PrimitiveKind),
    Composite(Vec<Field>),
    Variant(Vec<Variant>),
    Sequence(u32),
    /// Length, then element type.
    Array(u32, u32),
    Tuple(Vec<u32>),
    Compact(u32),
    /// Bit-store type, then bit-order type.
    BitSequence(u32, u32),
}

/// One entry of the registry.
pub struct TypeNode {
    /// The declared path: module segments followed by the type's name.
    pub path: Vec<String>,
    pub type_params: Vec<TypeParam>,
    pub shape: Shape,
}

/// A store of type nodes; the identifier of a node is its position.
pub struct Registry {
    pub types: Vec<TypeNode>,
}

/// The characters of each segment of a path.
pub open spec fn path_view(p: Seq<String>) -> Seq<Seq<char>> {
    p.map_values(|s: String| s@)
}

pub open spec fn opt_str_view(s: Option<String>) -> Option<Seq<char>> {
    match s {
        Some(x) => Some(x@),
        None => None,
    }
}

/// The type identifiers that a node's shape refers to.
pub open spec fn shape_refs(s: Shape) -> Set<u32> {
    match s {
        Shape::Primitive(_) => Set::empty(),
        Shape::Composite(fs) => Set::new(|t: u32| exists|i: int| 0 <= i < fs@.len() && fs@[i].ty == t),
        Shape::Variant(vs) => Set::new(
            |t: u32|
                exists|i: int, j: int|
                    0 <= i < vs@.len() && 0 <= j < vs@[i].fields@.len() && vs@[i].fields@[j].ty == t,
        ),
        Shape::Sequence(e) => set![e],
        Shape::Array(_, e) => set![e],
        Shape::Tuple(es) => Set::new(|t: u32| exists|i: int| 0 <= i < es@.len() && es@[i] == t),
        Shape::Compact(e) => set![e],
        Shape::BitSequence(s, o) => set![s, o],
    }
}

impl Registry {
    pub open spec fn len(&self) -> nat {
        self.types@.len()
    }

    pub open spec fn node(&self, id: u32) -> TypeNode {
        self.types@[id as int]
    }

    pub open spec fn contains(&self, id: u32) -> bool {
        (id as int) < self.types@.len()
    }

    /// Every identifier that a node's shape refers to names a node of the registry.
    pub open spec fn well_formed(&self) -> bool {
        &&& self.types@.len() <= u32::MAX as nat + 1
        &&& forall|i: int, t: u32|
            0 <= i < self.types@.len() && #[trigger] shape_refs(self.types@[i].shape).contains(t)
                ==> (t as int) < self.types@.len()
    }

    /// Looks a node up by identifier.
    pub fn resolve(&self, id: u32) -> (r: Option<&TypeNode>)
        ensures
            r is Some <==> self.contains(id),
            r is Some ==> *r.unwrap() == self.node(id),
    {
        if (id as usize) < self.types.len() {
            Some(&self.types[id as usize])
        } else {
            None
        }
    }
}

} // verus!

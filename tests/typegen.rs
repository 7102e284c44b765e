use scale_typegen::composite::{create_composite_ir_kind, CompositeKind};
use scale_typegen::dedup::ensure_unique_type_paths;
use scale_typegen::equality::types_equal;
use scale_typegen::error::TypegenError;
use scale_typegen::generics::GenericsList;
use scale_typegen::paths::syn_type_path;
use scale_typegen::registry::{Field, PrimitiveKind, Registry, Shape, TypeNode, TypeParam, Variant};
use scale_typegen::transformer::{
    recursion_should_continue, reuse_cached, Cache, Lookup, Session, TransformPolicy, Transformer,
};
use std::cell::Cell;

fn path(segments: &[&str]) -> Vec<String> {
    segments.iter().map(|s| s.to_string()).collect()
}

fn node(segments: &[&str], shape: Shape) -> TypeNode {
    TypeNode { path: path(segments), type_params: vec![], shape }
}

fn generic_node(segments: &[&str], params: &[(&str, Option<u32>)], shape: Shape) -> TypeNode {
    TypeNode {
        path: path(segments),
        type_params: params.iter().map(|(n, t)| TypeParam { name: n.to_string(), ty: *t }).collect(),
        shape,
    }
}

fn named(name: &str, ty: u32, ty_name: &str) -> Field {
    Field { name: Some(name.to_string()), ty, ty_name: Some(ty_name.to_string()) }
}

fn unnamed(ty: u32) -> Field {
    Field { name: None, ty, ty_name: None }
}

fn prim(kind: PrimitiveKind) -> TypeNode {
    node(&[], Shape::Primitive(kind))
}

fn ident(reg: &Registry, id: u32) -> String {
    reg.types[id as usize].path.last().unwrap().clone()
}

#[test]
fn ensure_unique_type_paths_test() {
    let foo = |kind| node(&["my", "module", "Foo"], Shape::Primitive(kind));
    let mut registry = Registry {
        types: vec![
            foo(PrimitiveKind::Bool),
            foo(PrimitiveKind::Bool),
            foo(PrimitiveKind::U32),
            foo(PrimitiveKind::U128),
            foo(PrimitiveKind::U128),
            foo(PrimitiveKind::U128),
        ],
    };
    let (id_1, id_2, id_3, id_4, id_5, id_6) = (0, 1, 2, 3, 4, 5);

    // before:
    assert_eq!(ident(&registry, id_1), "Foo");
    assert_eq!(ident(&registry, id_2), "Foo");
    assert_eq!(ident(&registry, id_3), "Foo");
    assert_eq!(ident(&registry, id_4), "Foo");
    assert_eq!(ident(&registry, id_5), "Foo");
    assert_eq!(ident(&registry, id_6), "Foo");

    // after:
    ensure_unique_type_paths(&mut registry);

    assert_eq!(ident(&registry, id_1), "Foo1");
    assert_eq!(ident(&registry, id_2), "Foo1");
    assert_eq!(ident(&registry, id_3), "Foo2");
    assert_eq!(ident(&registry, id_4), "Foo3");
    assert_eq!(ident(&registry, id_5), "Foo3");
    assert_eq!(ident(&registry, id_6), "Foo3");
}

/// The registry that registering the six nested types below produces:
/// NestedType<T = u32>(u32), NestedType<T = bool>(bool),
/// NestedType<T = bool>(Vec<bool>), NestedType<T = u32>(Vec<u32>),
/// NestedType<T = bool>(Vec<Foo<bool>>), NestedType<T = u32>(Vec<Foo<u32>>).
fn nested_registry() -> (Registry, [u32; 6]) {
    let nested = |generic: u32, inner: u32| {
        generic_node(
            &["my", "module", "NestedType"],
            &[("T", Some(generic))],
            Shape::Composite(vec![unnamed(inner)]),
        )
    };
    let foo = |generic: u32| {
        generic_node(
            &["tests", "Foo"],
            &[("T", Some(generic))],
            Shape::Composite(vec![named("_inner", generic, "T")]),
        )
    };
    let types = vec![
        nested(1, 1),                       // 0: A
        prim(PrimitiveKind::U32),           // 1
        nested(3, 3),                       // 2: B
        prim(PrimitiveKind::Bool),          // 3
        nested(3, 5),                       // 4: C
        node(&[], Shape::Sequence(3)),      // 5: Vec<bool>
        nested(1, 7),                       // 6: D
        node(&[], Shape::Sequence(1)),      // 7: Vec<u32>
        nested(3, 9),                       // 8: E
        node(&[], Shape::Sequence(10)),     // 9: Vec<Foo<bool>>
        foo(3),                             // 10: Foo<bool>
        nested(1, 12),                      // 11: F
        node(&[], Shape::Sequence(13)),     // 12: Vec<Foo<u32>>
        foo(1),                             // 13: Foo<u32>
    ];
    (Registry { types }, [0, 2, 4, 6, 8, 11])
}

#[test]
fn types_equal_recursing_test() {
    let (registry, [id_a, id_b, id_c, id_d, id_e, id_f]) = nested_registry();

    // Despite how many layers of nesting, the generic param explains the difference.
    assert!(types_equal(id_a, id_b, &registry));
    assert!(types_equal(id_c, id_d, &registry));
    assert!(types_equal(id_e, id_f, &registry));

    // The pairs are not equal with each other.
    assert!(!types_equal(id_a, id_c, &registry));
    assert!(!types_equal(id_a, id_e, &registry));
    assert!(!types_equal(id_c, id_e, &registry));
}

#[test]
fn types_equal_is_reflexive_and_symmetric() {
    let (registry, ids) = nested_registry();
    for a in 0..registry.types.len() as u32 {
        assert!(types_equal(a, a, &registry));
        for b in 0..registry.types.len() as u32 {
            assert_eq!(types_equal(a, b, &registry), types_equal(b, a, &registry));
        }
    }
    assert!(types_equal(ids[1], ids[0], &registry));
}

#[test]
fn different_primitives_are_not_equal() {
    let registry = Registry { types: vec![prim(PrimitiveKind::U8), prim(PrimitiveKind::U16)] };
    assert!(!types_equal(0, 1, &registry));
}

#[test]
fn different_field_names_are_not_equal() {
    let registry = Registry {
        types: vec![
            prim(PrimitiveKind::U8),
            node(&["m", "S"], Shape::Composite(vec![named("a", 0, "u8")])),
            node(&["m", "S"], Shape::Composite(vec![named("b", 0, "u8")])),
            node(&["m", "S"], Shape::Composite(vec![named("a", 0, "u8"), named("b", 0, "u8")])),
            node(&["m", "S"], Shape::Composite(vec![named("a", 0, "u8")])),
        ],
    };
    assert!(!types_equal(1, 2, &registry));
    assert!(!types_equal(1, 3, &registry));
    assert!(types_equal(1, 4, &registry));
}

#[test]
fn different_discriminants_are_not_equal() {
    let variant = |index: u8| Variant { name: "V".to_string(), fields: vec![], index };
    let registry = Registry {
        types: vec![
            node(&["m", "E"], Shape::Variant(vec![variant(0)])),
            node(&["m", "E"], Shape::Variant(vec![variant(1)])),
            node(&["m", "E"], Shape::Variant(vec![variant(0)])),
        ],
    };
    assert!(!types_equal(0, 1, &registry));
    assert!(types_equal(0, 2, &registry));
}

#[test]
fn different_variant_field_counts_are_not_equal() {
    let variant = |fields: Vec<Field>| Variant { name: "V".to_string(), fields, index: 0 };
    let registry = Registry {
        types: vec![
            prim(PrimitiveKind::U8),
            node(&["m", "E"], Shape::Variant(vec![variant(vec![unnamed(0)])])),
            node(&["m", "E"], Shape::Variant(vec![variant(vec![unnamed(0), unnamed(0)])])),
        ],
    };
    assert!(!types_equal(1, 2, &registry));
}

#[test]
fn different_array_lengths_are_not_equal() {
    let registry = Registry {
        types: vec![
            prim(PrimitiveKind::U8),
            node(&[], Shape::Array(4, 0)),
            node(&[], Shape::Array(8, 0)),
            node(&[], Shape::Array(4, 0)),
        ],
    };
    assert!(!types_equal(1, 2, &registry));
    assert!(types_equal(1, 3, &registry));
}

#[test]
fn different_paths_are_not_equal() {
    let registry = Registry {
        types: vec![
            node(&["m", "A"], Shape::Composite(vec![])),
            node(&["m", "B"], Shape::Composite(vec![])),
        ],
    };
    assert!(!types_equal(0, 1, &registry));
}

#[test]
fn recursion_on_one_side_only_is_not_equal() {
    // 0: struct L { next: Vec<L> }   1: struct L { next: Vec<L'> }, L' = 3
    let registry = Registry {
        types: vec![
            node(&["m", "L"], Shape::Composite(vec![named("next", 1, "Vec<L>")])),
            node(&[], Shape::Sequence(0)),
            node(&["m", "L"], Shape::Composite(vec![named("next", 3, "Vec<L>")])),
            node(&[], Shape::Sequence(4)),
            node(&["m", "L"], Shape::Composite(vec![named("next", 5, "Vec<L>")])),
            node(&[], Shape::Sequence(4)),
        ],
    };
    // Both recursive, in the same way.
    assert!(types_equal(0, 4, &registry));
    // 2 unrolls once before it recurses.
    assert!(!types_equal(0, 2, &registry));
}

#[test]
fn bit_sequences_compare_store_and_order() {
    let registry = Registry {
        types: vec![
            prim(PrimitiveKind::U8),
            prim(PrimitiveKind::U32),
            node(&["bitvec", "Lsb0"], Shape::Composite(vec![])),
            node(&[], Shape::BitSequence(0, 2)),
            node(&[], Shape::BitSequence(1, 2)),
            node(&[], Shape::BitSequence(0, 2)),
        ],
    };
    assert!(!types_equal(3, 4, &registry));
    assert!(types_equal(3, 5, &registry));
}

#[test]
fn dedup_keeps_single_shape_and_prelude_paths() {
    let mut registry = Registry {
        types: vec![
            node(&["m", "Same"], Shape::Primitive(PrimitiveKind::U8)),
            node(&["m", "Same"], Shape::Primitive(PrimitiveKind::U8)),
            prim(PrimitiveKind::U8),
            prim(PrimitiveKind::U16),
            node(&["m", "Other"], Shape::Primitive(PrimitiveKind::U16)),
            node(&["Option"], Shape::Primitive(PrimitiveKind::U8)),
            node(&["Option"], Shape::Primitive(PrimitiveKind::U16)),
        ],
    };
    ensure_unique_type_paths(&mut registry);
    assert_eq!(registry.types[0].path, path(&["m", "Same"]));
    assert_eq!(registry.types[1].path, path(&["m", "Same"]));
    assert!(registry.types[2].path.is_empty());
    assert!(registry.types[3].path.is_empty());
    assert_eq!(registry.types[4].path, path(&["m", "Other"]));
    // Types without a namespace, such as prelude types, are never renamed.
    assert_eq!(registry.types[5].path, path(&["Option"]));
    assert_eq!(registry.types[6].path, path(&["Option"]));
}

#[test]
fn dedup_numbers_groups_per_path() {
    let mut registry = Registry {
        types: vec![
            node(&["a", "X"], Shape::Primitive(PrimitiveKind::U8)),
            node(&["b", "X"], Shape::Primitive(PrimitiveKind::U8)),
            node(&["a", "X"], Shape::Primitive(PrimitiveKind::U16)),
            node(&["b", "X"], Shape::Primitive(PrimitiveKind::U8)),
        ],
    };
    ensure_unique_type_paths(&mut registry);
    assert_eq!(registry.types[0].path, path(&["a", "X1"]));
    assert_eq!(registry.types[1].path, path(&["b", "X"]));
    assert_eq!(registry.types[2].path, path(&["a", "X2"]));
    assert_eq!(registry.types[3].path, path(&["b", "X"]));
}

#[test]
fn generics_list_finds_innermost_binding() {
    let empty = GenericsList::empty();
    assert_eq!(empty.index_for_type_id(7), None);
    let params = vec![
        TypeParam { name: "T".to_string(), ty: Some(5) },
        TypeParam { name: "U".to_string(), ty: None },
        TypeParam { name: "V".to_string(), ty: Some(7) },
    ];
    let outer = empty.extend(&params);
    assert_eq!(outer.index_for_type_id(5), Some(0));
    assert_eq!(outer.index_for_type_id(7), Some(1));
    assert_eq!(outer.index_for_type_id(9), None);
    let inner = outer.extend(&[TypeParam { name: "W".to_string(), ty: Some(7) }]);
    assert_eq!(inner.index_for_type_id(7), Some(2));
    assert_eq!(inner.index_for_type_id(5), Some(0));
    // The outer chain is not changed by extending it.
    assert_eq!(outer.index_for_type_id(7), Some(1));
}

#[test]
fn composite_kinds() {
    assert!(matches!(create_composite_ir_kind(&[]), Ok(CompositeKind::NoFields)));
    match create_composite_ir_kind(&[named("a", 3, "u8"), named("b", 4, "Box<Foo>")]) {
        Ok(CompositeKind::Named(v)) => {
            assert_eq!(v.len(), 2);
            assert_eq!(v[0].0, "a");
            assert_eq!((v[0].1.ty, v[0].1.is_boxed), (3, false));
            assert_eq!(v[1].0, "b");
            assert_eq!((v[1].1.ty, v[1].1.is_boxed), (4, true));
        },
        _ => panic!("expected named fields"),
    }
    let boxed = Field { name: None, ty: 9, ty_name: Some("Option<Box<T>>".to_string()) };
    match create_composite_ir_kind(&[unnamed(3), boxed]) {
        Ok(CompositeKind::Unnamed(v)) => {
            assert_eq!(v.len(), 2);
            assert_eq!((v[0].ty, v[0].is_boxed), (3, false));
            assert_eq!((v[1].ty, v[1].is_boxed), (9, true));
        },
        _ => panic!("expected unnamed fields"),
    }
}

#[test]
fn field_names_must_be_identifiers() {
    let r = create_composite_ir_kind(&[named("a", 3, "u8"), named("not an ident", 4, "u8")]);
    assert!(matches!(r, Err(TypegenError::SynParseError(_))));
}

#[test]
fn mixed_fields_are_invalid() {
    let r = create_composite_ir_kind(&[named("a", 3, "u8"), unnamed(4)]);
    assert!(matches!(r, Err(TypegenError::InvalidFields)));
    let r = create_composite_ir_kind(&[unnamed(4), named("a", 3, "u8"), named("b", 3, "u8")]);
    assert!(matches!(r, Err(TypegenError::InvalidFields)));
}

#[test]
fn wrappers_continue_on_recursion() {
    assert!(recursion_should_continue(&Shape::Sequence(0)));
    assert!(recursion_should_continue(&Shape::Array(2, 0)));
    assert!(recursion_should_continue(&Shape::Tuple(vec![0])));
    assert!(recursion_should_continue(&Shape::Compact(0)));
    assert!(!recursion_should_continue(&Shape::Composite(vec![])));
    assert!(!recursion_should_continue(&Shape::Variant(vec![])));
    assert!(!recursion_should_continue(&Shape::Primitive(PrimitiveKind::U8)));
    assert!(!recursion_should_continue(&Shape::BitSequence(0, 1)));
}

/// Describes types as text, counting how often it computes one.
#[derive(Clone, Copy)]
struct Describe {
    /// Whether a composite met again while in progress is an error.
    cycle_is_error: bool,
}

fn primitive_name(kind: PrimitiveKind) -> &'static str {
    match kind {
        PrimitiveKind::Bool => "bool",
        PrimitiveKind::U8 => "u8",
        PrimitiveKind::U32 => "u32",
        _ => "other",
    }
}

impl TransformPolicy<String, Cell<u32>> for Describe {
    fn compute<'a>(
        self,
        _type_id: u32,
        ty: &TypeNode,
        session: &Session<'a, Cell<u32>, Self>,
        cache: &mut Cache<String>,
    ) -> Result<String, TypegenError> {
        session.state().set(session.state().get() + 1);
        match &ty.shape {
            Shape::Primitive(k) => Ok(primitive_name(*k).to_string()),
            Shape::Sequence(e) => Ok(format!("Vec<{}>", cache.resolve(session, *e)?)),
            Shape::Composite(fields) => {
                let mut parts = Vec::new();
                for f in fields {
                    parts.push(format!("{}: {}", f.name.clone().unwrap_or_default(), cache.resolve(session, f.ty)?));
                }
                Ok(format!("struct {} {{ {} }}", ty.path.last().unwrap(), parts.join(", ")))
            },
            _ => Err(TypegenError::InvalidType("unsupported".to_string())),
        }
    }

    fn on_cycle<'a>(
        self,
        _type_id: u32,
        ty: &TypeNode,
        _session: &Session<'a, Cell<u32>, Self>,
        _cache: &mut Cache<String>,
    ) -> Option<Result<String, TypegenError>> {
        if recursion_should_continue(&ty.shape) {
            None
        } else if self.cycle_is_error {
            Some(Err(TypegenError::InvalidType("recursive".to_string())))
        } else {
            Some(Ok(ty.path.last().unwrap().clone()))
        }
    }

    fn on_cache_hit<'a>(
        self,
        _type_id: u32,
        _ty: &TypeNode,
        cached: &String,
        _session: &Session<'a, Cell<u32>, Self>,
        _cache: &mut Cache<String>,
    ) -> Option<Result<String, TypegenError>> {
        reuse_cached(cached)
    }
}

/// struct A { bees: Vec<B> }, struct B { id: u8, others: Vec<B> }
fn bees_registry() -> Registry {
    Registry {
        types: vec![
            node(&["m", "A"], Shape::Composite(vec![named("bees", 1, "Vec<B>")])),
            node(&[], Shape::Sequence(2)),
            node(&["m", "B"], Shape::Composite(vec![named("id", 3, "u8"), named("others", 1, "Vec<B>")])),
            prim(PrimitiveKind::U8),
        ],
    }
}

#[test]
fn resolve_twice_computes_once() {
    let registry = bees_registry();
    let mut engine = Transformer::new(Describe { cycle_is_error: false }, Cell::new(0), &registry);
    let first = engine.resolve(3).unwrap();
    assert_eq!(first, "u8");
    assert_eq!(engine.state().get(), 1);
    let second = engine.resolve(3).unwrap();
    assert_eq!(second, first);
    assert_eq!(engine.state().get(), 1);
}

#[test]
fn resolve_through_wrapper_cycle_is_finite() {
    let registry = bees_registry();
    let mut engine = Transformer::new(Describe { cycle_is_error: false }, Cell::new(0), &registry);
    let a = engine.resolve(0).unwrap();
    assert_eq!(a, "struct A { bees: Vec<struct B { id: u8, others: Vec<B> }> }");
}

#[test]
fn resolve_direct_cycle_reports_policy_outcome() {
    // struct A { me: A }
    let registry = Registry { types: vec![node(&["m", "A"], Shape::Composite(vec![named("me", 0, "A")]))] };
    let mut engine = Transformer::new(Describe { cycle_is_error: true }, Cell::new(0), &registry);
    assert!(matches!(engine.resolve(0), Err(TypegenError::InvalidType(_))));
}

#[test]
fn resolve_missing_type_fails() {
    let registry = bees_registry();
    let mut engine = Transformer::new(Describe { cycle_is_error: false }, Cell::new(0), &registry);
    assert!(matches!(engine.resolve(4), Err(TypegenError::TypeNotFound(4))));
    assert_eq!(engine.state().get(), 0);
}

#[test]
fn type_path_from_segments() {
    let ty = node(&["my", "module", "Foo"], Shape::Composite(vec![]));
    let tp = syn_type_path(&ty).unwrap();
    assert_eq!(tp.path.segments.len(), 3);
    assert!(tp.path.segments[0].ident == "my");
    assert!(tp.path.segments[1].ident == "module");
    assert!(tp.path.segments[2].ident == "Foo");
}

#[test]
fn type_path_refuses_bad_segment() {
    let ty = node(&["my", "1module", "Foo"], Shape::Composite(vec![]));
    assert!(matches!(syn_type_path(&ty), Err(TypegenError::SynParseError(_))));
}

#[test]
fn resolution_steps() {
    let registry = bees_registry();
    let mut cache: Cache<String> = Cache::new();
    assert!(matches!(cache.lookup(&registry, 9), Lookup::NotFound));
    assert!(matches!(cache.lookup(&registry, 3), Lookup::Fresh));
    // No answer: the type is marked as being resolved.
    assert!(cache.settle(3, None).is_none());
    assert!(matches!(cache.lookup(&registry, 3), Lookup::InProgress));
    // A cycle answer that is an error ends the resolution with that error.
    let r = cache.settle(3, Some(Err(TypegenError::InvalidType("recursive".to_string()))));
    assert!(matches!(r, Some(Err(TypegenError::InvalidType(_)))));
    assert!(matches!(cache.lookup(&registry, 3), Lookup::InProgress));
    // What was computed is cached and handed on.
    assert_eq!(cache.finish(3, Ok("u8".to_string())).unwrap(), "u8");
    // A repeat meets the cached value; the usual answer hands it back unchanged.
    match cache.lookup(&registry, 3) {
        Lookup::Computed(v) => {
            assert_eq!(v, "u8");
            assert_eq!(cache.settle(3, reuse_cached(&v)).unwrap().unwrap(), "u8");
        },
        _ => panic!("expected a cached value"),
    }
    assert!(matches!(cache.lookup(&registry, 3), Lookup::Computed(_)));
    // A failed computation leaves the type marked as being resolved.
    assert!(cache.settle(0, None).is_none());
    assert!(matches!(cache.finish(0, Err(TypegenError::CompactPathNone)), Err(TypegenError::CompactPathNone)));
    assert!(matches!(cache.lookup(&registry, 0), Lookup::InProgress));
}

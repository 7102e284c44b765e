use crate::equality::{
    eq_ids, fields_from, ids_from, lemma_unvisited_mark, types_equal_spec, unvisited2, variants_from,
};
use crate::equality::{none_visited, same_slot};
use crate::equality::param_names_match;
use crate::generics::{bound_ids, first_index, flat_len, lemma_first_index_at, slot_of};
use crate::registry::{opt_str_view, path_view, shape_refs, Field, Registry, TypeParam, Variant};
use vstd::prelude::*;

verus! {

/// Every type is structurally equal to itself.
pub proof fn lemma_types_equal_reflexive(reg: Registry, x: u32)
    ensures
        types_equal_spec(reg, x, x),
{
}

/// Structural equality does not depend on the order of its arguments.
pub proof fn lemma_types_equal_symmetric(reg: Registry, a: u32, b: u32)
    ensures
        types_equal_spec(reg, a, b) == types_equal_spec(reg, b, a),
{
    let g = seq![Seq::<u32>::empty()];
    let v = Seq::new(reg.len(), |i: int| false);
    lemma_eq_ids_swap(reg, a, g, v, b, g, v);
}

proof fn lemma_eq_ids_swap(
    reg: Registry,
    a: u32,
    ga: Seq<Seq<u32>>,
    va: Seq<bool>,
    b: u32,
    gb: Seq<Seq<u32>>,
    vb: Seq<bool>,
)
    ensures
        ({
            let r = eq_ids(reg, a, ga, va, b, gb, vb);
            eq_ids(reg, b, gb, vb, a, ga, va) == (r.0, r.2, r.1)
        }),
    decreases unvisited2(va, vb), 0nat, 0nat,
{
    if a != b && reg.contains(a) && reg.contains(b) && va.len() == reg.len() && vb.len() == reg.len()
        && !va[a as int] && !vb[b as int] {
        let va2 = va.update(a as int, true);
        let vb2 = vb.update(b as int, true);
        lemma_unvisited_mark(va, a as int);
        lemma_unvisited_mark(vb, b as int);
        let na = reg.node(a);
        let nb = reg.node(b);
        let ga2 = ga.push(crate::generics::bound_ids(na.type_params@));
        let gb2 = gb.push(crate::generics::bound_ids(nb.type_params@));
        match (na.shape, nb.shape) {
            (crate::registry::Shape::Composite(fa), crate::registry::Shape::Composite(fb)) => {
                lemma_fields_swap(reg, fa@, fb@, 0, ga2, va2, gb2, vb2);
            },
            (crate::registry::Shape::Variant(xa), crate::registry::Shape::Variant(xb)) => {
                lemma_variants_swap(reg, xa@, xb@, 0, ga2, va2, gb2, vb2);
            },
            (crate::registry::Shape::Sequence(x), crate::registry::Shape::Sequence(y)) => {
                lemma_eq_ids_swap(reg, x, ga2, va2, y, gb2, vb2);
            },
            (crate::registry::Shape::Array(_, x), crate::registry::Shape::Array(_, y)) => {
                lemma_eq_ids_swap(reg, x, ga2, va2, y, gb2, vb2);
            },
            (crate::registry::Shape::Tuple(xs), crate::registry::Shape::Tuple(ys)) => {
                lemma_ids_swap(reg, xs@, ys@, 0, ga2, va2, gb2, vb2);
            },
            (crate::registry::Shape::Compact(x), crate::registry::Shape::Compact(y)) => {
                lemma_eq_ids_swap(reg, x, ga2, va2, y, gb2, vb2);
            },
            (
                crate::registry::Shape::BitSequence(sa, oa),
                crate::registry::Shape::BitSequence(sb, ob),
            ) => {
                lemma_ids_swap(reg, seq![oa, sa], seq![ob, sb], 0, ga2, va2, gb2, vb2);
            },
            _ => {},
        }
    }
}

proof fn lemma_fields_swap(
    reg: Registry,
    fa: Seq<Field>,
    fb: Seq<Field>,
    i: int,
    ga: Seq<Seq<u32>>,
    va: Seq<bool>,
    gb: Seq<Seq<u32>>,
    vb: Seq<bool>,
)
    ensures
        ({
            let r = fields_from(reg, fa, fb, i, ga, va, gb, vb);
            fields_from(reg, fb, fa, i, gb, vb, ga, va) == (r.0, r.2, r.1)
        }),
    decreases unvisited2(va, vb), 1nat, fa.len() - i,
{
    if 0 <= i < fa.len() && i < fb.len() {
        lemma_eq_ids_swap(reg, fa[i].ty, ga, va, fb[i].ty, gb, vb);
        let r = eq_ids(reg, fa[i].ty, ga, va, fb[i].ty, gb, vb);
        if r.0 && unvisited2(r.1, r.2) <= unvisited2(va, vb) {
            lemma_fields_swap(reg, fa, fb, i + 1, ga, r.1, gb, r.2);
        }
    }
}

proof fn lemma_ids_swap(
    reg: Registry,
    xs: Seq<u32>,
    ys: Seq<u32>,
    i: int,
    ga: Seq<Seq<u32>>,
    va: Seq<bool>,
    gb: Seq<Seq<u32>>,
    vb: Seq<bool>,
)
    ensures
        ({
            let r = ids_from(reg, xs, ys, i, ga, va, gb, vb);
            ids_from(reg, ys, xs, i, gb, vb, ga, va) == (r.0, r.2, r.1)
        }),
    decreases unvisited2(va, vb), 1nat, xs.len() - i,
{
    if 0 <= i < xs.len() && i < ys.len() {
        lemma_eq_ids_swap(reg, xs[i], ga, va, ys[i], gb, vb);
        let r = eq_ids(reg, xs[i], ga, va, ys[i], gb, vb);
        if r.0 && unvisited2(r.1, r.2) <= unvisited2(va, vb) {
            lemma_ids_swap(reg, xs, ys, i + 1, ga, r.1, gb, r.2);
        }
    }
}

proof fn lemma_variants_swap(
    reg: Registry,
    xa: Seq<Variant>,
    xb: Seq<Variant>,
    i: int,
    ga: Seq<Seq<u32>>,
    va: Seq<bool>,
    gb: Seq<Seq<u32>>,
    vb: Seq<bool>,
)
    ensures
        ({
            let r = variants_from(reg, xa, xb, i, ga, va, gb, vb);
            variants_from(reg, xb, xa, i, gb, vb, ga, va) == (r.0, r.2, r.1)
        }),
    decreases unvisited2(va, vb), 2nat, xa.len() - i,
{
    if 0 <= i < xa.len() && i < xb.len() {
        lemma_fields_swap(reg, xa[i].fields@, xb[i].fields@, 0, ga, va, gb, vb);
        let r = fields_from(reg, xa[i].fields@, xb[i].fields@, 0, ga, va, gb, vb);
        if r.0 && unvisited2(r.1, r.2) <= unvisited2(va, vb) {
            lemma_variants_swap(reg, xa, xb, i + 1, ga, r.1, gb, r.2);
        }
    }
}


proof fn lemma_fields_mismatch(
    reg: Registry,
    fa: Seq<Field>,
    fb: Seq<Field>,
    i: int,
    j: int,
    ga: Seq<Seq<u32>>,
    va: Seq<bool>,
    gb: Seq<Seq<u32>>,
    vb: Seq<bool>,
)
    requires
        0 <= i <= j < fa.len(),
        j < fb.len(),
        opt_str_view(fa[j].name) != opt_str_view(fb[j].name),
    ensures
        !fields_from(reg, fa, fb, i, ga, va, gb, vb).0,
    decreases j - i,
{
    if i < j {
        let r = eq_ids(reg, fa[i].ty, ga, va, fb[i].ty, gb, vb);
        lemma_fields_mismatch(reg, fa, fb, i + 1, j, ga, r.1, gb, r.2);
    }
}

proof fn lemma_variants_mismatch(
    reg: Registry,
    xa: Seq<Variant>,
    xb: Seq<Variant>,
    i: int,
    j: int,
    ga: Seq<Seq<u32>>,
    va: Seq<bool>,
    gb: Seq<Seq<u32>>,
    vb: Seq<bool>,
)
    requires
        0 <= i <= j < xa.len(),
        j < xb.len(),
        xa[j].index != xb[j].index || xa[j].fields@.len() != xb[j].fields@.len(),
    ensures
        !variants_from(reg, xa, xb, i, ga, va, gb, vb).0,
    decreases j - i,
{
    if i < j {
        let r = fields_from(reg, xa[i].fields@, xb[i].fields@, 0, ga, va, gb, vb);
        lemma_variants_mismatch(reg, xa, xb, i + 1, j, ga, r.1, gb, r.2);
    }
}

proof fn lemma_top_scope(reg: Registry, a: u32, b: u32)
    ensures
        !same_slot(seq![Seq::<u32>::empty()], a, seq![Seq::<u32>::empty()], b),
        (a as int) < reg.len() ==> !none_visited(reg.len())[a as int],
{
    let g = seq![Seq::<u32>::empty()];
    assert(g.drop_last() =~= Seq::<Seq<u32>>::empty());
    assert(first_index(g.last(), a) is None);
    assert(slot_of(Seq::<Seq<u32>>::empty(), a) is None);
}

/// Two composites are not equal when they have different numbers of fields, or
/// when the fields at some position have different names.
pub proof fn lemma_composites_differ(reg: Registry, a: u32, b: u32)
    requires
        reg.node(a).shape is Composite,
        reg.node(b).shape is Composite,
        ({
            let fa = reg.node(a).shape->Composite_0@;
            let fb = reg.node(b).shape->Composite_0@;
            fa.len() != fb.len() || exists|j: int|
                0 <= j < fa.len() && j < fb.len() && opt_str_view(fa[j].name) != opt_str_view(
                    fb[j].name,
                )
        }),
    ensures
        !types_equal_spec(reg, a, b),
{
    lemma_top_scope(reg, a, b);
    let fa = reg.node(a).shape->Composite_0@;
    let fb = reg.node(b).shape->Composite_0@;
    if fa.len() == fb.len() {
        let j = choose|j: int|
            0 <= j < fa.len() && j < fb.len() && opt_str_view(fa[j].name) != opt_str_view(fb[j].name);
        let v = none_visited(reg.len());
        let g2a = seq![Seq::<u32>::empty()].push(bound_ids(reg.node(a).type_params@));
        let g2b = seq![Seq::<u32>::empty()].push(bound_ids(reg.node(b).type_params@));
        if (a as int) < reg.len() && (b as int) < reg.len() {
            lemma_fields_mismatch(
                reg,
                fa,
                fb,
                0,
                j,
                g2a,
                v.update(a as int, true),
                g2b,
                v.update(b as int, true),
            );
        }
    }
}

/// Two variant types are not equal when they have different numbers of variants,
/// or when the variants at some position have different discriminants or
/// different numbers of fields.
pub proof fn lemma_variants_differ(reg: Registry, a: u32, b: u32)
    requires
        reg.node(a).shape is Variant,
        reg.node(b).shape is Variant,
        ({
            let xa = reg.node(a).shape->Variant_0@;
            let xb = reg.node(b).shape->Variant_0@;
            xa.len() != xb.len() || exists|j: int|
                0 <= j < xa.len() && j < xb.len() && (xa[j].index != xb[j].index
                    || xa[j].fields@.len() != xb[j].fields@.len())
        }),
    ensures
        !types_equal_spec(reg, a, b),
{
    lemma_top_scope(reg, a, b);
    let xa = reg.node(a).shape->Variant_0@;
    let xb = reg.node(b).shape->Variant_0@;
    if xa.len() == xb.len() {
        let j = choose|j: int|
            0 <= j < xa.len() && j < xb.len() && (xa[j].index != xb[j].index || xa[j].fields@.len()
                != xb[j].fields@.len());
        let v = none_visited(reg.len());
        let g2a = seq![Seq::<u32>::empty()].push(bound_ids(reg.node(a).type_params@));
        let g2b = seq![Seq::<u32>::empty()].push(bound_ids(reg.node(b).type_params@));
        if (a as int) < reg.len() && (b as int) < reg.len() {
            lemma_variants_mismatch(
                reg,
                xa,
                xb,
                0,
                j,
                g2a,
                v.update(a as int, true),
                g2b,
                v.update(b as int, true),
            );
        }
    }
}

/// Two arrays of different lengths are not equal.
pub proof fn lemma_arrays_differ(reg: Registry, a: u32, b: u32)
    requires
        reg.node(a).shape is Array,
        reg.node(b).shape is Array,
        reg.node(a).shape->Array_0 != reg.node(b).shape->Array_0,
    ensures
        !types_equal_spec(reg, a, b),
{
    lemma_top_scope(reg, a, b);
}


proof fn lemma_bound_ids_first(p: Seq<TypeParam>)
    requires
        p.len() > 0,
        p[0].ty is Some,
    ensures
        bound_ids(p).len() > 0,
        bound_ids(p)[0] == p[0].ty.unwrap(),
    decreases p.len(),
{
    if p.len() > 1 {
        assert(p.drop_last()[0] == p[0]);
        lemma_bound_ids_first(p.drop_last());
    } else {
        assert(p.drop_last() =~= Seq::<TypeParam>::empty());
        assert(bound_ids(Seq::<TypeParam>::empty()) =~= Seq::<u32>::empty());
        assert(p.last() == p[0]);
    }
}

/// The position that the type bound to the first declared parameter takes in a
/// scope that the top-level scope was extended by those parameters.
proof fn lemma_first_param_slot(p: Seq<TypeParam>, t: u32)
    requires
        p.len() > 0,
        p[0].ty == Some(t),
    ensures
        slot_of(seq![Seq::<u32>::empty()].push(bound_ids(p)), t) == Some(0int),
{
    lemma_bound_ids_first(p);
    let g = seq![Seq::<u32>::empty()].push(bound_ids(p));
    lemma_first_index_at(bound_ids(p), t, 0);
    assert(g.last() == bound_ids(p));
    assert(g.drop_last() =~= seq![Seq::<u32>::empty()]);
    assert(seq![Seq::<u32>::empty()].drop_last() =~= Seq::<Seq<u32>>::empty());
    assert(flat_len(Seq::<Seq<u32>>::empty()) == 0);
    assert(flat_len(seq![Seq::<u32>::empty()]) == 0);
}

/// Two composites with the same path and parameter names, each with one field of
/// the same name and declared type name, whose type is in each the type bound to
/// the first declared parameter, are equal whatever the bound types are.
pub proof fn lemma_generic_field_equal(reg: Registry, a: u32, b: u32)
    requires
        reg.well_formed(),
        reg.contains(a),
        reg.contains(b),
        path_view(reg.node(a).path@) == path_view(reg.node(b).path@),
        param_names_match(reg.node(a).type_params@, reg.node(b).type_params@),
        reg.node(a).shape is Composite,
        reg.node(b).shape is Composite,
        ({
            let fa = reg.node(a).shape->Composite_0@;
            let fb = reg.node(b).shape->Composite_0@;
            let pa = reg.node(a).type_params@;
            let pb = reg.node(b).type_params@;
            &&& fa.len() == 1
            &&& fb.len() == 1
            &&& opt_str_view(fa[0].name) == opt_str_view(fb[0].name)
            &&& opt_str_view(fa[0].ty_name) == opt_str_view(fb[0].ty_name)
            &&& pa.len() > 0 && pa[0].ty == Some(fa[0].ty) && fa[0].ty != a
            &&& pb.len() > 0 && pb[0].ty == Some(fb[0].ty) && fb[0].ty != b
        }),
    ensures
        types_equal_spec(reg, a, b),
{
    if a != b {
        let na = reg.node(a);
        let nb = reg.node(b);
        let fa = na.shape->Composite_0@;
        let fb = nb.shape->Composite_0@;
        let ta = fa[0].ty;
        let tb = fb[0].ty;
        assert(shape_refs(reg.types@[a as int].shape).contains(ta));
        assert(shape_refs(reg.types@[b as int].shape).contains(tb));
        lemma_top_scope(reg, a, b);
        lemma_first_param_slot(na.type_params@, ta);
        lemma_first_param_slot(nb.type_params@, tb);
        let v = none_visited(reg.len());
        let va2 = v.update(a as int, true);
        let vb2 = v.update(b as int, true);
        let ga2 = seq![Seq::<u32>::empty()].push(bound_ids(na.type_params@));
        let gb2 = seq![Seq::<u32>::empty()].push(bound_ids(nb.type_params@));
        lemma_unvisited_mark(v, a as int);
        lemma_unvisited_mark(v, b as int);
        lemma_unvisited_mark(va2, ta as int);
        lemma_unvisited_mark(vb2, tb as int);
        if ta != tb {
            assert(same_slot(ga2, ta, gb2, tb));
        }
        let r = eq_ids(reg, ta, ga2, va2, tb, gb2, vb2);
        assert(r.0);
        assert(fields_from(reg, fa, fb, 1, ga2, r.1, gb2, r.2).0);
        assert(fields_from(reg, fa, fb, 0, ga2, va2, gb2, vb2).0);
    }
}

} // verus!
